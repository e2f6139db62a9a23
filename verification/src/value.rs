use vstd::prelude::*;
use vstd::string::StringExecFns;

verus! {

/// A runtime value of the expression sublanguage: a dictionary of
/// key/value pairs, a list of strings, or a single string.
#[derive(Debug, Clone)]
pub enum EValue {
    Dict(Vec<(String, String)>),
    List(Vec<String>),
    Str(String),
}

/// The views of a sequence of strings.
pub open spec fn strs_view(items: Seq<String>) -> Seq<Seq<char>> {
    items.map_values(|t: String| t@)
}

/// The views of a sequence of string pairs.
pub open spec fn pairs_view(pairs: Seq<(String, String)>) -> Seq<(Seq<char>, Seq<char>)> {
    pairs.map_values(|p: (String, String)| (p.0@, p.1@))
}

/// The views of a sequence of character vectors.
pub open spec fn chunks_view(pieces: Seq<Vec<char>>) -> Seq<Seq<char>> {
    pieces.map_values(|p: Vec<char>| p@)
}

/// The items of `items` joined with `sep` between them.
pub open spec fn joined(items: Seq<Seq<char>>, sep: Seq<char>) -> Seq<char>
    decreases items.len(),
{
    if items.len() == 0 {
        Seq::empty()
    } else if items.len() == 1 {
        items[0]
    } else {
        items[0] + sep + joined(items.drop_first(), sep)
    }
}

/// Appending one item to a join extends it by one separator and the item.
pub proof fn lemma_joined_push(items: Seq<Seq<char>>, sep: Seq<char>, x: Seq<char>)
    ensures
        joined(items.push(x), sep) == if items.len() == 0 {
            x
        } else {
            joined(items, sep) + sep + x
        },
    decreases items.len(),
{
    if items.len() == 0 {
        assert(items.push(x)[0] == x);
        assert(items.push(x).len() == 1);
    } else {
        assert(items.push(x).drop_first() =~= items.drop_first().push(x));
        lemma_joined_push(items.drop_first(), sep, x);
        if items.len() == 1 {
            assert(items.drop_first().len() == 0);
            assert(joined(items, sep) == items[0]);
            assert(joined(items.push(x), sep) == items[0] + sep + joined(
                items.drop_first().push(x),
                sep,
            ));
        }
    }
}

/// A dictionary rendered as `k=v` items.
pub open spec fn dict_items(pairs: Seq<(String, String)>) -> Seq<Seq<char>> {
    pairs.map_values(|p: (String, String)| p.0@ + "="@ + p.1@)
}

/// What `to_formatted_string` returns: `k=v` pairs joined by the separator
/// for a dictionary, the string itself for a string, and the items joined
/// by `", "` for a list, whatever the context's separator.
pub open spec fn spec_formatted(v: EValue, sep: Seq<char>) -> Seq<char> {
    match v {
        EValue::Dict(pairs) => joined(dict_items(pairs@), sep),
        EValue::Str(s) => s@,
        EValue::List(items) => joined(strs_view(items@), ", "@),
    }
}

/// What `as_str` returns: the contents of a string value, nothing otherwise.
pub open spec fn spec_as_str(v: EValue) -> Seq<char> {
    match v {
        EValue::Str(s) => s@,
        _ => Seq::empty(),
    }
}

/// Whether a value is empty: no pairs, no items, or no characters.
pub open spec fn spec_is_empty(v: EValue) -> bool {
    match v {
        EValue::Dict(pairs) => pairs@.len() == 0,
        EValue::List(items) => items@.len() == 0,
        EValue::Str(s) => s@.len() == 0,
    }
}

impl EValue {
    /// Renders the value with an arbitrary separator: `k=v` pairs joined by
    /// `separator` for a dictionary, the string itself for a string, and the
    /// items joined by `", "` for a list.
    pub fn to_formatted_string(&self, separator: &str) -> (r: String)
        ensures
            r@ == spec_formatted(*self, separator@),
    {
        match self {
            EValue::Dict(pairs) => {
                let mut out = String::new();
                let ghost items = dict_items(pairs@);
                let n = pairs.len();
                for i in 0..n
                    invariant
                        n == pairs@.len(),
                        items == dict_items(pairs@),
                        out@ == joined(items.subrange(0, i as int), separator@),
                {
                    proof {
                        lemma_joined_push(items.subrange(0, i as int), separator@, items[i as int]);
                        assert(items.subrange(0, i as int).push(items[i as int]) =~= items.subrange(
                            0,
                            i + 1,
                        ));
                    }
                    if i > 0 {
                        out.append(separator);
                    }
                    out.append(pairs[i].0.as_str());
                    out.append("=");
                    out.append(pairs[i].1.as_str());
                    assert(out@ == joined(items.subrange(0, i + 1), separator@));
                }
                proof {
                    assert(items.subrange(0, items.len() as int) =~= items);
                }
                out
            },
            EValue::Str(s) => s.clone(),
            EValue::List(items) => {
                let mut out = String::new();
                let ghost itemsv = strs_view(items@);
                let n = items.len();
                for i in 0..n
                    invariant
                        n == items@.len(),
                        itemsv == strs_view(items@),
                        out@ == joined(itemsv.subrange(0, i as int), ", "@),
                {
                    proof {
                        lemma_joined_push(itemsv.subrange(0, i as int), ", "@, itemsv[i as int]);
                        assert(itemsv.subrange(0, i as int).push(itemsv[i as int]) =~= itemsv
                            .subrange(0, i + 1));
                    }
                    if i > 0 {
                        out.append(", ");
                    }
                    out.append(items[i].as_str());
                    assert(out@ == joined(itemsv.subrange(0, i + 1), ", "@));
                }
                proof {
                    assert(itemsv.subrange(0, itemsv.len() as int) =~= itemsv);
                }
                out
            },
        }
    }

    /// Renders the value for a cookie context: pairs joined by `"; "`.
    pub fn to_cookie(&self) -> (r: String)
        ensures
            r@ == spec_formatted(*self, "; "@),
    {
        self.to_formatted_string("; ")
    }

    /// Renders the value for a query-string context: pairs joined by `"&"`.
    pub fn to_qs(&self) -> (r: String)
        ensures
            r@ == spec_formatted(*self, "&"@),
    {
        self.to_formatted_string("&")
    }

    /// The contents of a string value; the empty string for lists and
    /// dictionaries.
    pub fn as_str(&self) -> (r: &str)
        ensures
            r@ == spec_as_str(*self),
    {
        match self {
            EValue::Str(s) => s.as_str(),
            _ => {
                proof {
                    reveal_strlit("");
                    assert(""@ =~= Seq::<char>::empty());
                }
                ""
            },
        }
    }

    /// Whether the value holds no data. Absence of data and presence of
    /// empty data are treated identically by default chaining.
    pub fn is_empty(&self) -> (r: bool)
        ensures
            r == spec_is_empty(*self),
    {
        match self {
            EValue::Dict(pairs) => pairs.len() == 0,
            EValue::List(items) => items.len() == 0,
            EValue::Str(s) => s.as_str().is_empty(),
        }
    }
}

} // verus!

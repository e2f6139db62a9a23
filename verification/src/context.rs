use vstd::prelude::*;
use crate::strings::{find_sep, find_sep_exec, str_eq, subvec_chars, chars_to_string, str_chars};
use crate::value::{pairs_view, chunks_view};

verus! {

/// The request data the expression evaluator reads, as plain values.
///
/// The runtime that receives the client request fills this in once per
/// document; the evaluator then works on it alone. Header names are
/// expected in lower case, as HTTP header names are case-insensitive.
#[derive(Debug, Clone)]
pub struct RequestContext {
    /// The request method, upper case.
    pub method: String,
    /// The URL path.
    pub path: String,
    /// The URL host.
    pub host: String,
    /// The raw query string, without the leading `?`; `None` when the URL
    /// has none.
    pub query: Option<String>,
    /// The request headers, names in lower case.
    pub headers: Vec<(String, String)>,
    /// The client IP address, when the runtime knows it.
    pub client_ip: Option<String>,
    /// The device name the runtime's device lookup resolved for this
    /// request's user agent, when it resolved one.
    pub device_name: Option<String>,
}

impl RequestContext {
    /// A context with nothing known: GET to `/` on `localhost` with no
    /// query, headers, or client address.
    pub fn default_get() -> (r: RequestContext)
        ensures
            r.method@ == "GET"@,
            r.path@ == "/"@,
            r.host@ == "localhost"@,
            r.query is None,
            r.headers@.len() == 0,
            r.client_ip is None,
            r.device_name is None,
    {
        RequestContext {
            method: "GET".to_owned(),
            path: "/".to_owned(),
            host: "localhost".to_owned(),
            query: None,
            headers: Vec::new(),
            client_ip: None,
            device_name: None,
        }
    }
}

// ------------------------------------------------------------------
// Whitespace trimming
// ------------------------------------------------------------------
/// Whether `c` is ASCII whitespace.
pub open spec fn is_space(c: char) -> bool {
    c == ' ' || c == '\t' || c == '\r' || c == '\n'
}

/// Whether `c` is ASCII whitespace.
pub fn is_space_exec(c: char) -> (r: bool)
    ensures
        r == is_space(c),
{
    c == ' ' || c == '\t' || c == '\r' || c == '\n'
}

/// `s` without leading whitespace.
pub open spec fn trim_start_spec(s: Seq<char>) -> Seq<char>
    decreases s.len(),
{
    if s.len() > 0 && is_space(s[0]) {
        trim_start_spec(s.drop_first())
    } else {
        s
    }
}

/// `s` without trailing whitespace.
pub open spec fn trim_end_spec(s: Seq<char>) -> Seq<char>
    decreases s.len(),
{
    if s.len() > 0 && is_space(s.last()) {
        trim_end_spec(s.drop_last())
    } else {
        s
    }
}

/// `s` without leading or trailing whitespace.
pub open spec fn trim_spec(s: Seq<char>) -> Seq<char> {
    trim_end_spec(trim_start_spec(s))
}

/// Removes leading and trailing whitespace from a character vector.
pub fn trim_chars(s: &Vec<char>) -> (r: Vec<char>)
    ensures
        r@ == trim_spec(s@),
{
    let n = s.len();
    proof {
        assert(s@.subrange(0, n as int) =~= s@);
    }
    let mut a: usize = 0;
    while a < n && is_space_exec(s[a])
        invariant
            n == s@.len(),
            0 <= a <= n,
            trim_start_spec(s@) == trim_start_spec(s@.subrange(a as int, n as int)),
        decreases n - a,
    {
        proof {
            let cur = s@.subrange(a as int, n as int);
            assert(cur[0] == s@[a as int]);
            assert(cur.drop_first() =~= s@.subrange(a + 1, n as int));
        }
        a = a + 1;
    }
    proof {
        let cur = s@.subrange(a as int, n as int);
        if a < n {
            assert(cur[0] == s@[a as int]);
        }
        assert(trim_start_spec(cur) == cur);
    }
    let mut b: usize = n;
    while b > a && is_space_exec(s[b - 1])
        invariant
            n == s@.len(),
            0 <= a <= b <= n,
            trim_start_spec(s@) == s@.subrange(a as int, n as int),
            trim_end_spec(s@.subrange(a as int, n as int)) == trim_end_spec(
                s@.subrange(a as int, b as int),
            ),
        decreases b,
    {
        proof {
            let cur = s@.subrange(a as int, b as int);
            assert(cur.last() == s@[b - 1]);
            assert(cur.drop_last() =~= s@.subrange(a as int, b - 1));
        }
        b = b - 1;
    }
    proof {
        let cur = s@.subrange(a as int, b as int);
        if b > a {
            assert(cur.last() == s@[b - 1]);
        }
        assert(trim_end_spec(cur) == cur);
    }
    let mut r: Vec<char> = Vec::new();
    let mut i: usize = a;
    while i < b
        invariant
            a <= i <= b <= s@.len(),
            r@ =~= s@.subrange(a as int, i as int),
        decreases b - i,
    {
        r.push(s[i]);
        i = i + 1;
    }
    proof {
        assert(r@ =~= s@.subrange(a as int, b as int));
    }
    r
}

// ------------------------------------------------------------------
// Splitting on a single character
// ------------------------------------------------------------------
/// `s` split around every occurrence of `sep`, with no piece limit.
pub open spec fn split_all(s: Seq<char>, sep: char) -> Seq<Seq<char>>
    decreases s.len(),
{
    match find_sep(s, seq![sep]) {
        None => seq![s],
        Some(k) => if 0 <= k < s.len() {
            seq![s.subrange(0, k)] + split_all(s.subrange(k + 1, s.len() as int), sep)
        } else {
            // never reached: a found occurrence lies inside `s`
            seq![s]
        },
    }
}

/// `find_sep` on a one-character separator finds an occurrence of that
/// character, so the occurrence lies inside `s`.
proof fn lemma_find_char_bounds(s: Seq<char>, sep: char)
    ensures
        find_sep(s, seq![sep]) matches Some(k) ==> 0 <= k < s.len(),
    decreases s.len(),
{
    if !(s.len() >= 1 && s.subrange(0, 1) == seq![sep]) && s.len() > 0 {
        lemma_find_char_bounds(s.drop_first(), sep);
    }
}

/// `s` split around every occurrence of `sep`, as character vectors.
pub fn split_all_exec(s: Vec<char>, sep: char) -> (r: Vec<Vec<char>>)
    ensures
        chunks_view(r@) == split_all(s@, sep),
    decreases s@.len(),
{
    let mut sep_vec: Vec<char> = Vec::new();
    sep_vec.push(sep);
    proof {
        assert(sep_vec@ =~= seq![sep]);
        lemma_find_char_bounds(s@, sep);
    }
    let mut r: Vec<Vec<char>> = Vec::new();
    match find_sep_exec(&s, &sep_vec) {
        None => {
            r.push(s);
            proof {
                assert(chunks_view(r@) =~= split_all(
                    r@[0]@,
                    sep,
                ));
            }
            r
        },
        Some(k) => {
            let n = s.len();
            let head = subvec_chars(&s, 0, k);
            let tail = subvec_chars(&s, k + 1, n);
            let ghost s_view = s@;
            r.push(head);
            let mut rest = split_all_exec(tail, sep);
            let ghost rest_view = rest@;
            r.append(&mut rest);
            proof {
                assert(chunks_view(r@) =~= seq![s_view.subrange(0, k as int)]
                    + chunks_view(rest_view));
                assert(chunks_view(r@) =~= split_all(s_view, sep));
            }
            r
        },
    }
}

// ------------------------------------------------------------------
// Query strings and cookies
// ------------------------------------------------------------------
/// A query piece split at its first `=`: the whole piece with an empty
/// value when it has no `=`.
pub open spec fn query_pair_of(p: Seq<char>) -> (Seq<char>, Seq<char>) {
    match find_sep(p, seq!['=']) {
        None => (p, Seq::empty()),
        Some(k) => (p.subrange(0, k), p.subrange(k + 1, p.len() as int)),
    }
}

/// The key/value pairs of the pieces of a query string; empty pieces are
/// dropped.
pub open spec fn query_pairs_of(pieces: Seq<Seq<char>>) -> Seq<(Seq<char>, Seq<char>)>
    decreases pieces.len(),
{
    if pieces.len() == 0 {
        seq![]
    } else {
        let rest = query_pairs_of(pieces.drop_first());
        if pieces[0].len() == 0 {
            rest
        } else {
            seq![query_pair_of(pieces[0])] + rest
        }
    }
}

/// The key/value pairs of a raw query string: `&`-separated pieces, each
/// split at its first `=`. No percent-decoding is applied.
pub open spec fn query_pairs(q: Seq<char>) -> Seq<(Seq<char>, Seq<char>)> {
    query_pairs_of(split_all(q, '&'))
}

/// Splits one query piece at its first `=`.
fn query_pair_exec(p: Vec<char>) -> (r: (String, String))
    ensures
        (r.0@, r.1@) == query_pair_of(p@),
{
    let mut eq_vec: Vec<char> = Vec::new();
    eq_vec.push('=');
    proof {
        assert(eq_vec@ =~= seq!['=']);
        lemma_find_char_bounds(p@, '=');
    }
    match find_sep_exec(&p, &eq_vec) {
        None => {
            let empty: Vec<char> = Vec::new();
            proof {
                assert(empty@ =~= Seq::<char>::empty());
            }
            (chars_to_string(&p), chars_to_string(&empty))
        },
        Some(k) => {
            let n = p.len();
            let head = subvec_chars(&p, 0, k);
            let tail = subvec_chars(&p, k + 1, n);
            (chars_to_string(&head), chars_to_string(&tail))
        },
    }
}

/// The pairs of the given query pieces, dropping empty pieces.
fn query_pairs_exec(mut pieces: Vec<Vec<char>>) -> (r: Vec<(String, String)>)
    ensures
        pairs_view(r@) == query_pairs_of(
            chunks_view(pieces@),
        ),
    decreases pieces@.len(),
{
    let ghost pieces_view = chunks_view(pieces@);
    let mut r: Vec<(String, String)> = Vec::new();
    if pieces.len() == 0 {
        proof {
            assert(pairs_view(r@) =~= query_pairs_of(
                pieces_view,
            ));
        }
        return r;
    }
    let head = pieces.remove(0);
    proof {
        assert(chunks_view(pieces@) =~= pieces_view.drop_first());
    }
    let ghost head_view = head@;
    let first = if head.len() > 0 {
        Some(query_pair_exec(head))
    } else {
        None
    };
    let mut rest = query_pairs_exec(pieces);
    let ghost rest_view = rest@;
    match first {
        Some(pair) => {
            r.push(pair);
            r.append(&mut rest);
            proof {
                assert(pieces_view.drop_first() =~= pieces_view.subrange(
                    1,
                    pieces_view.len() as int,
                ));
                assert(pairs_view(r@) =~= seq![
                    query_pair_of(head_view),
                ] + pairs_view(rest_view));
                assert(pairs_view(r@) =~= query_pairs_of(
                    pieces_view,
                ));
            }
        },
        None => {
            r.append(&mut rest);
            proof {
                assert(pieces_view.drop_first() =~= pieces_view.subrange(
                    1,
                    pieces_view.len() as int,
                ));
                assert(pairs_view(r@) =~= query_pairs_of(
                    pieces_view,
                ));
            }
        },
    }
    r
}

/// The key/value pairs of a raw query string.
pub fn parse_query_pairs(q: &str) -> (r: Vec<(String, String)>)
    ensures
        pairs_view(r@) == query_pairs(q@),
{
    let chars = str_chars(q);
    let pieces = split_all_exec(chars, '&');
    query_pairs_exec(pieces)
}

/// A cookie piece: trimmed, then split at its first `=`; pieces with no
/// `=` are dropped.
pub open spec fn cookie_pairs_of(pieces: Seq<Seq<char>>) -> Seq<(Seq<char>, Seq<char>)>
    decreases pieces.len(),
{
    if pieces.len() == 0 {
        seq![]
    } else {
        let rest = cookie_pairs_of(pieces.drop_first());
        let t = trim_spec(pieces[0]);
        match find_sep(t, seq!['=']) {
            None => rest,
            Some(k) => seq![(t.subrange(0, k), t.subrange(k + 1, t.len() as int))] + rest,
        }
    }
}

/// The cookie pairs of a `Cookie` header value: `;`-separated pieces,
/// trimmed, each split at its first `=`; pieces without `=` are dropped.
pub open spec fn cookie_pairs(h: Seq<char>) -> Seq<(Seq<char>, Seq<char>)> {
    cookie_pairs_of(split_all(h, ';'))
}

/// The pairs of the given cookie pieces.
fn cookie_pairs_exec(mut pieces: Vec<Vec<char>>) -> (r: Vec<(String, String)>)
    ensures
        pairs_view(r@) == cookie_pairs_of(
            chunks_view(pieces@),
        ),
    decreases pieces@.len(),
{
    let ghost pieces_view = chunks_view(pieces@);
    let mut r: Vec<(String, String)> = Vec::new();
    if pieces.len() == 0 {
        proof {
            assert(pairs_view(r@) =~= cookie_pairs_of(
                pieces_view,
            ));
        }
        return r;
    }
    let head = pieces.remove(0);
    proof {
        assert(chunks_view(pieces@) =~= pieces_view.drop_first());
    }
    let t = trim_chars(&head);
    let ghost t_view = t@;
    let mut eq_vec: Vec<char> = Vec::new();
    eq_vec.push('=');
    proof {
        assert(eq_vec@ =~= seq!['=']);
        lemma_find_char_bounds(t@, '=');
    }
    let first = match find_sep_exec(&t, &eq_vec) {
        None => None,
        Some(k) => {
            let n = t.len();
            let key = subvec_chars(&t, 0, k);
            let val = subvec_chars(&t, k + 1, n);
            Some((chars_to_string(&key), chars_to_string(&val)))
        },
    };
    let mut rest = cookie_pairs_exec(pieces);
    let ghost rest_view = rest@;
    match first {
        Some(pair) => {
            let ghost pair_view = (pair.0@, pair.1@);
            r.push(pair);
            r.append(&mut rest);
            proof {
                assert(pieces_view.drop_first() =~= pieces_view.subrange(
                    1,
                    pieces_view.len() as int,
                ));
                assert(pairs_view(r@) =~= seq![pair_view]
                    + pairs_view(rest_view));
                assert(pairs_view(r@) =~= cookie_pairs_of(
                    pieces_view,
                ));
            }
        },
        None => {
            r.append(&mut rest);
            proof {
                assert(pieces_view.drop_first() =~= pieces_view.subrange(
                    1,
                    pieces_view.len() as int,
                ));
                assert(pairs_view(r@) =~= cookie_pairs_of(
                    pieces_view,
                ));
            }
        },
    }
    r
}

/// The cookie pairs of a `Cookie` header value.
pub fn parse_cookie_pairs(h: &str) -> (r: Vec<(String, String)>)
    ensures
        pairs_view(r@) == cookie_pairs(h@),
{
    let chars = str_chars(h);
    let pieces = split_all_exec(chars, ';');
    cookie_pairs_exec(pieces)
}

// ------------------------------------------------------------------
// Lookups
// ------------------------------------------------------------------
/// The value of the first pair whose key is `name`.
pub open spec fn pairs_lookup(pairs: Seq<(Seq<char>, Seq<char>)>, name: Seq<char>) -> Option<
    Seq<char>,
>
    decreases pairs.len(),
{
    if pairs.len() == 0 {
        None
    } else if pairs[0].0 == name {
        Some(pairs[0].1)
    } else {
        pairs_lookup(pairs.drop_first(), name)
    }
}

/// Finds the first pair whose key is `name` and returns its value.
pub fn pairs_lookup_exec(pairs: &Vec<(String, String)>, name: &str) -> (r: Option<String>)
    ensures
        match r {
            Some(v) => pairs_lookup(
                pairs_view(pairs@),
                name@,
            ) == Some(v@),
            None => pairs_lookup(
                pairs_view(pairs@),
                name@,
            ) is None,
        },
{
    let ghost pv = pairs_view(pairs@);
    let n = pairs.len();
    proof {
        assert(pv.subrange(0, n as int) =~= pv);
    }
    let mut i: usize = 0;
    while i < n
        invariant
            n == pairs@.len(),
            0 <= i <= n,
            pv == pairs_view(pairs@),
            pairs_lookup(pv, name@) == pairs_lookup(
                pv.subrange(i as int, n as int),
                name@,
            ),
        decreases n - i,
    {
        proof {
            let cur = pv.subrange(i as int, n as int);
            assert(cur[0] == pv[i as int]);
            assert(cur.drop_first() =~= pv.subrange(i + 1, n as int));
        }
        if str_eq(pairs[i].0.as_str(), name) {
            return Some(pairs[i].1.clone());
        }
        i = i + 1;
    }
    proof {
        assert(pv.subrange(n as int, n as int) =~= Seq::<(Seq<char>, Seq<char>)>::empty());
    }
    None
}

/// The value of the first header named `name`, as the header list stores
/// the name.
pub open spec fn header_lookup(headers: Seq<(String, String)>, name: Seq<char>) -> Option<
    Seq<char>,
> {
    pairs_lookup(pairs_view(headers), name)
}

/// Finds the first header named `name`.
pub fn header_lookup_exec(headers: &Vec<(String, String)>, name: &str) -> (r: Option<String>)
    ensures
        match r {
            Some(v) => header_lookup(headers@, name@) == Some(v@),
            None => header_lookup(headers@, name@) is None,
        },
{
    pairs_lookup_exec(headers, name)
}

} // verus!

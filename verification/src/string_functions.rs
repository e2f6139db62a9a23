use vstd::prelude::*;
use vstd::string::StringExecFns;
use crate::value::{EValue, joined, spec_as_str, lemma_joined_push, strs_view};
use crate::strings::{
    splitn_chars, splitn_exec, str_chars, is_numeric, numeral_value, parse_usize,
};

verus! {

/// The first argument as a string: what `string_split` splits.
pub open spec fn split_subject(args: Seq<EValue>) -> Seq<char> {
    if args.len() > 0 {
        spec_as_str(args[0])
    } else {
        Seq::empty()
    }
}

/// The separator: the second argument as a string, a single space when the
/// argument is absent.
pub open spec fn split_separator(args: Seq<EValue>) -> Seq<char> {
    if args.len() > 1 {
        spec_as_str(args[1])
    } else {
        " "@
    }
}

/// The piece limit: the third argument read as a number; all pieces when it
/// is absent or not a number that fits.
pub open spec fn split_limit(args: Seq<EValue>) -> nat {
    if args.len() > 2 && is_numeric(spec_as_str(args[2])) && numeral_value(spec_as_str(args[2]))
        <= usize::MAX {
        numeral_value(spec_as_str(args[2]))
    } else {
        usize::MAX as nat
    }
}

/// `$string_split(string [,sep [,max]])`: the first argument split around
/// the separator into at most `max` pieces, as a list.
pub fn string_split(args: &[EValue]) -> (r: EValue)
    ensures
        r matches EValue::List(items) && strs_view(items@) == splitn_chars(
            split_subject(args@),
            split_separator(args@),
            split_limit(args@),
        ),
{
    let subject = if args.len() > 0 {
        str_chars(args[0].as_str())
    } else {
        let empty: Vec<char> = Vec::new();
        proof {
            assert(empty@ =~= split_subject(args@));
        }
        empty
    };
    let sep = if args.len() > 1 {
        str_chars(args[1].as_str())
    } else {
        str_chars(" ")
    };
    let max: usize = if args.len() > 2 {
        match parse_usize(&str_chars(args[2].as_str())) {
            Some(v) => v,
            None => usize::MAX,
        }
    } else {
        usize::MAX
    };
    proof {
        assert(max as nat == split_limit(args@));
    }
    let items = splitn_exec(subject, &sep, max);
    EValue::List(items)
}

/// The separator for `join`: the second argument as a string, a single
/// space when the argument is absent.
pub open spec fn join_separator(args: Seq<EValue>) -> Seq<char> {
    if args.len() > 1 {
        spec_as_str(args[1])
    } else {
        " "@
    }
}

/// What `join` returns: a list joined with the separator; any other first
/// argument is passed through as a string, and no arguments give the empty
/// string.
pub open spec fn spec_join(args: Seq<EValue>) -> Seq<char> {
    if args.len() == 0 {
        Seq::empty()
    } else {
        match args[0] {
            EValue::List(items) => joined(
                strs_view(items@),
                join_separator(args),
            ),
            v => spec_as_str(v),
        }
    }
}

/// `$join(list [,sep])`: the items of the list joined with the separator.
pub fn join(args: &[EValue]) -> (r: EValue)
    ensures
        r matches EValue::Str(s) && s@ == spec_join(args@),
{
    if args.len() == 0 {
        return EValue::Str(String::new());
    }
    match &args[0] {
        EValue::List(items) => {
            let sep: String = if args.len() > 1 {
                args[1].as_str().to_owned()
            } else {
                " ".to_owned()
            };
            let mut out = String::new();
            let ghost views = strs_view(items@);
            let n = items.len();
            for i in 0..n
                invariant
                    n == items@.len(),
                    views == strs_view(items@),
                    sep@ == join_separator(args@),
                    out@ == joined(views.subrange(0, i as int), sep@),
            {
                proof {
                    lemma_joined_push(views.subrange(0, i as int), sep@, views[i as int]);
                    assert(views.subrange(0, i as int).push(views[i as int]) =~= views.subrange(
                        0,
                        i + 1,
                    ));
                }
                if i > 0 {
                    out.append(sep.as_str());
                }
                out.append(items[i].as_str());
            }
            proof {
                assert(views.subrange(0, views.len() as int) =~= views);
            }
            EValue::Str(out)
        },
        v => EValue::Str(v.as_str().to_owned()),
    }
}

} // verus!

use vstd::prelude::*;
use vstd::string::StrSliceExecFns;
use crate::value::strs_view;

verus! {

// ------------------------------------------------------------------
// Characters and numbers
// ------------------------------------------------------------------
/// Whether `c` is an ASCII decimal digit.
pub open spec fn is_digit(c: char) -> bool {
    48 <= c as int && c as int <= 57
}

/// The numeric value of a digit character.
pub open spec fn digit_val(c: char) -> nat {
    (c as int - 48) as nat
}

/// Whether every character of `s` is a decimal digit.
pub open spec fn all_digits(s: Seq<char>) -> bool {
    forall|i: int| 0 <= i < s.len() ==> is_digit(#[trigger] s[i])
}

/// The value of a digit string read in base ten.
pub open spec fn digits_value(s: Seq<char>) -> nat
    decreases s.len(),
{
    if s.len() == 0 {
        0
    } else {
        digits_value(s.drop_last()) * 10 + digit_val(s.last())
    }
}

/// The digits of a numeral after an optional leading `+` sign.
pub open spec fn numeric_body(s: Seq<char>) -> Seq<char> {
    if s.len() > 0 && s[0] == '+' {
        s.drop_first()
    } else {
        s
    }
}

/// Whether `s` is a well-formed unsigned numeral: at least one digit after
/// an optional leading `+`.
pub open spec fn is_numeric(s: Seq<char>) -> bool {
    numeric_body(s).len() > 0 && all_digits(numeric_body(s))
}

/// The value of a numeral, ignoring any leading `+`.
pub open spec fn numeral_value(s: Seq<char>) -> nat {
    digits_value(numeric_body(s))
}

/// The Unicode code point of `c`.
pub fn char_code(c: char) -> (d: u32)
    ensures
        d as int == c as int,
{
    c as u32
}

/// A longer digit string never has a smaller value.
proof fn lemma_digits_value_mono(s: Seq<char>, n: int)
    requires
        0 <= n <= s.len(),
    ensures
        digits_value(s.subrange(0, n)) <= digits_value(s),
    decreases s.len() - n,
{
    if n < s.len() {
        lemma_digits_value_mono(s, n + 1);
        let t = s.subrange(0, n + 1);
        assert(t.drop_last() =~= s.subrange(0, n));
        assert(digits_value(s.subrange(0, n)) <= digits_value(t));
    } else {
        assert(s.subrange(0, n) =~= s);
    }
}

/// Reads an unsigned number from the characters of `s`, accepting an
/// optional leading `+`; `None` when `s` is not a numeral or its value does
/// not fit in the result type.
pub fn parse_usize(s: &Vec<char>) -> (r: Option<usize>)
    ensures
        match r {
            Some(v) => is_numeric(s@) && v == numeral_value(s@),
            None => !is_numeric(s@) || numeral_value(s@) > usize::MAX,
        },
{
    let n = s.len();
    let start: usize = if n > 0 && s[0] == '+' {
        1
    } else {
        0
    };
    proof {
        assert(numeric_body(s@) =~= s@.subrange(start as int, s@.len() as int));
    }
    if n == start {
        return None;
    }
    let mut acc: usize = 0;
    let mut i: usize = start;
    while i < n
        invariant
            n == s@.len(),
            start <= i <= n,
            start <= 1,
            n > start,
            numeric_body(s@) =~= s@.subrange(start as int, n as int),
            forall|t: int| start <= t < i ==> is_digit(#[trigger] s@[t]),
            acc == digits_value(s@.subrange(start as int, i as int)),
        decreases n - i,
    {
        let c = s[i];
        let d = char_code(c);
        if !(48 <= d && d <= 57) {
            proof {
                let body = numeric_body(s@);
                assert(body[i - start] == s@[i as int]);
                assert(!all_digits(body));
            }
            return None;
        }
        let dv: usize = (d - 48) as usize;
        let ghost prefix = s@.subrange(start as int, i as int);
        let ghost prefix1 = s@.subrange(start as int, i + 1);
        proof {
            assert(c == s@[i as int]);
            assert(is_digit(s@[i as int]));
            assert(prefix1.drop_last() =~= prefix);
            assert(prefix1.last() == s@[i as int]);
            assert(digits_value(prefix1) == digits_value(prefix) * 10 + digit_val(s@[i as int]));
            assert(digit_val(s@[i as int]) == dv);
        }
        let limit: usize = (usize::MAX - dv) / 10;
        if acc > limit {
            proof {
                assert(acc * 10 + dv > usize::MAX) by (nonlinear_arith)
                    requires
                        acc > (usize::MAX - dv) / 10,
                        dv < 10,
                ;
                let body = numeric_body(s@);
                assert(prefix1 =~= body.subrange(0, i + 1 - start));
                lemma_digits_value_mono(body, i + 1 - start);
                assert(numeral_value(s@) > usize::MAX);
            }
            return None;
        }
        proof {
            assert(acc * 10 + dv <= usize::MAX) by (nonlinear_arith)
                requires
                    acc <= (usize::MAX - dv) / 10,
                    dv < 10,
            ;
        }
        acc = acc * 10 + dv;
        i = i + 1;
    }
    proof {
        let body = numeric_body(s@);
        assert(body =~= s@.subrange(start as int, n as int));
        assert forall|t: int| 0 <= t < body.len() implies is_digit(#[trigger] body[t]) by {
            assert(body[t] == s@[start + t]);
        }
        assert(is_numeric(s@));
    }
    Some(acc)
}

/// `parse_usize` for 32-bit results.
pub fn parse_u32(s: &Vec<char>) -> (r: Option<u32>)
    ensures
        match r {
            Some(v) => is_numeric(s@) && v == numeral_value(s@),
            None => !is_numeric(s@) || numeral_value(s@) > u32::MAX,
        },
{
    match parse_usize(s) {
        Some(v) => if v <= u32::MAX as usize {
            Some(v as u32)
        } else {
            None
        },
        None => None,
    }
}

/// The decimal digit character of a value below ten.
pub open spec fn digit_char(d: nat) -> char {
    (48 + d) as char
}

/// The decimal form of a number: base-ten digits, no sign or padding.
pub open spec fn dec_str(n: nat) -> Seq<char>
    decreases n,
{
    if n < 10 {
        seq![digit_char(n)]
    } else {
        dec_str(n / 10).push(digit_char(n % 10))
    }
}

/// The decimal digits of `n`, most significant first.
fn dec_chars(n: u32) -> (r: Vec<char>)
    ensures
        r@ == dec_str(n as nat),
    decreases n,
{
    if n < 10 {
        let c = (48 + n as u8) as char;
        proof {
            assert(c == digit_char(n as nat));
        }
        let mut r: Vec<char> = Vec::new();
        r.push(c);
        proof {
            assert(r@ =~= dec_str(n as nat));
        }
        r
    } else {
        let mut r = dec_chars(n / 10);
        let c = (48 + (n % 10) as u8) as char;
        proof {
            assert(c == digit_char((n % 10) as nat));
        }
        r.push(c);
        r
    }
}

/// The decimal form of `n`: base-ten digits, no sign or padding.
pub fn u32_to_string(n: u32) -> (r: String)
    ensures
        r@ == dec_str(n as nat),
{
    let digits = dec_chars(n);
    chars_to_string(&digits)
}

// ------------------------------------------------------------------
// Substring search
// ------------------------------------------------------------------
/// Whether `sep` occurs in `s` starting at position `k`.
pub open spec fn match_at(s: Seq<char>, sep: Seq<char>, k: int) -> bool {
    0 <= k && k + sep.len() <= s.len() && s.subrange(k, k + sep.len() as int) == sep
}

/// The least position at which `sep` occurs in `s`, if any.
pub open spec fn find_sep(s: Seq<char>, sep: Seq<char>) -> Option<int>
    decreases s.len(),
{
    if match_at(s, sep, 0) {
        Some(0)
    } else if s.len() == 0 {
        None
    } else {
        match find_sep(s.drop_first(), sep) {
            None => None,
            Some(k) => Some(k + 1),
        }
    }
}

/// An occurrence in the tail of `s` is an occurrence in `s`, one position on.
proof fn lemma_match_at_shift(s: Seq<char>, sep: Seq<char>, k: int)
    requires
        s.len() > 0,
        0 <= k,
    ensures
        match_at(s.drop_first(), sep, k) == match_at(s, sep, k + 1),
{
    if k + 1 + sep.len() <= s.len() {
        assert(s.drop_first().subrange(k, k + sep.len() as int) =~= s.subrange(
            k + 1,
            k + 1 + sep.len() as int,
        ));
    }
}

/// `find_sep` returns the least occurrence of `sep`, or `None` when there is
/// no occurrence at all.
proof fn lemma_find_sep_least(s: Seq<char>, sep: Seq<char>)
    ensures
        match find_sep(s, sep) {
            Some(k) => match_at(s, sep, k) && forall|j: int| 0 <= j < k ==> !match_at(s, sep, j),
            None => forall|j: int| !match_at(s, sep, j),
        },
    decreases s.len(),
{
    if !match_at(s, sep, 0) && s.len() > 0 {
        lemma_find_sep_least(s.drop_first(), sep);
        assert forall|j: int| 0 <= j implies match_at(s, sep, j + 1) == match_at(
            s.drop_first(),
            sep,
            j,
        ) by {
            lemma_match_at_shift(s, sep, j);
        }
        match find_sep(s.drop_first(), sep) {
            None => {
                assert forall|j: int| !match_at(s, sep, j) implies true by {
                }
                assert forall|j: int| 0 <= j implies !#[trigger] match_at(s, sep, j) by {
                    if j > 0 {
                        assert(!match_at(s.drop_first(), sep, j - 1));
                        assert(match_at(s, sep, j) == match_at(s.drop_first(), sep, j - 1));
                    }
                }
            },
            Some(k) => {
                assert(match_at(s.drop_first(), sep, k));
                assert(match_at(s, sep, k + 1));
                assert forall|j: int| 0 <= j < k + 1 implies !#[trigger] match_at(s, sep, j) by {
                    if j > 0 {
                        assert(!match_at(s.drop_first(), sep, j - 1));
                        assert(match_at(s, sep, j) == match_at(s.drop_first(), sep, j - 1));
                    }
                }
            },
        }
    }
}

/// Whether `sep` occurs in `s` at position `k`, by direct comparison.
fn match_at_exec(s: &Vec<char>, sep: &Vec<char>, k: usize) -> (b: bool)
    requires
        k + sep@.len() <= s@.len(),
    ensures
        b == match_at(s@, sep@, k as int),
{
    let n = s.len();
    let m = sep.len();
    let mut j: usize = 0;
    while j < m
        invariant
            n == s@.len(),
            m == sep@.len(),
            k + m <= n,
            0 <= j <= m,
            forall|t: int| 0 <= t < j ==> s@[k + t] == sep@[t],
        decreases m - j,
    {
        if s[k + j] != sep[j] {
            proof {
                assert(s@.subrange(k as int, k + sep@.len() as int)[j as int] == s@[k + j]);
            }
            return false;
        }
        j = j + 1;
    }
    proof {
        assert(s@.subrange(k as int, k + sep@.len() as int) =~= sep@);
    }
    true
}

/// The least position at which `sep` occurs in `s`, scanning left to right.
pub fn find_sep_exec(s: &Vec<char>, sep: &Vec<char>) -> (r: Option<usize>)
    ensures
        match r {
            Some(k) => find_sep(s@, sep@) == Some(k as int) && match_at(s@, sep@, k as int),
            None => find_sep(s@, sep@) is None,
        },
{
    proof {
        lemma_find_sep_least(s@, sep@);
    }
    let n = s.len();
    let m = sep.len();
    if m == 0 {
        proof {
            assert(s@.subrange(0, 0) =~= sep@);
            assert(match_at(s@, sep@, 0));
        }
        return Some(0);
    }
    if m > n {
        return None;
    }
    let mut k: usize = 0;
    while k <= n - m
        invariant
            n == s@.len(),
            m == sep@.len(),
            1 <= m <= n,
            0 <= k <= n - m + 1,
            forall|j: int| 0 <= j < k ==> !match_at(s@, sep@, j),
        decreases n - m + 1 - k,
    {
        if match_at_exec(s, sep, k) {
            proof {
                lemma_find_sep_least(s@, sep@);
            }
            return Some(k);
        }
        k = k + 1;
    }
    None
}

// ------------------------------------------------------------------
// Splitting
// ------------------------------------------------------------------
/// `s` split at each character boundary after the first, for an empty
/// separator: one piece per character, with the remainder as the last piece
/// once the budget `n` runs out.
pub open spec fn split_empty_rest(s: Seq<char>, n: nat) -> Seq<Seq<char>>
    decreases n,
{
    if n <= 1 || s.len() == 0 {
        seq![s]
    } else {
        seq![s.subrange(0, 1)] + split_empty_rest(s.drop_first(), (n - 1) as nat)
    }
}

/// `s` split around occurrences of `sep` into at most `n` pieces, the last
/// piece holding the unsplit remainder; an empty separator matches at every
/// character boundary, including the start and the end.
pub open spec fn splitn_chars(s: Seq<char>, sep: Seq<char>, n: nat) -> Seq<Seq<char>>
    decreases n,
{
    if n == 0 {
        seq![]
    } else if n == 1 {
        seq![s]
    } else if sep.len() == 0 {
        seq![Seq::<char>::empty()] + split_empty_rest(s, (n - 1) as nat)
    } else {
        match find_sep(s, sep) {
            None => seq![s],
            Some(k) => seq![s.subrange(0, k)] + splitn_chars(
                s.subrange(k + sep.len() as int, s.len() as int),
                sep,
                (n - 1) as nat,
            ),
        }
    }
}

/// Turns the characters of `s` back into a `String`.
///
/// Relies on `String`'s `FromIterator` impl: collecting characters yields
/// the string of exactly those characters in order.
#[verifier::external_body]
pub fn chars_to_string(s: &Vec<char>) -> (r: String)
    ensures
        r@ == s@,
{
    s.iter().collect()
}

/// The characters of `s`, one vector element per character.
pub fn str_chars(s: &str) -> (r: Vec<char>)
    ensures
        r@ == s@,
{
    let n = s.unicode_len();
    let mut r: Vec<char> = Vec::new();
    let mut i: usize = 0;
    while i < n
        invariant
            n == s@.len(),
            0 <= i <= n,
            r@ =~= s@.subrange(0, i as int),
        decreases n - i,
    {
        r.push(s.get_char(i));
        i = i + 1;
    }
    proof {
        assert(s@.subrange(0, s@.len() as int) =~= s@);
    }
    r
}

/// Whether two strings hold the same characters.
pub fn str_eq(a: &str, b: &str) -> (r: bool)
    ensures
        r == (a@ == b@),
{
    let n = a.unicode_len();
    let m = b.unicode_len();
    if n != m {
        return false;
    }
    let mut i: usize = 0;
    while i < n
        invariant
            n == a@.len(),
            n == b@.len(),
            0 <= i <= n,
            forall|t: int| 0 <= t < i ==> a@[t] == b@[t],
        decreases n - i,
    {
        if a.get_char(i) != b.get_char(i) {
            return false;
        }
        i = i + 1;
    }
    proof {
        assert(a@ =~= b@);
    }
    true
}

/// The piece of `s` from `from` (inclusive) to `to` (exclusive).
pub fn subvec_chars(s: &Vec<char>, from: usize, to: usize) -> (r: Vec<char>)
    requires
        from <= to <= s@.len(),
    ensures
        r@ == s@.subrange(from as int, to as int),
{
    let mut r: Vec<char> = Vec::new();
    let mut i: usize = from;
    while i < to
        invariant
            from <= i <= to <= s@.len(),
            r@ =~= s@.subrange(from as int, i as int),
        decreases to - i,
    {
        r.push(s[i]);
        i = i + 1;
    }
    proof {
        assert(r@ =~= s@.subrange(from as int, to as int));
    }
    r
}

/// The empty-separator splitting: one piece per character boundary while the
/// budget lasts.
fn split_empty_exec(s: Vec<char>, budget: usize) -> (r: Vec<String>)
    ensures
        strs_view(r@) == split_empty_rest(s@, budget as nat),
    decreases budget,
{
    if budget <= 1 || s.len() == 0 {
        let mut r: Vec<String> = Vec::new();
        r.push(chars_to_string(&s));
        proof {
            assert(strs_view(r@) =~= seq![s@]);
        }
        r
    } else {
        let head = subvec_chars(&s, 0, 1);
        let tail = subvec_chars(&s, 1, s.len());
        let mut r: Vec<String> = Vec::new();
        r.push(chars_to_string(&head));
        let mut rest = split_empty_exec(tail, budget - 1);
        let ghost rest_view = rest@;
        r.append(&mut rest);
        proof {
            assert(tail@ =~= s@.drop_first());
            assert(strs_view(r@) =~= seq![s@.subrange(0, 1)] + strs_view(rest_view));
            assert(strs_view(r@) =~= split_empty_rest(s@, budget as nat));
        }
        r
    }
}

/// `s` split around `sep` into at most `max` pieces, as strings.
pub fn splitn_exec(s: Vec<char>, sep: &Vec<char>, max: usize) -> (r: Vec<String>)
    ensures
        strs_view(r@) == splitn_chars(s@, sep@, max as nat),
    decreases max,
{
    let mut r: Vec<String> = Vec::new();
    if max == 0 {
        proof {
            assert(strs_view(r@) =~= splitn_chars(s@, sep@, 0));
        }
        return r;
    }
    if max == 1 {
        r.push(chars_to_string(&s));
        proof {
            assert(strs_view(r@) =~= splitn_chars(s@, sep@, 1));
        }
        return r;
    }
    if sep.len() == 0 {
        r.push(String::new());
        let mut rest = split_empty_exec(s, max - 1);
        let ghost s_view = rest@;
        r.append(&mut rest);
        proof {
            assert(strs_view(r@) =~= seq![Seq::<char>::empty()]
                + strs_view(s_view));
        }
        return r;
    }
    match find_sep_exec(&s, sep) {
        None => {
            r.push(chars_to_string(&s));
            proof {
                assert(strs_view(r@) =~= splitn_chars(s@, sep@, max as nat));
            }
            r
        },
        Some(k) => {
            let n = s.len();
            let head = subvec_chars(&s, 0, k);
            let tail = subvec_chars(&s, k + sep.len(), n);
            r.push(chars_to_string(&head));
            let mut rest = splitn_exec(tail, sep, max - 1);
            let ghost rest_view = rest@;
            r.append(&mut rest);
            proof {
                assert(strs_view(r@) =~= seq![s@.subrange(0, k as int)]
                    + rest_view.map_values(|t: String| t@));
                assert(strs_view(r@) =~= splitn_chars(s@, sep@, max as nat));
            }
            r
        },
    }
}

} // verus!

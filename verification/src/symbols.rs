use vstd::prelude::*;
use crate::strings::{chars_to_string, subvec_chars, str_eq, is_numeric, numeral_value, u32_to_string, dec_str};
use crate::value::{EValue, joined, strs_view, pairs_view};
use crate::context::{RequestContext, header_lookup, header_lookup_exec, pairs_lookup, pairs_lookup_exec, cookie_pairs, query_pairs, parse_cookie_pairs, parse_query_pairs};
use crate::strings::splitn_chars;

verus! {

/// One parsed piece of an ESI expression: a `$name(args)` call, a
/// `$(NAME{key}|default)` variable, or literal text (`None` for an empty
/// run).
#[derive(Debug)]
pub enum Symbol {
    Function { name: String, args: Vec<Symbol> },
    Variable { name: String, key: Option<String>, default: Option<Box<Symbol>> },
    Text(Option<String>),
}

/// The mathematical value of a symbol: views in place of strings.
pub enum SymM {
    MFn { name: Seq<char>, args: Seq<SymM> },
    MVar { name: Seq<char>, key: Option<Seq<char>>, default: Option<Box<SymM>> },
    MText(Option<Seq<char>>),
}

/// The model of a symbol.
pub open spec fn sym_view(s: Symbol) -> SymM
    decreases s,
{
    match s {
        Symbol::Function { name, args } => SymM::MFn { name: name@, args: syms_view(args@) },
        Symbol::Variable { name, key, default } => SymM::MVar {
            name: name@,
            key: match key {
                Some(k) => Some(k@),
                None => None,
            },
            default: match default {
                Some(b) => Some(Box::new(sym_view(*b))),
                None => None,
            },
        },
        Symbol::Text(t) => SymM::MText(
            match t {
                Some(x) => Some(x@),
                None => None,
            },
        ),
    }
}

/// The models of a symbol list.
pub open spec fn syms_view(q: Seq<Symbol>) -> Seq<SymM>
    decreases q,
{
    if q.len() == 0 {
        Seq::empty()
    } else {
        syms_view(q.drop_last()).push(sym_view(q.last()))
    }
}

/// Symbol models line up with symbols, one to one.
pub proof fn lemma_syms_view(q: Seq<Symbol>)
    ensures
        syms_view(q).len() == q.len(),
        forall|i: int| 0 <= i < q.len() ==> #[trigger] syms_view(q)[i] == sym_view(q[i]),
    decreases q.len(),
{
    if q.len() > 0 {
        lemma_syms_view(q.drop_last());
    }
}

/// Appending one symbol appends its model.
pub proof fn lemma_syms_view_push(q: Seq<Symbol>, x: Symbol)
    ensures
        syms_view(q.push(x)) == syms_view(q).push(sym_view(x)),
{
    assert(q.push(x).drop_last() =~= q);
    assert(q.push(x).last() == x);
}

/// The model of an optional boxed default.
pub open spec fn opt_sym_view(d: Option<Box<Symbol>>) -> Option<Box<SymM>> {
    match d {
        Some(b) => Some(Box::new(sym_view(*b))),
        None => None,
    }
}

// ------------------------------------------------------------------
// Character classes of the expression grammar
// ------------------------------------------------------------------
/// The character classes the expression tokenizer scans over.
#[derive(Debug, Clone, Copy)]
pub enum CharClass {
    /// Function names: lower-case letters, digits, underscore.
    FnName,
    /// Variable names: upper-case letters, digits, underscore.
    VarName,
    /// Text at the top level: anything but `$ ' ( ) { } ,`.
    Text,
    /// Text inside argument lists: as `Text`, and no whitespace.
    FnText,
    /// Variable keys: anything but `$ { } , "`.
    VarKey,
    /// Inside single quotes: ASCII other than the quote itself.
    Quoted,
    /// ASCII whitespace.
    Space,
}

/// Whether `c` belongs to the class `k`.
pub open spec fn in_class(k: CharClass, c: char) -> bool {
    match k {
        CharClass::FnName => (97 <= c as int && c as int <= 122) || (48 <= c as int && c as int
            <= 57) || c == '_',
        CharClass::VarName => (65 <= c as int && c as int <= 90) || (48 <= c as int && c as int
            <= 57) || c == '_',
        CharClass::Text => !(c == '$' || c == '\'' || c == '(' || c == ')' || c == '{' || c == '}'
            || c == ','),
        CharClass::FnText => !(c == '$' || c == '\'' || c == '(' || c == ')' || c == '{' || c == '}'
            || c == ',' || c == ' ' || c == '\t' || c == '\r' || c == '\n'),
        CharClass::VarKey => !(c == '$' || c == '{' || c == '}' || c == ',' || c == '"'),
        CharClass::Quoted => c != '\'' && (c as int) < 128,
        CharClass::Space => c == ' ' || c == '\t' || c == '\r' || c == '\n',
    }
}

/// Whether `c` belongs to the class `k`.
fn class_member(k: CharClass, c: char) -> (b: bool)
    ensures
        b == in_class(k, c),
{
    let d = crate::strings::char_code(c);
    match k {
        CharClass::FnName => (97 <= d && d <= 122) || (48 <= d && d <= 57) || c == '_',
        CharClass::VarName => (65 <= d && d <= 90) || (48 <= d && d <= 57) || c == '_',
        CharClass::Text => !(c == '$' || c == '\'' || c == '(' || c == ')' || c == '{' || c == '}'
            || c == ','),
        CharClass::FnText => !(c == '$' || c == '\'' || c == '(' || c == ')' || c == '{' || c == '}'
            || c == ',' || c == ' ' || c == '\t' || c == '\r' || c == '\n'),
        CharClass::VarKey => !(c == '$' || c == '{' || c == '}' || c == ',' || c == '"'),
        CharClass::Quoted => c != '\'' && d < 128,
        CharClass::Space => c == ' ' || c == '\t' || c == '\r' || c == '\n',
    }
}

/// The end of the run of class-`k` characters that starts at `pos`.
pub open spec fn class_end(s: Seq<char>, pos: int, k: CharClass) -> int
    decreases s.len() - pos,
{
    if pos < 0 || pos >= s.len() {
        s.len() as int
    } else if in_class(k, s[pos]) {
        class_end(s, pos + 1, k)
    } else {
        pos
    }
}

/// The end of the run of class-`k` characters that starts at `pos`.
fn scan_while(s: &Vec<char>, pos: usize, k: CharClass) -> (end: usize)
    requires
        pos <= s@.len(),
    ensures
        pos <= end <= s@.len(),
        forall|t: int| pos <= t < end ==> in_class(k, #[trigger] s@[t]),
        end < s@.len() ==> !in_class(k, s@[end as int]),
        end == class_end(s@, pos as int, k),
{
    let n = s.len();
    let mut end: usize = pos;
    while end < n && class_member(k, s[end])
        invariant
            n == s@.len(),
            pos <= end <= n,
            forall|t: int| pos <= t < end ==> in_class(k, #[trigger] s@[t]),
            class_end(s@, pos as int, k) == class_end(s@, end as int, k),
        decreases n - end,
    {
        end = end + 1;
    }
    end
}

// ------------------------------------------------------------------
// The meaning of the expression parser
// ------------------------------------------------------------------
/// What reading a quoted run at `pos` yields: the characters between the
/// quotes and the position just past the closing quote.
pub open spec fn spec_parse_quoted(s: Seq<char>, pos: int) -> Option<(Seq<char>, int)> {
    if 0 <= pos && pos < s.len() && s[pos] == '\'' {
        let end = class_end(s, pos + 1, CharClass::Quoted);
        if end < s.len() && s[end] == '\'' {
            Some((s.subrange(pos + 1, end), end + 1))
        } else {
            None
        }
    } else {
        None
    }
}

/// What reading a `$name` at `pos` yields: the name and the position just
/// past it.
pub open spec fn spec_parse_fn_name(s: Seq<char>, pos: int) -> Option<(Seq<char>, int)> {
    if 0 <= pos && pos < s.len() && s[pos] == '$' {
        let end = class_end(s, pos + 1, CharClass::FnName);
        if end > pos + 1 {
            Some((s.subrange(pos + 1, end), end))
        } else {
            None
        }
    } else {
        None
    }
}

/// What reading top-level text at `pos` yields: a quoted run, or the run
/// of plain characters.
pub open spec fn spec_parse_text(s: Seq<char>, pos: int) -> (Seq<char>, int) {
    match spec_parse_quoted(s, pos) {
        Some(r) => r,
        None => {
            let end = class_end(s, pos, CharClass::Text);
            (s.subrange(pos, end), end)
        },
    }
}

/// What reading argument text at `pos` yields: as `spec_parse_text`, but
/// stopping at whitespace.
pub open spec fn spec_parse_fn_text(s: Seq<char>, pos: int) -> (Seq<char>, int) {
    match spec_parse_quoted(s, pos) {
        Some(r) => r,
        None => {
            let end = class_end(s, pos, CharClass::FnText);
            (s.subrange(pos, end), end)
        },
    }
}

/// What reading a variable key at `pos` yields.
pub open spec fn spec_parse_var_key(s: Seq<char>, pos: int) -> (Seq<char>, int) {
    match spec_parse_quoted(s, pos) {
        Some(r) => r,
        None => {
            let end = class_end(s, pos, CharClass::VarKey);
            (s.subrange(pos, end), end)
        },
    }
}

/// What reading a `$(NAME{key}|default)` reference at `pos` yields. The
/// position guards before the recursion always hold of the parser's
/// positions and only serve termination.
pub open spec fn spec_parse_variable(s: Seq<char>, pos: int) -> Option<(SymM, int)>
    decreases s.len() - pos, 1nat,
{
    if !(0 <= pos && pos < s.len() && pos + 1 < s.len() && s[pos] == '$' && s[pos + 1] == '(') {
        None
    } else {
        let name_end = class_end(s, pos + 2, CharClass::VarName);
        if name_end == pos + 2 {
            None
        } else {
            let name = s.subrange(pos + 2, name_end);
            let kc = if name_end < s.len() && s[name_end] == '{' {
                let (k, kp) = spec_parse_var_key(s, name_end + 1);
                if kp < s.len() && s[kp] == '}' {
                    (Some(k), kp + 1)
                } else {
                    (None, name_end)
                }
            } else {
                (None, name_end)
            };
            let dc: (Option<Box<SymM>>, int) = if kc.1 < s.len() && s[kc.1] == '|' && pos < kc.1
                + 1 {
                let (d, dp) = spec_parse_nested(s, kc.1 + 1);
                (Some(Box::new(d)), dp)
            } else {
                (None, kc.1)
            };
            if dc.1 < s.len() && s[dc.1] == ')' {
                Some((SymM::MVar { name, key: kc.0, default: dc.0 }, dc.1 + 1))
            } else {
                None
            }
        }
    }
}

/// What reading a `$name( … )` call at `pos` yields.
pub open spec fn spec_parse_function(s: Seq<char>, pos: int) -> Option<(SymM, int)>
    decreases s.len() - pos, 2nat,
{
    match spec_parse_fn_name(s, pos) {
        None => None,
        Some((name, p)) => {
            if !(p < s.len() && s[p] == '(') {
                None
            } else {
                let after_ws = class_end(s, p + 1, CharClass::Space);
                if pos < after_ws && after_ws <= s.len() {
                    let (args, q) = spec_parse_args(s, after_ws);
                    let close = class_end(s, q, CharClass::Space);
                    if close < s.len() && s[close] == ')' {
                        Some((SymM::MFn { name, args }, close + 1))
                    } else {
                        None
                    }
                } else {
                    None
                }
            }
        },
    }
}

/// What reading one argument at `pos` yields: a call, a variable, or
/// argument text, an empty run standing for empty text.
pub open spec fn spec_parse_nested(s: Seq<char>, pos: int) -> (SymM, int)
    decreases s.len() - pos, 3nat,
{
    match spec_parse_function(s, pos) {
        Some(r) => r,
        None => match spec_parse_variable(s, pos) {
            Some(r) => r,
            None => {
                let (text, p) = spec_parse_fn_text(s, pos);
                if text.len() == 0 {
                    (SymM::MText(None), p)
                } else {
                    (SymM::MText(Some(text)), p)
                }
            },
        },
    }
}

/// What reading the rest of a comma-separated argument list yields, the
/// arguments read so far in `acc`.
pub open spec fn spec_parse_args_more(s: Seq<char>, cur: int, acc: Seq<SymM>) -> (Seq<SymM>, int)
    decreases s.len() - cur, 4nat,
{
    let ws = class_end(s, cur, CharClass::Space);
    if !(ws < s.len() && s[ws] == ',') {
        (acc, cur)
    } else {
        let after = class_end(s, ws + 1, CharClass::Space);
        if cur < after && after <= s.len() {
            let (next, p2) = spec_parse_nested(s, after);
            if cur < p2 && p2 <= s.len() {
                spec_parse_args_more(s, p2, acc.push(next))
            } else {
                (acc.push(next), p2)
            }
        } else {
            (acc, cur)
        }
    }
}

/// What reading a whole argument list at `pos` yields; a single empty text
/// argument means an empty list.
pub open spec fn spec_parse_args(s: Seq<char>, pos: int) -> (Seq<SymM>, int)
    decreases s.len() - pos, 5nat,
{
    let (first, cur) = spec_parse_nested(s, pos);
    if pos <= cur && cur <= s.len() {
        let (items, fin) = spec_parse_args_more(s, cur, seq![first]);
        let items2 = if items.len() == 1 && items[0] == SymM::MText(None::<Seq<char>>) {
            Seq::<SymM>::empty()
        } else {
            items
        };
        (items2, fin)
    } else {
        (seq![first], cur)
    }
}

/// What reading one top-level symbol at `pos` yields: a call, a variable,
/// or top-level text, an empty run standing for empty text.
pub open spec fn spec_parse_symbol(s: Seq<char>, pos: int) -> (SymM, int)
    decreases s.len() - pos, 3nat,
{
    match spec_parse_function(s, pos) {
        Some(r) => r,
        None => match spec_parse_variable(s, pos) {
            Some(r) => r,
            None => {
                let (text, p) = spec_parse_text(s, pos);
                if text.len() == 0 {
                    (SymM::MText(None), p)
                } else {
                    (SymM::MText(Some(text)), p)
                }
            },
        },
    }
}

/// What splitting a whole expression into symbols yields, those read so
/// far in `acc`: the symbols in order, and the position the parse stopped
/// at — the length when the whole input was understood, and the point of
/// no progress otherwise.
pub open spec fn spec_tokenize(s: Seq<char>, pos: int, acc: Seq<SymM>) -> (Seq<SymM>, int)
    decreases s.len() - pos,
{
    if !(0 <= pos && pos < s.len()) {
        (acc, pos)
    } else {
        let (sym, p) = spec_parse_symbol(s, pos);
        if p == pos {
            (acc.push(sym), pos)
        } else if pos < p && p <= s.len() {
            spec_tokenize(s, p, acc.push(sym))
        } else {
            (acc.push(sym), pos)
        }
    }
}

// ------------------------------------------------------------------
// The recursive-descent parser
// ------------------------------------------------------------------
/// A quoted run: `'…'` with ASCII contents; the quotes are consumed and
/// dropped.
pub fn parse_quoted(s: &Vec<char>, pos: usize) -> (r: Option<(String, usize)>)
    requires
        pos <= s@.len(),
    ensures
        r matches Some((_, p)) ==> pos < p <= s@.len(),
        match r {
            Some((t, p)) => spec_parse_quoted(s@, pos as int) == Some((t@, p as int)),
            None => spec_parse_quoted(s@, pos as int) is None,
        },
{
    if pos < s.len() && s[pos] == '\'' {
        let end = scan_while(s, pos + 1, CharClass::Quoted);
        if end < s.len() && s[end] == '\'' {
            let inner = subvec_chars(s, pos + 1, end);
            Some((chars_to_string(&inner), end + 1))
        } else {
            None
        }
    } else {
        None
    }
}

/// A function name: `$` followed by at least one lower-case letter, digit
/// or underscore.
pub fn parse_fn_name(s: &Vec<char>, pos: usize) -> (r: Option<(String, usize)>)
    requires
        pos <= s@.len(),
    ensures
        r matches Some((name, p)) ==> pos + 1 < p <= s@.len() && name@ == s@.subrange(
            pos + 1,
            p as int,
        ),
        match r {
            Some((name, p)) => spec_parse_fn_name(s@, pos as int) == Some((name@, p as int)),
            None => spec_parse_fn_name(s@, pos as int) is None,
        },
{
    if pos < s.len() && s[pos] == '$' {
        let end = scan_while(s, pos + 1, CharClass::FnName);
        if end > pos + 1 {
            let name = subvec_chars(s, pos + 1, end);
            Some((chars_to_string(&name), end))
        } else {
            None
        }
    } else {
        None
    }
}

/// Text at the top level: a quoted run, or a run of plain characters;
/// empty runs give `None` inside the returned pair's symbol text.
pub fn parse_text(s: &Vec<char>, pos: usize) -> (r: (String, usize))
    requires
        pos <= s@.len(),
    ensures
        pos <= r.1 <= s@.len(),
        spec_parse_text(s@, pos as int) == (r.0@, r.1 as int),
{
    match parse_quoted(s, pos) {
        Some((text, p)) => (text, p),
        None => {
            let end = scan_while(s, pos, CharClass::Text);
            let inner = subvec_chars(s, pos, end);
            (chars_to_string(&inner), end)
        },
    }
}

/// Text inside a function argument list: as `parse_text`, but stopping at
/// whitespace.
pub fn parse_fn_text(s: &Vec<char>, pos: usize) -> (r: (String, usize))
    requires
        pos <= s@.len(),
    ensures
        pos <= r.1 <= s@.len(),
        spec_parse_fn_text(s@, pos as int) == (r.0@, r.1 as int),
{
    match parse_quoted(s, pos) {
        Some((text, p)) => (text, p),
        None => {
            let end = scan_while(s, pos, CharClass::FnText);
            let inner = subvec_chars(s, pos, end);
            (chars_to_string(&inner), end)
        },
    }
}

/// A variable key between braces: a quoted run, or a run of key
/// characters.
pub fn parse_var_key(s: &Vec<char>, pos: usize) -> (r: (String, usize))
    requires
        pos <= s@.len(),
    ensures
        pos <= r.1 <= s@.len(),
        spec_parse_var_key(s@, pos as int) == (r.0@, r.1 as int),
{
    match parse_quoted(s, pos) {
        Some((text, p)) => (text, p),
        None => {
            let end = scan_while(s, pos, CharClass::VarKey);
            let inner = subvec_chars(s, pos, end);
            (chars_to_string(&inner), end)
        },
    }
}

/// A `$(NAME{key}|default)` variable reference.
pub fn parse_variable(s: &Vec<char>, pos: usize) -> (r: Option<(Symbol, usize)>)
    requires
        pos <= s@.len(),
    ensures
        r matches Some((_, p)) ==> pos < p <= s@.len(),
        match r {
            Some((sym, p)) => spec_parse_variable(s@, pos as int) == Some(
                (sym_view(sym), p as int),
            ),
            None => spec_parse_variable(s@, pos as int) is None,
        },
    decreases s@.len() - pos, 1nat,
{
    let n = s.len();
    if !(pos < n && pos + 1 < n && s[pos] == '$' && s[pos + 1] == '(') {
        return None;
    }
    let name_end = scan_while(s, pos + 2, CharClass::VarName);
    if name_end == pos + 2 {
        return None;
    }
    let name_chars = subvec_chars(s, pos + 2, name_end);
    let name = chars_to_string(&name_chars);
    let mut cur = name_end;
    let mut key: Option<String> = None;
    if cur < s.len() && s[cur] == '{' {
        let (k, kp) = parse_var_key(s, cur + 1);
        if kp < s.len() && s[kp] == '}' {
            key = Some(k);
            cur = kp + 1;
        }
    }
    let mut default: Option<Box<Symbol>> = None;
    if cur < s.len() && s[cur] == '|' {
        let (d, dp) = parse_fn_nested_argument(s, cur + 1);
        default = Some(Box::new(d));
        cur = dp;
    }
    if cur < s.len() && s[cur] == ')' {
        Some((Symbol::Variable { name, key, default }, cur + 1))
    } else {
        None
    }
}

/// A `$name( … )` function call.
pub fn parse_function(s: &Vec<char>, pos: usize) -> (r: Option<(Symbol, usize)>)
    requires
        pos <= s@.len(),
    ensures
        r matches Some((_, p)) ==> pos < p <= s@.len(),
        match r {
            Some((sym, p)) => spec_parse_function(s@, pos as int) == Some(
                (sym_view(sym), p as int),
            ),
            None => spec_parse_function(s@, pos as int) is None,
        },
    decreases s@.len() - pos, 2nat,
{
    match parse_fn_name(s, pos) {
        None => None,
        Some((name, p)) => {
            if !(p < s.len() && s[p] == '(') {
                return None;
            }
            let after_ws = scan_while(s, p + 1, CharClass::Space);
            let (args, q) = parse_fn_argument(s, after_ws);
            let close = scan_while(s, q, CharClass::Space);
            if close < s.len() && s[close] == ')' {
                Some((Symbol::Function { name, args }, close + 1))
            } else {
                None
            }
        },
    }
}

/// A comma-separated argument list; a single empty text argument means an
/// empty list.
fn parse_fn_argument(s: &Vec<char>, pos: usize) -> (r: (Vec<Symbol>, usize))
    requires
        pos <= s@.len(),
    ensures
        pos <= r.1 <= s@.len(),
        spec_parse_args(s@, pos as int) == (syms_view(r.0@), r.1 as int),
    decreases s@.len() - pos, 4nat,
{
    let (first, mut cur) = parse_fn_nested_argument(s, pos);
    let ghost cur0 = cur as int;
    let mut items: Vec<Symbol> = Vec::new();
    items.push(first);
    proof {
        assert(items@.len() == 1);
        assert(items@.drop_last() =~= Seq::<Symbol>::empty());
        assert(syms_view(Seq::<Symbol>::empty()) == Seq::<SymM>::empty());
        assert(items@.last() == first);
        assert(syms_view(items@) == syms_view(items@.drop_last()).push(sym_view(items@.last())));
        assert(syms_view(items@) =~= seq![sym_view(first)]);
    }
    loop
        invariant
            pos <= cur <= s@.len(),
            cur0 <= cur as int,
            spec_parse_args_more(s@, cur0, seq![sym_view(first)]) == spec_parse_args_more(
                s@,
                cur as int,
                syms_view(items@),
            ),
        ensures
            pos <= cur <= s@.len(),
            spec_parse_args_more(s@, cur0, seq![sym_view(first)]) == (
                syms_view(items@),
                cur as int,
            ),
        decreases s@.len() - cur,
    {
        let ws = scan_while(s, cur, CharClass::Space);
        if !(ws < s.len() && s[ws] == ',') {
            break;
        }
        let after = scan_while(s, ws + 1, CharClass::Space);
        let (next, p2) = parse_fn_nested_argument(s, after);
        proof {
            lemma_syms_view_push(items@, next);
        }
        items.push(next);
        cur = p2;
    }
    if items.len() == 1 && matches!(items[0], Symbol::Text(None)) {
        proof {
            lemma_syms_view(items@);
            assert(syms_view(items@)[0] == sym_view(items@[0]));
        }
        items = Vec::new();
    }
    proof {
        lemma_syms_view(items@);
    }
    (items, cur)
}

/// One argument: a function call, a variable, or argument text.
fn parse_fn_nested_argument(s: &Vec<char>, pos: usize) -> (r: (Symbol, usize))
    requires
        pos <= s@.len(),
    ensures
        pos <= r.1 <= s@.len(),
        spec_parse_nested(s@, pos as int) == (sym_view(r.0), r.1 as int),
    decreases s@.len() - pos, 3nat,
{
    match parse_function(s, pos) {
        Some((sym, p)) => (sym, p),
        None => match parse_variable(s, pos) {
            Some((sym, p)) => (sym, p),
            None => {
                let (text, p) = parse_fn_text(s, pos);
                if text.as_str().is_empty() {
                    (Symbol::Text(None), p)
                } else {
                    (Symbol::Text(Some(text)), p)
                }
            },
        },
    }
}

/// One symbol at the top level: a function call, a variable, or text.
pub fn parse_symbol(s: &Vec<char>, pos: usize) -> (r: (Symbol, usize))
    requires
        pos <= s@.len(),
    ensures
        pos <= r.1 <= s@.len(),
        spec_parse_symbol(s@, pos as int) == (sym_view(r.0), r.1 as int),
    decreases s@.len() - pos, 3nat,
{
    match parse_function(s, pos) {
        Some((sym, p)) => (sym, p),
        None => match parse_variable(s, pos) {
            Some((sym, p)) => (sym, p),
            None => {
                let (text, p) = parse_text(s, pos);
                if text.as_str().is_empty() {
                    (Symbol::Text(None), p)
                } else {
                    (Symbol::Text(Some(text)), p)
                }
            },
        },
    }
}

/// Splits an expression into its symbols, exactly as `spec_tokenize`
/// says. Parsing stops when it can make no progress; the first result is
/// the unparsed remainder, empty when the whole input was understood.
pub fn tokenize_symbols(input: &str) -> (r: (String, Vec<Symbol>))
    ensures
        ({
            let (toks, rest) = spec_tokenize(input@, 0, Seq::empty());
            &&& syms_view(r.1@) == toks
            &&& 0 <= rest <= input@.len()
            &&& r.0@ == input@.subrange(rest, input@.len() as int)
        }),
{
    let s = crate::strings::str_chars(input);
    let n = s.len();
    let mut tokens: Vec<Symbol> = Vec::new();
    let mut pos: usize = 0;
    proof {
        assert(syms_view(tokens@) == Seq::<SymM>::empty());
    }
    while pos < n
        invariant
            n == s@.len(),
            s@ == input@,
            0 <= pos <= n,
            spec_tokenize(input@, 0, Seq::empty()) == spec_tokenize(
                s@,
                pos as int,
                syms_view(tokens@),
            ),
        decreases n - pos,
    {
        let (sym, p) = parse_symbol(&s, pos);
        proof {
            lemma_syms_view_push(tokens@, sym);
        }
        tokens.push(sym);
        if p == pos {
            // no progress: stop rather than loop forever
            let rest = subvec_chars(&s, pos, n);
            return (chars_to_string(&rest), tokens);
        }
        pos = p;
    }
    let rest = subvec_chars(&s, pos, n);
    (chars_to_string(&rest), tokens)
}

// ------------------------------------------------------------------
// Value models
// ------------------------------------------------------------------
/// The mathematical value of an `EValue`: views in place of strings.
pub enum ValueModel {
    Dict(Seq<(Seq<char>, Seq<char>)>),
    List(Seq<Seq<char>>),
    Str(Seq<char>),
}

/// The model of an expression value.
pub open spec fn ev_model(v: EValue) -> ValueModel {
    match v {
        EValue::Dict(pairs) => ValueModel::Dict(pairs_view(pairs@)),
        EValue::List(items) => ValueModel::List(strs_view(items@)),
        EValue::Str(s) => ValueModel::Str(s@),
    }
}

/// The models of a sequence of expression values.
pub open spec fn models_view(args: Seq<EValue>) -> Seq<ValueModel> {
    args.map_values(|v: EValue| ev_model(v))
}

/// The string a model renders to when used as plain text.
pub open spec fn model_as_str(v: ValueModel) -> Seq<char> {
    match v {
        ValueModel::Str(s) => s,
        _ => Seq::empty(),
    }
}

/// Whether a model holds no data.
pub open spec fn model_is_empty(v: ValueModel) -> bool {
    match v {
        ValueModel::Dict(pairs) => pairs.len() == 0,
        ValueModel::List(items) => items.len() == 0,
        ValueModel::Str(s) => s.len() == 0,
    }
}

// ------------------------------------------------------------------
// The meaning of an expression
// ------------------------------------------------------------------
/// Whether a symbol calls `$rand` anywhere. The value of such a symbol is
/// drawn at random and is not a function of the request alone.
pub open spec fn mentions_rand(sym: SymM) -> bool
    decreases sym,
{
    match sym {
        SymM::MFn { name, args } => name == "rand"@ || mentions_rand_list(args),
        SymM::MVar { name, key, default } => match default {
            Some(b) => mentions_rand(*b),
            None => false,
        },
        SymM::MText(_) => false,
    }
}

/// Whether any symbol of the list calls `$rand`.
pub open spec fn mentions_rand_list(syms: Seq<SymM>) -> bool
    decreases syms,
{
    if syms.len() == 0 {
        false
    } else {
        mentions_rand(syms.last()) || mentions_rand_list(syms.drop_last())
    }
}

/// A rand-free list stays rand-free under prefixes, and so does each of
/// its symbols.
proof fn lemma_mentions_rand_prefix(syms: Seq<SymM>, n: int)
    requires
        !mentions_rand_list(syms),
        0 <= n <= syms.len(),
    ensures
        !mentions_rand_list(syms.subrange(0, n)),
        forall|i: int| 0 <= i < n ==> !mentions_rand(#[trigger] syms[i]),
    decreases syms.len(),
{
    if syms.len() > 0 {
        lemma_mentions_rand_prefix(syms.drop_last(), if n <= syms.len() - 1 {
            n
        } else {
            syms.len() - 1
        });
        if n <= syms.len() - 1 {
            assert(syms.drop_last().subrange(0, n) =~= syms.subrange(0, n));
        } else {
            assert(syms.subrange(0, n) =~= syms);
        }
        assert forall|i: int| 0 <= i < n implies !mentions_rand(#[trigger] syms[i]) by {
            if i < syms.len() - 1 {
                assert(syms.drop_last()[i] == syms[i]);
            }
        }
    }
}

/// The nine variable names the evaluator resolves.
pub open spec fn is_known_var(name: Seq<char>) -> bool {
    name == "HTTP_ACCEPT_LANGUAGE"@ || name == "HTTP_COOKIE"@ || name == "HTTP_HOST"@ || name
        == "HTTP_REFERER"@ || name == "HTTP_USER_AGENT"@ || name == "QUERY_STRING"@ || name
        == "REMOTE_ADDR"@ || name == "REQUEST_METHOD"@ || name == "REQUEST_PATH"@
}

/// The literal source form an unknown variable resolves to:
/// `$(NAME)` or `$(NAME{key})`.
pub open spec fn unknown_var_literal(name: Seq<char>, key: Option<Seq<char>>) -> Seq<char> {
    match key {
        Some(k) => "$("@ + name + "{"@ + k + "}"@ + ")"@,
        None => "$("@ + name + ")"@,
    }
}

/// The recognised variable names are pairwise distinct.
proof fn lemma_var_names()
    ensures
        "HTTP_COOKIE"@ != "HTTP_ACCEPT_LANGUAGE"@,
        "HTTP_HOST"@ != "HTTP_ACCEPT_LANGUAGE"@,
        "HTTP_HOST"@ != "HTTP_COOKIE"@,
        "HTTP_REFERER"@ != "HTTP_ACCEPT_LANGUAGE"@,
        "HTTP_REFERER"@ != "HTTP_COOKIE"@,
        "HTTP_REFERER"@ != "HTTP_HOST"@,
        "HTTP_USER_AGENT"@ != "HTTP_ACCEPT_LANGUAGE"@,
        "HTTP_USER_AGENT"@ != "HTTP_COOKIE"@,
        "HTTP_USER_AGENT"@ != "HTTP_HOST"@,
        "HTTP_USER_AGENT"@ != "HTTP_REFERER"@,
        "QUERY_STRING"@ != "HTTP_ACCEPT_LANGUAGE"@,
        "QUERY_STRING"@ != "HTTP_COOKIE"@,
        "QUERY_STRING"@ != "HTTP_HOST"@,
        "QUERY_STRING"@ != "HTTP_REFERER"@,
        "QUERY_STRING"@ != "HTTP_USER_AGENT"@,
{
    reveal_strlit("HTTP_ACCEPT_LANGUAGE");
    reveal_strlit("HTTP_COOKIE");
    reveal_strlit("HTTP_HOST");
    reveal_strlit("HTTP_REFERER");
    reveal_strlit("HTTP_USER_AGENT");
    reveal_strlit("QUERY_STRING");
    assert("HTTP_ACCEPT_LANGUAGE"@.len() == 20);
    assert("HTTP_COOKIE"@.len() == 11);
    assert("HTTP_HOST"@.len() == 9);
    assert("HTTP_REFERER"@.len() == 12);
    assert("HTTP_USER_AGENT"@.len() == 15);
    assert("QUERY_STRING"@.len() == 12);
    assert("QUERY_STRING"@[0] == 'Q');
    assert("HTTP_REFERER"@[0] == 'H');
}

/// `rand` is none of the other recognised function names.
proof fn lemma_fn_names()
    ensures
        "rand"@ != "dollar"@,
        "rand"@ != "dquote"@,
        "rand"@ != "squote"@,
        "rand"@ != "string_split"@,
        "rand"@ != "join"@,
{
    reveal_strlit("rand");
    reveal_strlit("dollar");
    reveal_strlit("dquote");
    reveal_strlit("squote");
    reveal_strlit("string_split");
    reveal_strlit("join");
    assert("rand"@.len() == 4);
    assert("dollar"@.len() == 6);
    assert("dquote"@.len() == 6);
    assert("squote"@.len() == 6);
    assert("string_split"@.len() == 12);
    assert("join"@.len() == 4);
    assert("rand"@[0] == 'r');
    assert("join"@[0] == 'j');
}

/// The primary resolution of a known variable against the request
/// context, before default chaining: `None` when the request carries no
/// such datum.
pub open spec fn spec_var_value(
    ctx: RequestContext,
    name: Seq<char>,
    key: Option<Seq<char>>,
) -> Option<ValueModel> {
    if name == "HTTP_ACCEPT_LANGUAGE"@ {
        match header_lookup(ctx.headers@, "accept-language"@) {
            Some(v) => Some(ValueModel::Str(v)),
            None => None,
        }
    } else if name == "HTTP_COOKIE"@ {
        let h = match header_lookup(ctx.headers@, "cookie"@) {
            Some(v) => v,
            None => Seq::empty(),
        };
        match key {
            None => Some(ValueModel::Dict(cookie_pairs(h))),
            Some(k) => match pairs_lookup(cookie_pairs(h), k) {
                Some(v) => Some(ValueModel::Str(v)),
                None => None,
            },
        }
    } else if name == "HTTP_HOST"@ {
        match header_lookup(ctx.headers@, "host"@) {
            Some(v) => Some(ValueModel::Str(v)),
            None => None,
        }
    } else if name == "HTTP_REFERER"@ {
        match header_lookup(ctx.headers@, "referer"@) {
            Some(v) => Some(ValueModel::Str(v)),
            None => None,
        }
    } else if name == "HTTP_USER_AGENT"@ {
        match key {
            Some(k) => if k == "browser"@ {
                Some(ValueModel::Str(match ctx.device_name {
                    Some(d) => d@,
                    None => "OTHER"@,
                }))
            } else {
                match header_lookup(ctx.headers@, "user-agent"@) {
                    Some(v) => Some(ValueModel::Str(v)),
                    None => None,
                }
            },
            None => match header_lookup(ctx.headers@, "user-agent"@) {
                Some(v) => Some(ValueModel::Str(v)),
                None => None,
            },
        }
    } else if name == "QUERY_STRING"@ {
        match ctx.query {
            None => None,
            Some(q) => match key {
                None => Some(ValueModel::Dict(query_pairs(q@))),
                Some(k) => match pairs_lookup(query_pairs(q@), k) {
                    Some(v) => Some(ValueModel::Str(v)),
                    None => None,
                },
            },
        }
    } else if name == "REMOTE_ADDR"@ {
        Some(ValueModel::Str(match ctx.client_ip {
            Some(ip) => ip@,
            None => Seq::empty(),
        }))
    } else if name == "REQUEST_METHOD"@ {
        Some(ValueModel::Str(ctx.method@))
    } else {
        Some(ValueModel::Str(ctx.path@))
    }
}

/// The value of an absent default: the empty string.
pub open spec fn spec_default(ctx: RequestContext, default: Option<Box<SymM>>) -> ValueModel
    decreases default, 0nat,
{
    match default {
        Some(b) => spec_handle(ctx, *b),
        None => ValueModel::Str(Seq::empty()),
    }
}

/// Default chaining: an absent or empty primary value gives way to the
/// default expression.
pub open spec fn spec_or_default(
    ctx: RequestContext,
    prim: Option<ValueModel>,
    default: Option<Box<SymM>>,
) -> ValueModel
    decreases default, 1nat,
{
    match prim {
        Some(v) => if !model_is_empty(v) {
            v
        } else {
            spec_default(ctx, default)
        },
        None => spec_default(ctx, default),
    }
}

/// The subject of a model-level `string_split`.
pub open spec fn model_split_subject(vals: Seq<ValueModel>) -> Seq<char> {
    if vals.len() > 0 {
        model_as_str(vals[0])
    } else {
        Seq::empty()
    }
}

/// The separator of a model-level `string_split` or `join`.
pub open spec fn model_sep(vals: Seq<ValueModel>) -> Seq<char> {
    if vals.len() > 1 {
        model_as_str(vals[1])
    } else {
        " "@
    }
}

/// The piece limit of a model-level `string_split`.
pub open spec fn model_split_limit(vals: Seq<ValueModel>) -> nat {
    if vals.len() > 2 && is_numeric(model_as_str(vals[2])) && numeral_value(model_as_str(vals[2]))
        <= usize::MAX {
        numeral_value(model_as_str(vals[2]))
    } else {
        usize::MAX as nat
    }
}

/// A model-level `join`.
pub open spec fn model_join(vals: Seq<ValueModel>) -> Seq<char> {
    if vals.len() == 0 {
        Seq::empty()
    } else {
        match vals[0] {
            ValueModel::List(items) => joined(items, model_sep(vals)),
            v => model_as_str(v),
        }
    }
}

/// What a recognised function returns for the given argument values. The
/// `rand` case is left unspecified: its value is random.
pub open spec fn spec_fn_result(name: Seq<char>, vals: Seq<ValueModel>) -> ValueModel {
    if name == "dollar"@ {
        ValueModel::Str("$"@)
    } else if name == "dquote"@ {
        ValueModel::Str("\""@)
    } else if name == "squote"@ {
        ValueModel::Str("'"@)
    } else if name == "string_split"@ {
        ValueModel::List(
            splitn_chars(model_split_subject(vals), model_sep(vals), model_split_limit(vals)),
        )
    } else if name == "join"@ {
        ValueModel::Str(model_join(vals))
    } else if name == "rand"@ {
        ValueModel::Str(Seq::empty())
    } else {
        ValueModel::Str("unknown_function"@)
    }
}

/// The bound a `$rand` draw stays below: the first argument when it reads
/// as a positive numeral that fits a `u32`, and 99 999 999 otherwise.
pub open spec fn spec_rand_bound(vals: Seq<ValueModel>) -> nat {
    if vals.len() > 0 && is_numeric(model_as_str(vals[0])) && numeral_value(model_as_str(vals[0]))
        <= u32::MAX && numeral_value(model_as_str(vals[0])) > 0 {
        numeral_value(model_as_str(vals[0]))
    } else {
        99_999_999
    }
}

/// The value of one symbol against the request context.
pub open spec fn spec_handle(ctx: RequestContext, sym: SymM) -> ValueModel
    decreases sym, 2nat,
{
    match sym {
        SymM::MText(t) => match t {
            Some(s) => ValueModel::Str(s),
            None => ValueModel::Str(Seq::empty()),
        },
        SymM::MFn { name, args } => spec_fn_result(name, spec_handle_list(ctx, args)),
        SymM::MVar { name, key, default } => {
            if is_known_var(name) {
                spec_or_default(ctx, spec_var_value(ctx, name, key), default)
            } else {
                ValueModel::Str(unknown_var_literal(name, key))
            }
        },
    }
}

/// The values of a list of symbols, in order.
pub open spec fn spec_handle_list(ctx: RequestContext, syms: Seq<SymM>) -> Seq<ValueModel>
    decreases syms, 2nat,
{
    if syms.len() == 0 {
        Seq::empty()
    } else {
        spec_handle_list(ctx, syms.drop_last()).push(spec_handle(ctx, syms.last()))
    }
}

/// Whether an optional default calls `$rand`.
pub open spec fn mentions_rand_opt(default: Option<Box<SymM>>) -> bool {
    match default {
        Some(b) => mentions_rand(*b),
        None => false,
    }
}

// ------------------------------------------------------------------
// Trusted leaves
// ------------------------------------------------------------------
/// A number drawn uniformly below `n`.
///
/// Relies on rand's `random_range`: a value in the given range, from the
/// thread-local generator. Nothing is promised of which value comes back.
#[verifier::external_body]
fn rand_below(n: u32) -> (r: u32)
    requires
        n > 0,
    ensures
        r < n,
{
    rand::random_range(0..n)
}

// ------------------------------------------------------------------
// Evaluation
// ------------------------------------------------------------------
/// Evaluates the default expression of a variable, the empty string when
/// there is none.
fn eval_default(ctx: &RequestContext, default: &Option<Box<Symbol>>) -> (r: EValue)
    ensures
        !mentions_rand_opt(opt_sym_view(*default)) ==> ev_model(r) == spec_default(*ctx, opt_sym_view(*default)),
    decreases *default, 3nat,
{
    match default {
        Some(d) => handle_symbol(ctx, &**d),
        None => EValue::Str(String::new()),
    }
}

/// Takes a resolved value, or falls back to the default when the value is
/// absent or empty.
fn value_or_default(
    ctx: &RequestContext,
    value: Option<EValue>,
    default: &Option<Box<Symbol>>,
) -> (r: EValue)
    ensures
        !mentions_rand_opt(opt_sym_view(*default)) ==> ev_model(r) == spec_or_default(
            *ctx,
            match value {
                Some(v) => Some(ev_model(v)),
                None => None,
            },
            opt_sym_view(*default),
        ),
    decreases *default, 5nat,
{
    match value {
        Some(v) => if !v.is_empty() {
            v
        } else {
            eval_default(ctx, default)
        },
        None => eval_default(ctx, default),
    }
}

/// Resolves a header-backed variable: the header value, or the default.
fn header_value(ctx: &RequestContext, header_name: &str, default: &Option<Box<Symbol>>) -> (r:
    EValue)
    ensures
        !mentions_rand_opt(opt_sym_view(*default)) ==> ev_model(r) == spec_or_default(
            *ctx,
            match header_lookup(ctx.headers@, header_name@) {
                Some(v) => Some(ValueModel::Str(v)),
                None => None,
            },
            opt_sym_view(*default),
        ),
    decreases *default, 6nat,
{
    let value = match header_lookup_exec(&ctx.headers, header_name) {
        Some(v) => Some(EValue::Str(v)),
        None => None,
    };
    value_or_default(ctx, value, default)
}

/// Resolves `QUERY_STRING`: the whole query as a dictionary, or one
/// parameter's value.
fn var_query_string(ctx: &RequestContext, key: &Option<String>, default: &Option<Box<Symbol>>) -> (
    r: EValue)
    ensures
        !mentions_rand_opt(opt_sym_view(*default)) ==> ev_model(r) == spec_or_default(
            *ctx,
            spec_var_value(
                *ctx,
                "QUERY_STRING"@,
                match *key {
                    Some(k) => Some(k@),
                    None => None,
                },
            ),
            opt_sym_view(*default),
        ),
    decreases *default, 7nat,
{
    proof {
        lemma_var_names();
    }
    let value: Option<EValue> = match &ctx.query {
        None => None,
        Some(q) => {
            let pairs = parse_query_pairs(q.as_str());
            match key {
                None => Some(EValue::Dict(pairs)),
                Some(k) => match pairs_lookup_exec(&pairs, k.as_str()) {
                    Some(v) => Some(EValue::Str(v)),
                    None => None,
                },
            }
        },
    };
    value_or_default(ctx, value, default)
}

/// Resolves `HTTP_COOKIE`: all cookies as a dictionary, or one cookie's
/// value.
pub fn var_http_cookie(ctx: &RequestContext, key: &Option<String>, default: &Option<Box<Symbol>>) -> (
    r: EValue)
    ensures
        !mentions_rand_opt(opt_sym_view(*default)) ==> ev_model(r) == spec_or_default(
            *ctx,
            spec_var_value(
                *ctx,
                "HTTP_COOKIE"@,
                match *key {
                    Some(k) => Some(k@),
                    None => None,
                },
            ),
            opt_sym_view(*default),
        ),
    decreases *default, 7nat,
{
    proof {
        lemma_var_names();
    }
    let header = match header_lookup_exec(&ctx.headers, "cookie") {
        Some(v) => v,
        None => String::new(),
    };
    let pairs = parse_cookie_pairs(header.as_str());
    let value: Option<EValue> = match key {
        None => Some(EValue::Dict(pairs)),
        Some(k) => match pairs_lookup_exec(&pairs, k.as_str()) {
            Some(v) => Some(EValue::Str(v)),
            None => None,
        },
    };
    value_or_default(ctx, value, default)
}

/// Resolves `HTTP_USER_AGENT`: the user agent, or under the `browser` key
/// the device name the runtime looked up, `OTHER` when it found none.
fn var_http_user_agent(
    ctx: &RequestContext,
    key: &Option<String>,
    default: &Option<Box<Symbol>>,
) -> (r: EValue)
    ensures
        !mentions_rand_opt(opt_sym_view(*default)) ==> ev_model(r) == spec_or_default(
            *ctx,
            spec_var_value(
                *ctx,
                "HTTP_USER_AGENT"@,
                match *key {
                    Some(k) => Some(k@),
                    None => None,
                },
            ),
            opt_sym_view(*default),
        ),
    decreases *default, 7nat,
{
    proof {
        lemma_var_names();
    }
    match key {
        Some(k) => {
            if str_eq(k.as_str(), "browser") {
                let device = match &ctx.device_name {
                    Some(d) => d.clone(),
                    None => "OTHER".to_owned(),
                };
                value_or_default(ctx, Some(EValue::Str(device)), default)
            } else {
                header_value(ctx, "user-agent", default)
            }
        },
        None => header_value(ctx, "user-agent", default),
    }
}

/// Resolves a variable name against the request context, applying the
/// default when the primary value is absent or empty; unknown names give
/// back their literal source form.
pub fn resolve_var(
    ctx: &RequestContext,
    name: &String,
    key: &Option<String>,
    default: &Option<Box<Symbol>>,
) -> (r: EValue)
    ensures
        !mentions_rand_opt(opt_sym_view(*default)) ==> ev_model(r) == ({
            let keyv = match *key {
                Some(k) => Some(k@),
                None => None,
            };
            if is_known_var(name@) {
                spec_or_default(*ctx, spec_var_value(*ctx, name@, keyv), opt_sym_view(*default))
            } else {
                ValueModel::Str(unknown_var_literal(name@, keyv))
            }
        }),
    decreases *default, 9nat,
{
    if str_eq(name.as_str(), "HTTP_ACCEPT_LANGUAGE") {
        header_value(ctx, "accept-language", default)
    } else if str_eq(name.as_str(), "HTTP_COOKIE") {
        var_http_cookie(ctx, key, default)
    } else if str_eq(name.as_str(), "HTTP_HOST") {
        header_value(ctx, "host", default)
    } else if str_eq(name.as_str(), "HTTP_REFERER") {
        header_value(ctx, "referer", default)
    } else if str_eq(name.as_str(), "HTTP_USER_AGENT") {
        var_http_user_agent(ctx, key, default)
    } else if str_eq(name.as_str(), "QUERY_STRING") {
        var_query_string(ctx, key, default)
    } else if str_eq(name.as_str(), "REMOTE_ADDR") {
        let ip = match &ctx.client_ip {
            Some(ip) => ip.clone(),
            None => String::new(),
        };
        value_or_default(ctx, Some(EValue::Str(ip)), default)
    } else if str_eq(name.as_str(), "REQUEST_METHOD") {
        value_or_default(ctx, Some(EValue::Str(ctx.method.clone())), default)
    } else if str_eq(name.as_str(), "REQUEST_PATH") {
        value_or_default(ctx, Some(EValue::Str(ctx.path.clone())), default)
    } else {
        let mut out = String::new();
        out.append("$(");
        out.append(name.as_str());
        match key {
            Some(k) => {
                out.append("{");
                out.append(k.as_str());
                out.append("}");
            },
            None => {},
        }
        out.append(")");
        proof {
            let keyv: Option<Seq<char>> = match key {
                Some(k) => Some(k@),
                None => None,
            };
            assert(out@ =~= unknown_var_literal(name@, keyv));
        }
        EValue::Str(out)
    }
}

/// Resolves a function call: evaluates the arguments, then applies the
/// named function; unknown names give `unknown_function`. A `$rand` call
/// returns a decimal numeral drawn below its bound; which numeral comes
/// back is random and not specified.
pub fn resolve_fn(ctx: &RequestContext, name: &String, args: &Vec<Symbol>) -> (r: EValue)
    ensures
        !(name@ == "rand"@) && !mentions_rand_list(syms_view(args@)) ==> ev_model(r)
            == spec_fn_result(name@, spec_handle_list(*ctx, syms_view(args@))),
        name@ == "rand"@ && !mentions_rand_list(syms_view(args@)) ==> (r matches EValue::Str(s)
            && exists|d: u32|
            (d as nat) < spec_rand_bound(spec_handle_list(*ctx, syms_view(args@))) && s@ == dec_str(
                d as nat,
            )),
    decreases *args, 9nat,
{
    proof {
        lemma_fn_names();
    }
    let mut processed: Vec<EValue> = Vec::new();
    let n = args.len();
    let ghost am = syms_view(args@);
    proof {
        lemma_syms_view(args@);
        assert(am.subrange(0, 0) =~= Seq::<SymM>::empty());
    }
    for i in 0..n
        invariant
            n == args@.len(),
            am == syms_view(args@),
            am.len() == n,
            forall|t: int| 0 <= t < n ==> #[trigger] am[t] == sym_view(args@[t]),
            processed@.len() == i,
            !mentions_rand_list(am) ==> models_view(processed@)
                =~= spec_handle_list(*ctx, am.subrange(0, i as int)),
        decreases *args, 8nat, n - i,
    {
        let v = handle_symbol(ctx, &args[i]);
        processed.push(v);
        proof {
            if !mentions_rand_list(am) {
                lemma_mentions_rand_prefix(am, i + 1);
                let prefix1 = am.subrange(0, i + 1);
                assert(prefix1.drop_last() =~= am.subrange(0, i as int));
                assert(prefix1.last() == am[i as int]);
                assert(models_view(processed@) =~= spec_handle_list(
                    *ctx,
                    prefix1,
                ));
            }
        }
    }
    proof {
        assert(am.subrange(0, n as int) =~= am);
    }
    let ghost vals = spec_handle_list(*ctx, syms_view(args@));
    if str_eq(name.as_str(), "dollar") {
        EValue::Str("$".to_owned())
    } else if str_eq(name.as_str(), "dquote") {
        EValue::Str("\"".to_owned())
    } else if str_eq(name.as_str(), "squote") {
        EValue::Str("'".to_owned())
    } else if str_eq(name.as_str(), "string_split") {
        let r = crate::string_functions::string_split(processed.as_slice());
        proof {
            if !mentions_rand_list(am) {
                lemma_evalue_args_model(processed@);
            }
        }
        r
    } else if str_eq(name.as_str(), "join") {
        let r = crate::string_functions::join(processed.as_slice());
        proof {
            if !mentions_rand_list(am) {
                lemma_evalue_args_model(processed@);
            }
        }
        r
    } else if str_eq(name.as_str(), "rand") {
        let ghost vals_m = models_view(processed@);
        let mut bound: u32 = 99_999_999;
        if processed.len() > 0 {
            let arg_chars = crate::strings::str_chars(processed[0].as_str());
            proof {
                assert(vals_m[0] == ev_model(processed@[0]));
                assert(arg_chars@ == model_as_str(vals_m[0]));
            }
            match crate::strings::parse_u32(&arg_chars) {
                Some(v) => if v > 0 {
                    bound = v;
                },
                None => {},
            }
        }
        proof {
            if !mentions_rand_list(am) {
                assert(bound as nat == spec_rand_bound(vals));
            }
        }
        let drawn = rand_below(bound);
        let out = u32_to_string(drawn);
        proof {
            if !mentions_rand_list(am) {
                assert((drawn as nat) < spec_rand_bound(spec_handle_list(*ctx, syms_view(args@)))
                    && out@ == dec_str(drawn as nat));
            }
        }
        EValue::Str(out)
    } else {
        EValue::Str("unknown_function".to_owned())
    }
}

/// The split/join argument readings agree between expression values and
/// their models.
proof fn lemma_evalue_args_model(args: Seq<EValue>)
    ensures
        crate::string_functions::split_subject(args) == model_split_subject(
            models_view(args),
        ),
        crate::string_functions::split_separator(args) == model_sep(
            models_view(args),
        ),
        crate::string_functions::join_separator(args) == model_sep(
            models_view(args),
        ),
        crate::string_functions::split_limit(args) == model_split_limit(
            models_view(args),
        ),
        crate::string_functions::spec_join(args) == model_join(
            models_view(args),
        ),
{
    let models = models_view(args);
    if args.len() > 0 {
        assert(models[0] == ev_model(args[0]));
        assert(crate::value::spec_as_str(args[0]) == model_as_str(ev_model(args[0])));
        match args[0] {
            EValue::List(items) => {
                assert(models[0] is List);
            },
            _ => {},
        }
    }
    if args.len() > 1 {
        assert(models[1] == ev_model(args[1]));
        assert(crate::value::spec_as_str(args[1]) == model_as_str(ev_model(args[1])));
    }
    if args.len() > 2 {
        assert(models[2] == ev_model(args[2]));
        assert(crate::value::spec_as_str(args[2]) == model_as_str(ev_model(args[2])));
    }
}

/// The value of one symbol: text passes through, function calls and
/// variables are resolved against the request context.
pub fn handle_symbol(ctx: &RequestContext, symbol: &Symbol) -> (r: EValue)
    ensures
        !mentions_rand(sym_view(*symbol)) ==> ev_model(r) == spec_handle(*ctx, sym_view(*symbol)),
    decreases *symbol, 0nat,
{
    match symbol {
        Symbol::Function { name, args } => resolve_fn(ctx, name, args),
        Symbol::Text(t) => match t {
            Some(text) => EValue::Str(text.clone()),
            None => EValue::Str(String::new()),
        },
        Symbol::Variable { name, key, default } => resolve_var(ctx, name, key, default),
    }
}

/// The concatenated text of a list of symbol values.
pub open spec fn spec_eval_list(ctx: RequestContext, syms: Seq<SymM>) -> Seq<char>
    decreases syms,
{
    if syms.len() == 0 {
        Seq::empty()
    } else {
        spec_eval_list(ctx, syms.drop_last()) + model_as_str(spec_handle(ctx, syms.last()))
    }
}

/// Evaluates a list of symbols and concatenates their text forms.
pub fn eval_symbols(ctx: &RequestContext, syms: &Vec<Symbol>) -> (r: String)
    ensures
        !mentions_rand_list(syms_view(syms@)) ==> r@ == spec_eval_list(*ctx, syms_view(syms@)),
{
    let mut out = String::new();
    let n = syms.len();
    let ghost sm = syms_view(syms@);
    proof {
        lemma_syms_view(syms@);
        assert(sm.subrange(0, 0) =~= Seq::<SymM>::empty());
    }
    for i in 0..n
        invariant
            n == syms@.len(),
            sm == syms_view(syms@),
            sm.len() == n,
            forall|t: int| 0 <= t < n ==> #[trigger] sm[t] == sym_view(syms@[t]),
            !mentions_rand_list(sm) ==> out@ =~= spec_eval_list(*ctx, sm.subrange(0, i as int)),
    {
        let v = handle_symbol(ctx, &syms[i]);
        out.append(v.as_str());
        proof {
            if !mentions_rand_list(sm) {
                lemma_mentions_rand_prefix(sm, i + 1);
                let prefix1 = sm.subrange(0, i + 1);
                assert(prefix1.drop_last() =~= sm.subrange(0, i as int));
                assert(prefix1.last() == sm[i as int]);
                assert(crate::value::spec_as_str(v) == model_as_str(ev_model(v)));
            }
        }
    }
    proof {
        assert(sm.subrange(0, n as int) =~= sm);
    }
    out
}

/// Evaluates every expression in `input` against the request context and
/// returns the concatenated text of the tokens' values, exactly as
/// `spec_tokenize` and `spec_eval_list` say — unless some token draws
/// `$rand`, whose value is random. Anything the tokenizer cannot make
/// sense of is dropped from the point it stops.
pub fn process_symbols(ctx: &RequestContext, input: &str) -> (r: String)
    ensures
        !mentions_rand_list(spec_tokenize(input@, 0, Seq::empty()).0) ==> r@ == spec_eval_list(
            *ctx,
            spec_tokenize(input@, 0, Seq::empty()).0,
        ),
{
    let (_, syms) = tokenize_symbols(input);
    eval_symbols(ctx, &syms)
}

} // verus!

use vstd::prelude::*;
use vstd::string::StringExecFns;
use crate::context::RequestContext;
use crate::error::ExecutionError;
use crate::strings::{chars_to_string, str_chars, str_eq, subvec_chars, char_code};

verus! {

// A simpler, line-oriented variable substitution: `$(NAME)` references are
// replaced against the request, `\$` escapes a literal dollar, and any
// input that does not scan cleanly is returned unchanged.
/// Whether `c` can appear in a variable name here: upper-case or underscore.
pub open spec fn is_var_name_char(c: char) -> bool {
    (65 <= c as int && c as int <= 90) || c == '_'
}

/// Whether `c` can appear in a function name here: lower-case or underscore.
pub open spec fn is_fn_name_char(c: char) -> bool {
    (97 <= c as int && c as int <= 122) || c == '_'
}

/// Whether `c` can appear in a variable name here.
fn is_var_name_char_exec(c: char) -> (r: bool)
    ensures
        r == is_var_name_char(c),
{
    let d = char_code(c);
    (65 <= d && d <= 90) || c == '_'
}

/// Whether `c` can appear in a function name here.
fn is_fn_name_char_exec(c: char) -> (r: bool)
    ensures
        r == is_fn_name_char(c),
{
    let d = char_code(c);
    (97 <= d && d <= 122) || c == '_'
}

/// The end of the run of variable-name characters at `pos`.
pub open spec fn var_name_end(s: Seq<char>, pos: int) -> int
    decreases s.len() - pos,
{
    if pos < 0 || pos >= s.len() {
        s.len() as int
    } else if is_var_name_char(s[pos]) {
        var_name_end(s, pos + 1)
    } else {
        pos
    }
}

/// The end of the run of function-name characters at `pos`.
pub open spec fn fn_name_end(s: Seq<char>, pos: int) -> int
    decreases s.len() - pos,
{
    if pos < 0 || pos >= s.len() {
        s.len() as int
    } else if is_fn_name_char(s[pos]) {
        fn_name_end(s, pos + 1)
    } else {
        pos
    }
}

/// The end of the run of plain text characters at `pos`: anything but
/// `\\` and `$`.
pub open spec fn text_run_end(s: Seq<char>, pos: int) -> int
    decreases s.len() - pos,
{
    if pos < 0 || pos >= s.len() {
        s.len() as int
    } else if s[pos] != '\\' && s[pos] != '$' {
        text_run_end(s, pos + 1)
    } else {
        pos
    }
}

/// What reading a variable name at `pos` yields: at least one upper-case
/// letter or underscore, and the position just past the run.
pub open spec fn spec_esi_variable_name(s: Seq<char>, pos: int) -> Option<(Seq<char>, int)> {
    let end = var_name_end(s, pos);
    if end > pos {
        Some((s.subrange(pos, end), end))
    } else {
        None
    }
}

/// What reading a function name at `pos` yields: at least one lower-case
/// letter or underscore, and the position just past the run.
pub open spec fn spec_esi_function_name(s: Seq<char>, pos: int) -> Option<(Seq<char>, int)> {
    let end = fn_name_end(s, pos);
    if end > pos {
        Some((s.subrange(pos, end), end))
    } else {
        None
    }
}

/// What reading a `$(NAME)` or `$(name)` reference at `pos` yields: the
/// name between the parentheses and the position just past them.
pub open spec fn spec_parse_dollar_tag(s: Seq<char>, pos: int) -> Option<(Seq<char>, int)> {
    if !(0 <= pos && pos < s.len() && pos + 1 < s.len() && s[pos] == '$' && s[pos + 1] == '(') {
        None
    } else {
        let named = match spec_esi_variable_name(s, pos + 2) {
            Some(v) => Some(v),
            None => spec_esi_function_name(s, pos + 2),
        };
        match named {
            Some((name, p)) => if p < s.len() && s[p] == ')' {
                Some((name, p + 1))
            } else {
                None
            },
            None => None,
        }
    }
}

/// What reading a text run at `pos` yields: a run of plain characters, a
/// leading `\$` escape dropped.
pub open spec fn spec_parse_text_run(s: Seq<char>, pos: int) -> Option<(Seq<char>, int)> {
    let start = if 0 <= pos && pos < s.len() && s[pos] == '\\' && pos + 1 < s.len() && s[pos + 1]
        == '$' {
        pos + 2
    } else {
        pos
    };
    let end = text_run_end(s, start);
    if end > start {
        Some((s.subrange(start, end), end))
    } else {
        None
    }
}

/// The run of variable-name characters at `pos`: at least one upper-case
/// letter or underscore.
pub fn esi_variable_name(s: &Vec<char>, pos: usize) -> (r: Option<(String, usize)>)
    requires
        pos <= s@.len(),
    ensures
        r matches Some((name, p)) ==> pos < p <= s@.len() && name@ == s@.subrange(
            pos as int,
            p as int,
        ) && forall|t: int| pos <= t < p ==> is_var_name_char(#[trigger] s@[t]),
        match r {
            Some((name, p)) => spec_esi_variable_name(s@, pos as int) == Some((name@, p as int)),
            None => spec_esi_variable_name(s@, pos as int) is None,
        },
{
    let n = s.len();
    let mut end: usize = pos;
    while end < n && is_var_name_char_exec(s[end])
        invariant
            n == s@.len(),
            pos <= end <= n,
            forall|t: int| pos <= t < end ==> is_var_name_char(#[trigger] s@[t]),
            var_name_end(s@, pos as int) == var_name_end(s@, end as int),
        decreases n - end,
    {
        end = end + 1;
    }
    if end > pos {
        let name = subvec_chars(s, pos, end);
        Some((chars_to_string(&name), end))
    } else {
        None
    }
}

/// The run of function-name characters at `pos`: at least one lower-case
/// letter or underscore.
pub fn esi_function_name(s: &Vec<char>, pos: usize) -> (r: Option<(String, usize)>)
    requires
        pos <= s@.len(),
    ensures
        r matches Some((name, p)) ==> pos < p <= s@.len() && name@ == s@.subrange(
            pos as int,
            p as int,
        ) && forall|t: int| pos <= t < p ==> is_fn_name_char(#[trigger] s@[t]),
        match r {
            Some((name, p)) => spec_esi_function_name(s@, pos as int) == Some((name@, p as int)),
            None => spec_esi_function_name(s@, pos as int) is None,
        },
{
    let n = s.len();
    let mut end: usize = pos;
    while end < n && is_fn_name_char_exec(s[end])
        invariant
            n == s@.len(),
            pos <= end <= n,
            forall|t: int| pos <= t < end ==> is_fn_name_char(#[trigger] s@[t]),
            fn_name_end(s@, pos as int) == fn_name_end(s@, end as int),
        decreases n - end,
    {
        end = end + 1;
    }
    if end > pos {
        let name = subvec_chars(s, pos, end);
        Some((chars_to_string(&name), end))
    } else {
        None
    }
}

/// A `$(NAME)` or `$(name)` reference at `pos`: the name between the
/// parentheses.
fn parse_dollar_tag(s: &Vec<char>, pos: usize) -> (r: Option<(String, usize)>)
    requires
        pos <= s@.len(),
    ensures
        r matches Some((_, p)) ==> pos < p <= s@.len(),
        match r {
            Some((name, p)) => spec_parse_dollar_tag(s@, pos as int) == Some((name@, p as int)),
            None => spec_parse_dollar_tag(s@, pos as int) is None,
        },
{
    let n = s.len();
    if !(pos < n && pos + 1 < n && s[pos] == '$' && s[pos + 1] == '(') {
        return None;
    }
    let named = match esi_variable_name(s, pos + 2) {
        Some(v) => Some(v),
        None => esi_function_name(s, pos + 2),
    };
    match named {
        Some((name, p)) => {
            if p < n && s[p] == ')' {
                Some((name, p + 1))
            } else {
                None
            }
        },
        None => None,
    }
}

/// A text run at `pos`: a run of plain characters, or `\$` followed by a
/// run of plain characters (the escape itself is dropped).
fn parse_text_run(s: &Vec<char>, pos: usize) -> (r: Option<(String, usize)>)
    requires
        pos <= s@.len(),
    ensures
        r matches Some((_, p)) ==> pos < p <= s@.len(),
        match r {
            Some((text, p)) => spec_parse_text_run(s@, pos as int) == Some((text@, p as int)),
            None => spec_parse_text_run(s@, pos as int) is None,
        },
{
    let n = s.len();
    let mut start = pos;
    if pos < n && s[pos] == '\\' && pos + 1 < n && s[pos + 1] == '$' {
        start = pos + 2;
    }
    let mut end: usize = start;
    while end < n && s[end] != '\\' && s[end] != '$'
        invariant
            n == s@.len(),
            start <= end <= n,
            text_run_end(s@, start as int) == text_run_end(s@, end as int),
        decreases n - end,
    {
        end = end + 1;
    }
    if end > start {
        let text = subvec_chars(s, start, end);
        Some((chars_to_string(&text), end))
    } else {
        None
    }
}

/// What a variable name resolves to here: the URL host for `HTTP_HOST`,
/// the raw query string for `QUERY_STRING`, and the literal `$(NAME)` form
/// for anything else.
pub open spec fn spec_lookup_variable(ctx: RequestContext, name: Seq<char>) -> Seq<char> {
    if name == "HTTP_HOST"@ {
        ctx.host@
    } else if name == "QUERY_STRING"@ {
        match ctx.query {
            Some(q) => q@,
            None => Seq::empty(),
        }
    } else {
        "$("@ + name + ")"@
    }
}

/// Resolves one variable name against the request.
pub fn lookup_variable(name: &String, ctx: &RequestContext) -> (r: String)
    ensures
        r@ == spec_lookup_variable(*ctx, name@),
{
    if str_eq(name.as_str(), "HTTP_HOST") {
        ctx.host.clone()
    } else if str_eq(name.as_str(), "QUERY_STRING") {
        match &ctx.query {
            Some(q) => q.clone(),
            None => String::new(),
        }
    } else {
        let mut out = String::new();
        out.append("$(");
        out.append(name.as_str());
        out.append(")");
        proof {
            assert(out@ =~= "$("@ + name@ + ")"@);
        }
        out
    }
}

/// What scanning the whole input from `pos` yields, `acc` already built:
/// text runs pass through, `$(NAME)` references are replaced against the
/// request, and `None` says some part scans as neither. The position
/// guards before the recursion always hold of the scanner's positions and
/// only serve termination.
pub open spec fn spec_scan_vars(
    s: Seq<char>,
    ctx: RequestContext,
    pos: int,
    acc: Seq<char>,
) -> Option<Seq<char>>
    decreases s.len() - pos,
{
    if pos >= s.len() {
        Some(acc)
    } else {
        match spec_parse_text_run(s, pos) {
            Some((text, p)) => if pos < p && p <= s.len() {
                spec_scan_vars(s, ctx, p, acc + text)
            } else {
                None
            },
            None => match spec_parse_dollar_tag(s, pos) {
                Some((name, p)) => if pos < p && p <= s.len() {
                    spec_scan_vars(s, ctx, p, acc + spec_lookup_variable(ctx, name))
                } else {
                    None
                },
                None => None,
            },
        }
    }
}

/// Scans the whole input, replacing `$(NAME)` references exactly as
/// `spec_scan_vars` says; `None` when some part of it scans as neither
/// text nor a reference.
pub fn parse_vars(input: &str, ctx: &RequestContext) -> (r: Option<String>)
    ensures
        match r {
            Some(out) => spec_scan_vars(input@, *ctx, 0, Seq::empty()) == Some(out@),
            None => spec_scan_vars(input@, *ctx, 0, Seq::empty()) is None,
        },
{
    let s = str_chars(input);
    let n = s.len();
    let mut out = String::new();
    let mut pos: usize = 0;
    proof {
        assert(out@ =~= Seq::<char>::empty());
    }
    while pos < n
        invariant
            n == s@.len(),
            s@ == input@,
            0 <= pos <= n,
            spec_scan_vars(input@, *ctx, 0, Seq::empty()) == spec_scan_vars(
                s@,
                *ctx,
                pos as int,
                out@,
            ),
        decreases n - pos,
    {
        match parse_text_run(&s, pos) {
            Some((text, p)) => {
                out.append(text.as_str());
                pos = p;
            },
            None => match parse_dollar_tag(&s, pos) {
                Some((name, p)) => {
                    let value = lookup_variable(&name, ctx);
                    out.append(value.as_str());
                    pos = p;
                },
                None => {
                    return None;
                },
            },
        }
    }
    Some(out)
}

/// Replaces every `$(NAME)` reference in `input` against the request;
/// input that does not scan cleanly is returned unchanged, never an error.
pub fn resolve_vars(input: &str, ctx: &RequestContext) -> (r: Result<String, ExecutionError>)
    ensures
        r matches Ok(out) && (match spec_scan_vars(input@, *ctx, 0, Seq::empty()) {
            Some(v) => out@ == v,
            None => out@ == input@,
        }),
{
    match parse_vars(input, ctx) {
        Some(resolved) => Ok(resolved),
        None => Ok(input.to_owned()),
    }
}

} // verus!

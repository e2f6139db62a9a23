use vstd::prelude::*;
use crate::error::ExecutionError;
use crate::dispatch::{
    HttpRequest, ReqModel, req_view, url_view, url_str_model, spec_build_request,
    build_fragment_request, EM, err_view,
};
use crate::parse::{Event, EventM, Tag, event_view, events_view, lemma_events_view};
use crate::value::strs_view;
use crate::strings::str_eq;

verus! {

// ------------------------------------------------------------------
// The fragment backend, as data
// ------------------------------------------------------------------
/// What one backend answers for a URL: a skip (the dispatcher refused the
/// request without an error), a transport failure, or a response with a
/// status and a body.
#[derive(Debug, Clone)]
pub enum DispatchOutcome {
    Skip,
    Transport(String),
    Respond(u16, Vec<u8>),
}

/// The backends' answers for one document run: each dispatched request is
/// resolved against the first entry whose URL matches. A URL with no entry
/// behaves as a transport failure.
#[derive(Debug, Clone)]
pub struct FragmentOracle {
    pub entries: Vec<(String, DispatchOutcome)>,
}

/// The mathematical value of an outcome.
pub enum OutcomeModel {
    OSkip,
    OTransport(Seq<char>),
    ORespond(u16, Seq<u8>),
}

/// The model of an outcome.
pub open spec fn outcome_view(o: DispatchOutcome) -> OutcomeModel {
    match o {
        DispatchOutcome::Skip => OutcomeModel::OSkip,
        DispatchOutcome::Transport(m) => OutcomeModel::OTransport(m@),
        DispatchOutcome::Respond(s, b) => OutcomeModel::ORespond(s, b@),
    }
}

/// The model of the oracle: URL views paired with outcome models.
pub open spec fn oracle_view(o: FragmentOracle) -> Seq<(Seq<char>, OutcomeModel)>
    decreases o.entries@.len(),
{
    entries_view(o.entries@)
}

/// The models of oracle entries.
pub open spec fn entries_view(entries: Seq<(String, DispatchOutcome)>) -> Seq<
    (Seq<char>, OutcomeModel),
>
    decreases entries.len(),
{
    if entries.len() == 0 {
        Seq::empty()
    } else {
        entries_view(entries.drop_last()).push(
            (entries.last().0@, outcome_view(entries.last().1)),
        )
    }
}

/// Entry models line up with entries, one to one.
pub proof fn lemma_entries_view(entries: Seq<(String, DispatchOutcome)>)
    ensures
        entries_view(entries).len() == entries.len(),
        forall|i: int|
            0 <= i < entries.len() ==> #[trigger] entries_view(entries)[i] == (
                entries[i].0@,
                outcome_view(entries[i].1),
            ),
    decreases entries.len(),
{
    if entries.len() > 0 {
        lemma_entries_view(entries.drop_last());
    }
}

/// The outcome of the first entry whose URL is `url`.
pub open spec fn spec_find(entries: Seq<(Seq<char>, OutcomeModel)>, url: Seq<char>) -> Option<
    OutcomeModel,
>
    decreases entries.len(),
{
    if entries.len() == 0 {
        None
    } else if entries[0].0 == url {
        Some(entries[0].1)
    } else {
        spec_find(entries.drop_first(), url)
    }
}

/// A copy of an outcome with the same model.
fn dup_outcome(o: &DispatchOutcome) -> (r: DispatchOutcome)
    ensures
        outcome_view(r) == outcome_view(*o),
{
    match o {
        DispatchOutcome::Skip => DispatchOutcome::Skip,
        DispatchOutcome::Transport(m) => DispatchOutcome::Transport(m.clone()),
        DispatchOutcome::Respond(s, b) => {
            let body = crate::xml::subvec_bytes(b, 0, b.len());
            proof {
                assert(body@ =~= b@);
            }
            DispatchOutcome::Respond(*s, body)
        },
    }
}

/// Finds the first oracle entry for `url`.
fn find_outcome(oracle: &FragmentOracle, url: &String) -> (r: Option<DispatchOutcome>)
    ensures
        match r {
            Some(o) => spec_find(oracle_view(*oracle), url@) == Some(outcome_view(o)),
            None => spec_find(oracle_view(*oracle), url@) is None,
        },
{
    proof {
        lemma_entries_view(oracle.entries@);
    }
    let ghost ov = oracle_view(*oracle);
    let n = oracle.entries.len();
    proof {
        assert(ov.subrange(0, n as int) =~= ov);
    }
    let mut i: usize = 0;
    while i < n
        invariant
            n == oracle.entries@.len(),
            ov == oracle_view(*oracle),
            ov.len() == n,
            forall|t: int|
                0 <= t < n ==> #[trigger] ov[t] == (
                    oracle.entries@[t].0@,
                    outcome_view(oracle.entries@[t].1),
                ),
            0 <= i <= n,
            spec_find(ov, url@) == spec_find(ov.subrange(i as int, n as int), url@),
        decreases n - i,
    {
        proof {
            let cur = ov.subrange(i as int, n as int);
            assert(cur[0] == ov[i as int]);
            assert(cur.drop_first() =~= ov.subrange(i + 1, n as int));
        }
        if str_eq(oracle.entries[i].0.as_str(), url.as_str()) {
            return Some(dup_outcome(&oracle.entries[i].1));
        }
        i = i + 1;
    }
    proof {
        assert(ov.subrange(n as int, n as int) =~= Seq::<(Seq<char>, OutcomeModel)>::empty());
    }
    None
}

/// Whether a fragment status counts as success: a 2xx or 3xx code.
pub open spec fn is_success_spec(status: u16) -> bool {
    200 <= status < 400
}

/// Whether a fragment status counts as success.
pub fn is_success(status: u16) -> (r: bool)
    ensures
        r == is_success_spec(status),
{
    200 <= status && status < 400
}

/// What awaiting a dispatched URL yields: the response status and body, or
/// a transport error; a skipped or unknown URL cannot be awaited and gives
/// a transport error naming the URL.
pub open spec fn spec_await(
    oracle: Seq<(Seq<char>, OutcomeModel)>,
    url: Seq<char>,
) -> Result<(u16, Seq<u8>), EM> {
    match spec_find(oracle, url) {
        Some(OutcomeModel::ORespond(s, b)) => Ok((s, b)),
        Some(OutcomeModel::OTransport(m)) => Err(EM::Request(m)),
        _ => Err(EM::Request(url)),
    }
}

/// Awaits the response for a dispatched URL.
fn await_handle(oracle: &FragmentOracle, url: &String) -> (r: Result<
    (u16, Vec<u8>),
    ExecutionError,
>)
    ensures
        match r {
            Ok(p) => spec_await(oracle_view(*oracle), url@) == Ok::<(u16, Seq<u8>), EM>(
                (p.0, p.1@),
            ),
            Err(e) => spec_await(oracle_view(*oracle), url@) == Err::<(u16, Seq<u8>), EM>(
                err_view(e),
            ),
        },
{
    match find_outcome(oracle, url) {
        Some(DispatchOutcome::Respond(s, b)) => Ok((s, b)),
        Some(DispatchOutcome::Transport(m)) => Err(ExecutionError::RequestError(m)),
        _ => Err(ExecutionError::RequestError(url.clone())),
    }
}

// ------------------------------------------------------------------
// Elements and tasks
// ------------------------------------------------------------------
/// The opaque completion token of an in-flight fragment request: here, the
/// dispatched URL, which the oracle resolves.
#[derive(Debug, Clone)]
pub struct PendingHandle {
    pub url: String,
}

/// One fragment of the document: the issued request, an optional
/// already-built alternative request to fall back on, the error policy,
/// and the pending completion handle.
#[derive(Debug)]
pub struct Fragment {
    pub request: HttpRequest,
    pub alt: Option<Result<HttpRequest, ExecutionError>>,
    pub continue_on_error: bool,
    pub pending_handle: PendingHandle,
}

/// How far a task has come: still pending, fully drained, or failed on the
/// given request with the given status.
#[derive(Debug)]
pub enum FetchState {
    Failed(HttpRequest, u16),
    Pending,
    Succeeded,
}

/// A section of the pending response: raw bytes, a pending fragment, or a
/// nested `try` block with its two arms.
#[derive(Debug)]
pub enum Element {
    Raw(Vec<u8>),
    Include(Fragment),
    Try { attempt_task: Task, except_task: Task },
}

/// A mini-scheduler: an ordered queue of elements, the buffer its output
/// accumulates in, and its terminal state.
#[derive(Debug)]
pub struct Task {
    pub queue: Vec<Element>,
    pub output: Vec<u8>,
    pub status: FetchState,
}

impl Task {
    /// An empty pending task.
    pub fn new() -> (r: Task)
        ensures
            r.queue@.len() == 0,
            r.output@.len() == 0,
            r.status is Pending,
    {
        Task { queue: Vec::new(), output: Vec::new(), status: FetchState::Pending }
    }
}

// Models of the element tree.
/// The model of a fragment.
pub struct FragModel {
    pub request: ReqModel,
    pub alt: Option<Result<ReqModel, EM>>,
    pub continue_on_error: bool,
    pub url: Seq<char>,
}

/// The model of a task state: the failing URL and status, when failed.
pub enum StateModel {
    MFailed(Seq<char>, u16),
    MPending,
    MSucceeded,
}

/// The model of an element.
pub enum ElemModel {
    Raw(Seq<u8>),
    Inc(FragModel),
    TryB(TaskModel, TaskModel),
}

/// The model of a task.
pub struct TaskModel {
    pub queue: Seq<ElemModel>,
    pub output: Seq<u8>,
    pub status: StateModel,
}

/// The model of an optional alternative request.
pub open spec fn alt_view(a: Option<Result<HttpRequest, ExecutionError>>) -> Option<
    Result<ReqModel, EM>,
> {
    match a {
        Some(Ok(r)) => Some(Ok(req_view(r))),
        Some(Err(e)) => Some(Err(err_view(e))),
        None => None,
    }
}

/// The model of a fragment.
pub open spec fn frag_view(f: Fragment) -> FragModel {
    FragModel {
        request: req_view(f.request),
        alt: alt_view(f.alt),
        continue_on_error: f.continue_on_error,
        url: f.pending_handle.url@,
    }
}

/// The model of a task state.
pub open spec fn state_view(s: FetchState) -> StateModel {
    match s {
        FetchState::Failed(req, code) => StateModel::MFailed(
            url_str_model(url_view(req.url)),
            code,
        ),
        FetchState::Pending => StateModel::MPending,
        FetchState::Succeeded => StateModel::MSucceeded,
    }
}

/// The model of an element.
pub open spec fn elem_view(e: Element) -> ElemModel
    decreases e,
{
    match e {
        Element::Raw(b) => ElemModel::Raw(b@),
        Element::Include(f) => ElemModel::Inc(frag_view(f)),
        Element::Try { attempt_task, except_task } => ElemModel::TryB(
            task_view(attempt_task),
            task_view(except_task),
        ),
    }
}

/// The model of a task.
pub open spec fn task_view(t: Task) -> TaskModel
    decreases t,
{
    TaskModel { queue: elems_view(t.queue@), output: t.output@, status: state_view(t.status) }
}

/// The models of a queue of elements.
pub open spec fn elems_view(q: Seq<Element>) -> Seq<ElemModel>
    decreases q,
{
    if q.len() == 0 {
        Seq::empty()
    } else {
        elems_view(q.drop_last()).push(elem_view(q.last()))
    }
}

/// Element models line up with elements, one to one.
pub proof fn lemma_elems_view(q: Seq<Element>)
    ensures
        elems_view(q).len() == q.len(),
        forall|i: int| 0 <= i < q.len() ==> #[trigger] elems_view(q)[i] == elem_view(q[i]),
    decreases q.len(),
{
    if q.len() > 0 {
        lemma_elems_view(q.drop_last());
    }
}

// ------------------------------------------------------------------
// The meaning of polling
// ------------------------------------------------------------------
/// How one resolved fragment contributes to the output: bytes to write,
/// nothing (a suppressed failure or a skipped dispatch), or a failure of
/// the enclosing task with the failing URL and status.
pub enum Res {
    RBytes(Seq<u8>),
    RNothing,
    RFail(Seq<char>, u16),
}

/// What resolving one fragment yields, and which URLs it dispatches: await
/// the primary; on success its body is written; on failure the alternative
/// request, when present and well-formed, is dispatched exactly once and
/// awaited in its place; a failure with no fallback is suppressed when
/// `onerror` says continue, and otherwise fails the enclosing task.
pub open spec fn spec_resolve_fragment(f: FragModel, oracle: Seq<(Seq<char>, OutcomeModel)>) -> (
    Result<Res, EM>,
    Seq<Seq<char>>,
) {
    match spec_await(oracle, f.url) {
        Err(em) => (Err(em), Seq::empty()),
        Ok((status, body)) => if is_success_spec(status) {
            (Ok(Res::RBytes(body)), Seq::empty())
        } else {
            match f.alt {
                Some(Ok(areq)) => {
                    let aurl = url_str_model(areq.url);
                    let log1 = seq![aurl];
                    match spec_find(oracle, aurl) {
                        Some(OutcomeModel::OSkip) => (Ok(Res::RNothing), log1),
                        _ => match spec_await(oracle, aurl) {
                            Err(em) => (Err(em), log1),
                            Ok((s2, b2)) => if is_success_spec(s2) {
                                (Ok(Res::RBytes(b2)), log1)
                            } else if f.continue_on_error {
                                (Ok(Res::RNothing), log1)
                            } else {
                                (Ok(Res::RFail(url_str_model(areq.url), s2)), log1)
                            },
                        },
                    }
                },
                Some(Err(em)) => (Err(em), Seq::empty()),
                None => if f.continue_on_error {
                    (Ok(Res::RNothing), Seq::empty())
                } else {
                    (Ok(Res::RFail(url_str_model(f.request.url), status)), Seq::empty())
                },
            }
        },
    }
}

/// Prepends bytes to the output of a poll result.
pub open spec fn step_after(
    b: Seq<u8>,
    rest: (Result<(Seq<u8>, Option<(Seq<char>, u16)>), EM>, Seq<Seq<char>>),
) -> (Result<(Seq<u8>, Option<(Seq<char>, u16)>), EM>, Seq<Seq<char>>) {
    match rest.0 {
        Ok((o, st)) => (Ok((b + o, st)), rest.1),
        Err(e) => (Err(e), rest.1),
    }
}

/// Prepends dispatched URLs to the log of a poll result.
pub open spec fn with_log(
    l: Seq<Seq<char>>,
    rest: (Result<(Seq<u8>, Option<(Seq<char>, u16)>), EM>, Seq<Seq<char>>),
) -> (Result<(Seq<u8>, Option<(Seq<char>, u16)>), EM>, Seq<Seq<char>>) {
    (rest.0, l + rest.1)
}

/// What draining a queue yields: the bytes of its elements in queue order,
/// and either success or the first unsuppressed fragment failure, which
/// ends the drain. A `try` block contributes its attempt arm's output when
/// the attempt succeeds; the except arm is then discarded without further
/// work — it is not polled, so nothing of it is awaited or dispatched.
/// Only when the attempt fails is the except arm polled: its output stands
/// in when it succeeds, and otherwise processing ends with the attempt's
/// failure.
pub open spec fn spec_poll_elems(
    q: Seq<ElemModel>,
    oracle: Seq<(Seq<char>, OutcomeModel)>,
) -> (Result<(Seq<u8>, Option<(Seq<char>, u16)>), EM>, Seq<Seq<char>>)
    decreases q, 1nat,
{
    if q.len() == 0 {
        (Ok((Seq::empty(), None)), Seq::empty())
    } else {
        match q[0] {
            ElemModel::Raw(b) => step_after(b, spec_poll_elems(q.drop_first(), oracle)),
            ElemModel::Inc(f) => {
                let (res, log1) = spec_resolve_fragment(f, oracle);
                match res {
                    Err(em) => (Err(em), log1),
                    Ok(Res::RBytes(b)) => with_log(
                        log1,
                        step_after(b, spec_poll_elems(q.drop_first(), oracle)),
                    ),
                    Ok(Res::RNothing) => with_log(log1, spec_poll_elems(q.drop_first(), oracle)),
                    Ok(Res::RFail(u, st)) => (Ok((Seq::empty(), Some((u, st)))), log1),
                }
            },
            ElemModel::TryB(a, e) => {
                let (ar, alog) = spec_poll_task(a, oracle);
                match ar {
                    Err(em) => (Err(em), alog),
                    Ok((aout, astate)) => match astate {
                        None => with_log(
                            alog,
                            step_after(aout, spec_poll_elems(q.drop_first(), oracle)),
                        ),
                        Some((au, ast)) => {
                            let (er, elog) = spec_poll_task(e, oracle);
                            match er {
                                Err(em) => (Err(em), alog + elog),
                                Ok((eout, estate)) => match estate {
                                    None => with_log(
                                        alog + elog,
                                        step_after(eout, spec_poll_elems(q.drop_first(), oracle)),
                                    ),
                                    Some(_) => (Err(EM::Status(au, ast)), alog + elog),
                                },
                            }
                        },
                    },
                }
            },
        }
    }
}

/// What polling a task yields: a task that has already failed keeps its
/// failure; otherwise its queue is drained after its buffered output.
pub open spec fn spec_poll_task(t: TaskModel, oracle: Seq<(Seq<char>, OutcomeModel)>) -> (
    Result<(Seq<u8>, Option<(Seq<char>, u16)>), EM>,
    Seq<Seq<char>>,
)
    decreases t, 0nat,
{
    match t.status {
        StateModel::MFailed(u, s) => (Ok((t.output, Some((u, s)))), Seq::empty()),
        _ => step_after(t.output, spec_poll_elems(t.queue, oracle)),
    }
}

// ------------------------------------------------------------------
// Dispatch and resolution
// ------------------------------------------------------------------
/// Dispatches a fragment request: the URL is logged; a `Skip` answer
/// yields no fragment, anything else a fragment holding the request, the
/// fallback, the error policy and the completion handle.
pub fn send_fragment_request(
    oracle: &FragmentOracle,
    log: &mut Vec<String>,
    req: HttpRequest,
    alt: Option<Result<HttpRequest, ExecutionError>>,
    continue_on_error: bool,
) -> (r: Option<Fragment>)
    ensures
        strs_view(final(log)@) == strs_view(old(log)@).push(url_str_model(url_view(req.url))),
        match r {
            Some(f) => frag_view(f) == (FragModel {
                request: req_view(req),
                alt: alt_view(alt),
                continue_on_error,
                url: url_str_model(url_view(req.url)),
            }) && !(spec_find(oracle_view(*oracle), url_str_model(url_view(req.url))) matches Some(
                OutcomeModel::OSkip,
            )),
            None => spec_find(oracle_view(*oracle), url_str_model(url_view(req.url))) matches Some(
                OutcomeModel::OSkip,
            ),
        },
{
    let url = req.url_str();
    let ghost log0 = strs_view(log@);
    log.push(url.clone());
    proof {
        assert(strs_view(log@) =~= log0.push(url@));
    }
    let skip = match find_outcome(oracle, &url) {
        Some(DispatchOutcome::Skip) => true,
        _ => false,
    };
    if skip {
        None
    } else {
        Some(Fragment { request: req, alt, continue_on_error, pending_handle: PendingHandle { url } })
    }
}

/// How one resolved fragment contributes to the output.
enum Resolution {
    Bytes(Vec<u8>),
    Nothing,
    Fail(HttpRequest, u16),
}

/// The model of a resolution.
spec fn res_view(r: Resolution) -> Res {
    match r {
        Resolution::Bytes(b) => Res::RBytes(b@),
        Resolution::Nothing => Res::RNothing,
        Resolution::Fail(req, s) => Res::RFail(url_str_model(url_view(req.url)), s),
    }
}

/// Awaits a fragment's primary response and applies the fallback rules:
/// alt once, `onerror="continue"` suppression, or failure.
fn resolve_fragment(f: Fragment, oracle: &FragmentOracle, log: &mut Vec<String>) -> (r: Result<
    Resolution,
    ExecutionError,
>)
    ensures
        ({
            let (sres, slog) = spec_resolve_fragment(frag_view(f), oracle_view(*oracle));
            &&& strs_view(final(log)@) == strs_view(old(log)@) + slog
            &&& match r {
                Ok(res) => sres == Ok::<Res, EM>(res_view(res)),
                Err(e) => sres == Err::<Res, EM>(err_view(e)),
            }
        }),
{
    let Fragment { request, alt, continue_on_error, pending_handle } = f;
    let ghost log0 = strs_view(log@);
    proof {
        assert(strs_view(log@) =~= log0 + Seq::<Seq<char>>::empty());
    }
    match await_handle(oracle, &pending_handle.url) {
        Err(e) => Err(e),
        Ok((status, body)) => {
            if is_success(status) {
                Ok(Resolution::Bytes(body))
            } else {
                match alt {
                    Some(Ok(alt_req)) => {
                        let aurl = alt_req.url_str();
                        log.push(aurl.clone());
                        proof {
                            assert(strs_view(log@) =~= log0 + seq![aurl@]);
                        }
                        let skip = match find_outcome(oracle, &aurl) {
                            Some(DispatchOutcome::Skip) => true,
                            _ => false,
                        };
                        if skip {
                            Ok(Resolution::Nothing)
                        } else {
                            match await_handle(oracle, &aurl) {
                                Err(e) => Err(e),
                                Ok((s2, b2)) => {
                                    if is_success(s2) {
                                        Ok(Resolution::Bytes(b2))
                                    } else if continue_on_error {
                                        Ok(Resolution::Nothing)
                                    } else {
                                        Ok(Resolution::Fail(alt_req, s2))
                                    }
                                },
                            }
                        }
                    },
                    Some(Err(e)) => Err(e),
                    None => {
                        if continue_on_error {
                            Ok(Resolution::Nothing)
                        } else {
                            Ok(Resolution::Fail(request, status))
                        }
                    },
                }
            }
        },
    }
}

// ------------------------------------------------------------------
// Polling
// ------------------------------------------------------------------
/// Drains a queue of elements in order: raw bytes pass through, fragments
/// are awaited and resolved, `try` blocks pick one arm's buffered output.
fn run_elements(queue: Vec<Element>, oracle: &FragmentOracle, log: &mut Vec<String>) -> (r: Result<
    (Vec<u8>, FetchState),
    ExecutionError,
>)
    ensures
        ({
            let (sres, slog) = spec_poll_elems(elems_view(queue@), oracle_view(*oracle));
            &&& strs_view(final(log)@) == strs_view(old(log)@) + slog
            &&& match r {
                Ok(p) => sres == Ok::<(Seq<u8>, Option<(Seq<char>, u16)>), EM>(
                    (p.0@, state_summary(p.1)),
                ) && !(p.1 is Pending),
                Err(e) => sres == Err::<(Seq<u8>, Option<(Seq<char>, u16)>), EM>(err_view(e)),
            }
        }),
    decreases queue@, 1nat,
{
    let ghost q0 = elems_view(queue@);
    let ghost log0 = strs_view(log@);
    proof {
        lemma_elems_view(queue@);
    }
    let mut queue = queue;
    if queue.len() == 0 {
        proof {
            assert(strs_view(log@) =~= log0 + Seq::<Seq<char>>::empty());
        }
        let empty: Vec<u8> = Vec::new();
        proof {
            assert(empty@ =~= Seq::<u8>::empty());
        }
        return Ok((empty, FetchState::Succeeded));
    }
    let head = queue.remove(0);
    proof {
        lemma_elems_view(queue@);
        assert(elems_view(queue@) =~= q0.drop_first());
        assert(elem_view(head) == q0[0]);
    }
    match head {
        Element::Raw(b) => {
            match run_elements(queue, oracle, log) {
                Ok((out, st)) => {
                    let mut bytes = b;
                    let mut out = out;
                    let ghost bv = bytes@;
                    let ghost ov = out@;
                    bytes.append(&mut out);
                    proof {
                        assert(bytes@ =~= bv + ov);
                    }
                    Ok((bytes, st))
                },
                Err(e) => Err(e),
            }
        },
        Element::Include(f) => {
            match resolve_fragment(f, oracle, log) {
                Err(e) => {
                    return Err(e);
                },
                Ok(Resolution::Bytes(b)) => {
                    match run_elements(queue, oracle, log) {
                        Ok((out, st)) => {
                            let mut bytes = b;
                            let mut out = out;
                            let ghost bv = bytes@;
                            let ghost ov = out@;
                            bytes.append(&mut out);
                            proof {
                                assert(bytes@ =~= bv + ov);
                            }
                            Ok((bytes, st))
                        },
                        Err(e) => Err(e),
                    }
                },
                Ok(Resolution::Nothing) => run_elements(queue, oracle, log),
                Ok(Resolution::Fail(req, st)) => {
                    let empty: Vec<u8> = Vec::new();
                    proof {
                        assert(empty@ =~= Seq::<u8>::empty());
                    }
                    Ok((empty, FetchState::Failed(req, st)))
                },
            }
        },
        Element::Try { attempt_task, except_task } => {
            let (aout, astate) = match poll_tasks(attempt_task, oracle, log) {
                Ok(p) => p,
                Err(e) => {
                    return Err(e);
                },
            };
            match astate {
                FetchState::Failed(areq, ast) => {
                    let (eout, estate) = match poll_tasks(except_task, oracle, log) {
                        Ok(p) => p,
                        Err(e) => {
                            return Err(e);
                        },
                    };
                    let except_failed = matches!(estate, FetchState::Failed(..));
                    if !except_failed {
                        match run_elements(queue, oracle, log) {
                            Ok((out, st)) => {
                                let mut bytes = eout;
                                let mut out = out;
                                let ghost bv = bytes@;
                                let ghost ov = out@;
                                bytes.append(&mut out);
                                proof {
                                    assert(bytes@ =~= bv + ov);
                                }
                                Ok((bytes, st))
                            },
                            Err(e) => Err(e),
                        }
                    } else {
                        Err(ExecutionError::UnexpectedStatus(areq.url_str(), ast))
                    }
                },
                _ => {
                    match run_elements(queue, oracle, log) {
                        Ok((out, st)) => {
                            let mut bytes = aout;
                            let mut out = out;
                            let ghost bv = bytes@;
                            let ghost ov = out@;
                            bytes.append(&mut out);
                            proof {
                                assert(bytes@ =~= bv + ov);
                            }
                            Ok((bytes, st))
                        },
                        Err(e) => Err(e),
                    }
                },
            }
        },
    }
}

/// The summary of a final task state: the failing URL and status, if any.
pub open spec fn state_summary(s: FetchState) -> Option<(Seq<char>, u16)> {
    match s {
        FetchState::Failed(req, code) => Some((url_str_model(url_view(req.url)), code)),
        _ => None,
    }
}

/// Polls one task to completion: a previously failed task keeps its
/// failure; otherwise its queue is drained into its buffer.
pub fn poll_tasks(task: Task, oracle: &FragmentOracle, log: &mut Vec<String>) -> (r: Result<
    (Vec<u8>, FetchState),
    ExecutionError,
>)
    ensures
        ({
            let (sres, slog) = spec_poll_task(task_view(task), oracle_view(*oracle));
            &&& strs_view(final(log)@) == strs_view(old(log)@) + slog
            &&& match r {
                Ok(p) => sres == Ok::<(Seq<u8>, Option<(Seq<char>, u16)>), EM>(
                    (p.0@, state_summary(p.1)),
                ) && !(p.1 is Pending),
                Err(e) => sres == Err::<(Seq<u8>, Option<(Seq<char>, u16)>), EM>(err_view(e)),
            }
        }),
    decreases task, 2nat,
{
    let Task { queue, output, status } = task;
    let ghost log0 = strs_view(log@);
    match status {
        FetchState::Failed(req, code) => {
            proof {
                assert(strs_view(log@) =~= log0 + Seq::<Seq<char>>::empty());
            }
            Ok((output, FetchState::Failed(req, code)))
        },
        _ => {
            match run_elements(queue, oracle, log) {
                Ok((out, st)) => {
                    let mut bytes = output;
                    let mut out = out;
                    let ghost bv = bytes@;
                    let ghost ov = out@;
                    bytes.append(&mut out);
                    proof {
                        assert(bytes@ =~= bv + ov);
                    }
                    Ok((bytes, st))
                },
                Err(e) => Err(e),
            }
        },
    }
}

/// Drains the root queue into the output: bytes are appended in document
/// order; a failure that survives all fallbacks becomes an
/// `UnexpectedStatus` error carrying the failing URL and status.
pub fn poll_elements(
    elements: Vec<Element>,
    output: &mut Vec<u8>,
    oracle: &FragmentOracle,
    log: &mut Vec<String>,
) -> (r: Result<(), ExecutionError>)
    ensures
        ({
            let (sres, slog) = spec_poll_elems(elems_view(elements@), oracle_view(*oracle));
            &&& strs_view(final(log)@) == strs_view(old(log)@) + slog
            &&& match r {
                Ok(()) => sres matches Ok(p) && p.1 is None && final(output)@ == old(output)@ + p.0,
                Err(e) => (sres matches Ok(p) && p.1 matches Some(f) && err_view(e) == EM::Status(
                    f.0,
                    f.1,
                ) && final(output)@ == old(output)@ + p.0) || (sres matches Err(em) && em
                    == err_view(e) && final(output)@ == old(output)@),
            }
        }),
{
    match run_elements(elements, oracle, log) {
        Ok((out, st)) => {
            let ghost out0 = output@;
            let mut out = out;
            output.append(&mut out);
            match st {
                FetchState::Failed(req, code) => Err(
                    ExecutionError::UnexpectedStatus(req.url_str(), code),
                ),
                _ => Ok(()),
            }
        },
        Err(e) => Err(e),
    }
}

// ------------------------------------------------------------------
// Building elements from events
// ------------------------------------------------------------------
/// Puts one element in front of a queue.
fn cons_element(e: Element, rest: Vec<Element>) -> (q: Vec<Element>)
    ensures
        elems_view(q@) == seq![elem_view(e)] + elems_view(rest@),
{
    let ghost ev = elem_view(e);
    let ghost rv = rest@;
    let mut q: Vec<Element> = Vec::new();
    q.push(e);
    let mut rest = rest;
    q.append(&mut rest);
    proof {
        lemma_elems_view(q@);
        lemma_elems_view(rv);
        assert(q@[0] =~= q@[0]);
        assert(elems_view(q@) =~= seq![ev] + elems_view(rv));
    }
    q
}

/// Puts one element in front of the queue of a build result.
pub open spec fn cons_elem(
    e: ElemModel,
    rest: (Result<Seq<ElemModel>, EM>, Seq<Seq<char>>),
) -> (Result<Seq<ElemModel>, EM>, Seq<Seq<char>>) {
    match rest.0 {
        Ok(q) => (Ok(seq![e] + q), rest.1),
        Err(em) => (Err(em), rest.1),
    }
}

/// Prepends dispatched URLs to the log of a build result.
pub open spec fn with_plog(
    l: Seq<Seq<char>>,
    rest: (Result<Seq<ElemModel>, EM>, Seq<Seq<char>>),
) -> (Result<Seq<ElemModel>, EM>, Seq<Seq<char>>) {
    (rest.0, l + rest.1)
}

/// What building a queue from events yields: verbatim markup becomes raw
/// elements; each `include` builds its primary (and fallback) request from
/// the template, dispatches the primary at once, and becomes a pending
/// fragment unless the dispatch was skipped; each `try` becomes a block of
/// two fresh arm tasks, whose own fragments are dispatched during the same
/// pass.
pub open spec fn spec_parse_task(
    events: Seq<EventM>,
    esc: bool,
    tpl: ReqModel,
    oracle: Seq<(Seq<char>, OutcomeModel)>,
) -> (Result<Seq<ElemModel>, EM>, Seq<Seq<char>>)
    decreases events, 1nat,
{
    if events.len() == 0 {
        (Ok(Seq::empty()), Seq::empty())
    } else {
        match events[0] {
            EventM::MXml(raw) => cons_elem(
                ElemModel::Raw(raw),
                spec_parse_task(events.drop_first(), esc, tpl, oracle),
            ),
            EventM::MInc { src, alt, onerr } => {
                match spec_build_request(tpl, src, esc) {
                    Err(em) => (Err(em), Seq::empty()),
                    Ok(req) => {
                        let altm: Option<Result<ReqModel, EM>> = match alt {
                            Some(a) => Some(spec_build_request(tpl, a, esc)),
                            None => None,
                        };
                        let url = url_str_model(req.url);
                        if spec_find(oracle, url) matches Some(OutcomeModel::OSkip) {
                            with_plog(
                                seq![url],
                                spec_parse_task(events.drop_first(), esc, tpl, oracle),
                            )
                        } else {
                            with_plog(
                                seq![url],
                                cons_elem(
                                    ElemModel::Inc(
                                        FragModel {
                                            request: req,
                                            alt: altm,
                                            continue_on_error: onerr,
                                            url,
                                        },
                                    ),
                                    spec_parse_task(events.drop_first(), esc, tpl, oracle),
                                ),
                            )
                        }
                    },
                }
            },
            EventM::MTry { attempt, except } => {
                let ares = spec_parse_task(attempt, esc, tpl, oracle);
                match ares.0 {
                    Err(em) => (Err(em), ares.1),
                    Ok(aq) => {
                        let eres = spec_parse_task(except, esc, tpl, oracle);
                        match eres.0 {
                            Err(em) => (Err(em), ares.1 + eres.1),
                            Ok(eq) => with_plog(
                                ares.1 + eres.1,
                                cons_elem(
                                    ElemModel::TryB(
                                        TaskModel {
                                            queue: aq,
                                            output: Seq::empty(),
                                            status: StateModel::MPending,
                                        },
                                        TaskModel {
                                            queue: eq,
                                            output: Seq::empty(),
                                            status: StateModel::MPending,
                                        },
                                    ),
                                    spec_parse_task(events.drop_first(), esc, tpl, oracle),
                                ),
                            ),
                        }
                    },
                }
            },
        }
    }
}

/// Builds the element queue for a list of events, dispatching each
/// fragment request as it is met.
pub fn parse_elements(
    events: Vec<Event>,
    is_escaped: bool,
    template: &HttpRequest,
    oracle: &FragmentOracle,
    log: &mut Vec<String>,
) -> (r: Result<Vec<Element>, ExecutionError>)
    ensures
        ({
            let (sres, slog) = spec_parse_task(
                events_view(events@),
                is_escaped,
                req_view(*template),
                oracle_view(*oracle),
            );
            &&& strs_view(final(log)@) == strs_view(old(log)@) + slog
            &&& match r {
                Ok(q) => sres == Ok::<Seq<ElemModel>, EM>(elems_view(q@)),
                Err(e) => sres == Err::<Seq<ElemModel>, EM>(err_view(e)),
            }
        }),
    decreases events@, 1nat,
{
    let ghost ev0 = events@;
    let ghost evm0 = events_view(events@);
    let ghost log0 = strs_view(log@);
    let mut events = events;
    if events.len() == 0 {
        let empty: Vec<Element> = Vec::new();
        proof {
            lemma_events_view(ev0);
            assert(strs_view(log@) =~= log0 + Seq::<Seq<char>>::empty());
            assert(elems_view(empty@) =~= Seq::<ElemModel>::empty());
        }
        return Ok(empty);
    }
    let head = events.remove(0);
    proof {
        assert(events@ =~= ev0.drop_first());
        assert(head == ev0[0]);
        lemma_events_view(ev0);
        lemma_events_view(ev0.drop_first());
        assert(events_view(events@) =~= evm0.drop_first());
        assert(evm0[0] == event_view(head));
    }
    match head {
        Event::XML(raw) => {
            match parse_elements(events, is_escaped, template, oracle, log) {
                Ok(rest) => {
                    let ghost raw_view = raw@;
                    let q = cons_element(Element::Raw(raw), rest);
                    Ok(q)
                },
                Err(e) => Err(e),
            }
        },
        Event::ESI(Tag::Include { src, alt, continue_on_error }) => {
            let req = match build_fragment_request(
                template.clone_request(),
                src.as_str(),
                is_escaped,
            ) {
                Ok(r) => r,
                Err(e) => {
                    return Err(e);
                },
            };
            let alt_req: Option<Result<HttpRequest, ExecutionError>> = match alt {
                Some(a) => Some(
                    build_fragment_request(template.clone_request(), a.as_str(), is_escaped),
                ),
                None => None,
            };
            match send_fragment_request(oracle, log, req, alt_req, continue_on_error) {
                Some(fragment) => {
                    let ghost fv = frag_view(fragment);
                    match parse_elements(events, is_escaped, template, oracle, log) {
                        Ok(rest) => {
                            let q = cons_element(Element::Include(fragment), rest);
                            Ok(q)
                        },
                        Err(e) => Err(e),
                    }
                },
                None => parse_elements(events, is_escaped, template, oracle, log),
            }
        },
        Event::ESI(Tag::Try { attempt_events, except_events }) => {
            let attempt_queue = match parse_elements(
                attempt_events,
                is_escaped,
                template,
                oracle,
                log,
            ) {
                Ok(q) => q,
                Err(e) => {
                    return Err(e);
                },
            };
            let except_queue = match parse_elements(
                except_events,
                is_escaped,
                template,
                oracle,
                log,
            ) {
                Ok(q) => q,
                Err(e) => {
                    return Err(e);
                },
            };
            let attempt_task = Task {
                queue: attempt_queue,
                output: Vec::new(),
                status: FetchState::Pending,
            };
            let except_task = Task {
                queue: except_queue,
                output: Vec::new(),
                status: FetchState::Pending,
            };
            let block = Element::Try { attempt_task, except_task };
            let ghost bv = elem_view(block);
            match parse_elements(events, is_escaped, template, oracle, log) {
                Ok(rest) => {
                    let q = cons_element(block, rest);
                    Ok(q)
                },
                Err(e) => Err(e),
            }
        },
    }
}

/// Builds one arm's task from its events: a fresh pending task whose queue
/// holds the arm's elements, their fragment requests already dispatched.
pub fn parse_task(
    events: Vec<Event>,
    is_escaped: bool,
    template: &HttpRequest,
    oracle: &FragmentOracle,
    log: &mut Vec<String>,
) -> (r: Result<Task, ExecutionError>)
    ensures
        ({
            let (sres, slog) = spec_parse_task(
                events_view(events@),
                is_escaped,
                req_view(*template),
                oracle_view(*oracle),
            );
            &&& strs_view(final(log)@) == strs_view(old(log)@) + slog
            &&& match r {
                Ok(t) => sres == Ok::<Seq<ElemModel>, EM>(task_view(t).queue) && task_view(
                    t,
                ).output =~= Seq::<u8>::empty() && t.status is Pending,
                Err(e) => sres == Err::<Seq<ElemModel>, EM>(err_view(e)),
            }
        }),
{
    match parse_elements(events, is_escaped, template, oracle, log) {
        Ok(queue) => Ok(Task { queue, output: Vec::new(), status: FetchState::Pending }),
        Err(e) => Err(e),
    }
}

// ------------------------------------------------------------------
// Processing a whole event list
// ------------------------------------------------------------------
/// What processing a list of events yields: the element queue is built,
/// dispatching every fragment request in document order, and then drained
/// in document order; an unsuppressed fragment failure ends processing
/// with `UnexpectedStatus` carrying the failing URL and status.
pub open spec fn spec_process(
    events: Seq<EventM>,
    esc: bool,
    tpl: ReqModel,
    oracle: Seq<(Seq<char>, OutcomeModel)>,
) -> (Result<Seq<u8>, EM>, Seq<Seq<char>>) {
    let built = spec_parse_task(events, esc, tpl, oracle);
    match built.0 {
        Err(em) => (Err(em), built.1),
        Ok(q) => {
            let polled = spec_poll_elems(q, oracle);
            match polled.0 {
                Ok((out, None)) => (Ok(out), built.1 + polled.1),
                Ok((out, Some((u, st)))) => (Err(EM::Status(u, st)), built.1 + polled.1),
                Err(em) => (Err(em), built.1 + polled.1),
            }
        },
    }
}

/// Processes a parsed event list against the oracle: builds and dispatches
/// the fragment requests, then assembles the output in document order.
/// Returns the output bytes and the URLs dispatched, in dispatch order.
pub fn process_events(
    events: Vec<Event>,
    is_escaped: bool,
    template: &HttpRequest,
    oracle: &FragmentOracle,
) -> (r: Result<(Vec<u8>, Vec<String>), ExecutionError>)
    ensures
        ({
            let (sres, slog) = spec_process(
                events_view(events@),
                is_escaped,
                req_view(*template),
                oracle_view(*oracle),
            );
            match r {
                Ok(p) => sres == Ok::<Seq<u8>, EM>(p.0@) && strs_view(p.1@) == slog,
                Err(e) => sres == Err::<Seq<u8>, EM>(err_view(e)),
            }
        }),
{
    let mut log: Vec<String> = Vec::new();
    proof {
        assert(strs_view(log@) =~= Seq::<Seq<char>>::empty());
    }
    let elements = match parse_elements(events, is_escaped, template, oracle, &mut log) {
        Ok(q) => q,
        Err(e) => {
            return Err(e);
        },
    };
    let mut output: Vec<u8> = Vec::new();
    match poll_elements(elements, &mut output, oracle, &mut log) {
        Ok(()) => {
            proof {
                assert(output@ =~= Seq::<u8>::empty() + output@);
            }
            Ok((output, log))
        },
        Err(e) => Err(e),
    }
}

} // verus!

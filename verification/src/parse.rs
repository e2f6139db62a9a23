use vstd::prelude::*;
use vstd::string::{StrSliceExecFns, StringSliceAdditionalSpecFns};
use vstd::utf8::{valid_utf8, decode_utf8};
use crate::error::ExecutionError;
use crate::dispatch::{EM, err_view};
use crate::xml::{
    XmlChunk, ChunkM, chunk_raw, chunk_view, chunks_mview, attrs_view, bytes_eq, scan_chunks,
    concat_raws, spec_scan_doc,
};

verus! {

/// A parsed `include` directive.
#[derive(Debug, Clone)]
pub struct Include {
    pub src: String,
    pub alt: Option<String>,
    pub continue_on_error: bool,
}

/// A recognised ESI directive.
#[derive(Debug)]
pub enum Tag {
    Include { src: String, alt: Option<String>, continue_on_error: bool },
    Try { attempt_events: Vec<Event>, except_events: Vec<Event> },
}

/// One event of the parsed document: markup passed through verbatim, or a
/// recognised ESI directive.
#[derive(Debug)]
pub enum Event {
    XML(Vec<u8>),
    ESI(Tag),
}

/// The mathematical value of an event: views in place of strings and byte
/// vectors.
pub enum EventM {
    MXml(Seq<u8>),
    MInc { src: Seq<char>, alt: Option<Seq<char>>, onerr: bool },
    MTry { attempt: Seq<EventM>, except: Seq<EventM> },
}

/// The model of a directive.
pub open spec fn tag_view(t: Tag) -> EventM
    decreases t,
{
    match t {
        Tag::Include { src, alt, continue_on_error } => EventM::MInc {
            src: src@,
            alt: match alt {
                Some(a) => Some(a@),
                None => None,
            },
            onerr: continue_on_error,
        },
        Tag::Try { attempt_events, except_events } => EventM::MTry {
            attempt: events_view(attempt_events@),
            except: events_view(except_events@),
        },
    }
}

/// The model of an event.
pub open spec fn event_view(e: Event) -> EventM
    decreases e,
{
    match e {
        Event::XML(raw) => EventM::MXml(raw@),
        Event::ESI(t) => tag_view(t),
    }
}

/// The models of an event list.
pub open spec fn events_view(q: Seq<Event>) -> Seq<EventM>
    decreases q,
{
    if q.len() == 0 {
        Seq::empty()
    } else {
        events_view(q.drop_last()).push(event_view(q.last()))
    }
}

/// Event models line up with events, one to one.
pub proof fn lemma_events_view(q: Seq<Event>)
    ensures
        events_view(q).len() == q.len(),
        forall|i: int| 0 <= i < q.len() ==> #[trigger] events_view(q)[i] == event_view(q[i]),
    decreases q.len(),
{
    if q.len() > 0 {
        lemma_events_view(q.drop_last());
    }
}

/// Appending one event appends its model.
pub proof fn lemma_events_view_push(q: Seq<Event>, x: Event)
    ensures
        events_view(q.push(x)) == events_view(q).push(event_view(x)),
{
    assert(q.push(x).drop_last() =~= q);
    assert(q.push(x).last() == x);
}

/// The model of a concatenation is the concatenation of the models.
pub proof fn lemma_events_view_concat(a: Seq<Event>, b: Seq<Event>)
    ensures
        events_view(a + b) == events_view(a) + events_view(b),
    decreases b.len(),
{
    if b.len() == 0 {
        assert(a + b =~= a);
        assert(events_view(a) + events_view(b) =~= events_view(a));
    } else {
        lemma_events_view_concat(a, b.drop_last());
        assert((a + b).drop_last() =~= a + b.drop_last());
        assert((a + b).last() == b.last());
        assert(events_view(a) + events_view(b.drop_last()).push(event_view(b.last())) =~= (
        events_view(a) + events_view(b.drop_last())).push(event_view(b.last())));
    }
}

/// Whether an event is verbatim markup.
pub open spec fn event_is_xml(e: Event) -> bool {
    e is XML
}

/// The bytes of a verbatim-markup event.
pub open spec fn event_raw(e: Event) -> Seq<u8> {
    match e {
        Event::XML(raw) => raw@,
        Event::ESI(_) => Seq::empty(),
    }
}

// ------------------------------------------------------------------
// Directive names
// ------------------------------------------------------------------
/// The qualified names recognised under a namespace prefix.
struct EsiTags {
    inc: Vec<u8>,
    comment: Vec<u8>,
    remove: Vec<u8>,
    tryy: Vec<u8>,
    attempt: Vec<u8>,
    except: Vec<u8>,
}

/// Whether `name` is one of the six directive names under the prefix
/// `ns` (as bytes): `ns:include`, `ns:comment`, `ns:remove`, `ns:try`,
/// `ns:attempt`, `ns:except`.
pub open spec fn is_esi_name(name: Seq<u8>, ns: Seq<u8>) -> bool {
    name == ns + ":include".spec_bytes() || name == ns + ":comment".spec_bytes() || name == ns
        + ":remove".spec_bytes() || name == ns + ":try".spec_bytes() || name == ns
        + ":attempt".spec_bytes() || name == ns + ":except".spec_bytes()
}

/// Whether the parser treats this chunk as ESI markup: any tag whose name
/// is a directive name. Everything else is passed through.
pub open spec fn is_esi_chunk(c: XmlChunk, ns: Seq<u8>) -> bool {
    match c {
        XmlChunk::Other { .. } => false,
        XmlChunk::Open { name, .. } => is_esi_name(name@, ns),
        XmlChunk::SelfClose { name, .. } => is_esi_name(name@, ns),
        XmlChunk::Close { name, .. } => is_esi_name(name@, ns),
    }
}

/// Whether no chunk of `chunks[a..b]` is ESI markup.
pub open spec fn xml_only(chunks: Seq<XmlChunk>, a: int, b: int, ns: Seq<u8>) -> bool {
    forall|i: int| a <= i < b ==> !is_esi_chunk(#[trigger] chunks[i], ns)
}

/// Whether `events` passes `chunks` through one to one, byte for byte.
pub open spec fn events_match_chunks(events: Seq<Event>, chunks: Seq<XmlChunk>) -> bool {
    events.len() == chunks.len() && forall|i: int|
        0 <= i < events.len() ==> event_is_xml(#[trigger] events[i]) && event_raw(events[i])
            == chunk_raw(chunks[i])
}

/// `ns:suffix` as bytes.
fn make_name(ns: &str, suffix: &str) -> (r: Vec<u8>)
    ensures
        r@ == ns.spec_bytes() + suffix.spec_bytes(),
{
    let mut v = ns.as_bytes_vec();
    let mut sfx = suffix.as_bytes_vec();
    v.append(&mut sfx);
    v
}

impl EsiTags {
    /// The six qualified directive names under the given prefix.
    fn init(namespace: &str) -> (r: EsiTags)
        ensures
            r.inc@ == namespace.spec_bytes() + ":include".spec_bytes(),
            r.comment@ == namespace.spec_bytes() + ":comment".spec_bytes(),
            r.remove@ == namespace.spec_bytes() + ":remove".spec_bytes(),
            r.tryy@ == namespace.spec_bytes() + ":try".spec_bytes(),
            r.attempt@ == namespace.spec_bytes() + ":attempt".spec_bytes(),
            r.except@ == namespace.spec_bytes() + ":except".spec_bytes(),
    {
        EsiTags {
            inc: make_name(namespace, ":include"),
            comment: make_name(namespace, ":comment"),
            remove: make_name(namespace, ":remove"),
            tryy: make_name(namespace, ":try"),
            attempt: make_name(namespace, ":attempt"),
            except: make_name(namespace, ":except"),
        }
    }
}

// ------------------------------------------------------------------
// Attributes
// ------------------------------------------------------------------
/// The value of the first attribute named `name`.
pub open spec fn attr_lookup(attrs: Seq<(Seq<u8>, Seq<u8>)>, name: Seq<u8>) -> Option<Seq<u8>>
    decreases attrs.len(),
{
    if attrs.len() == 0 {
        None
    } else if attrs[0].0 == name {
        Some(attrs[0].1)
    } else {
        attr_lookup(attrs.drop_first(), name)
    }
}

/// Finds the first attribute named `name` and returns its value bytes.
fn attr_lookup_exec(attrs: &Vec<(Vec<u8>, Vec<u8>)>, name: &Vec<u8>) -> (r: Option<Vec<u8>>)
    ensures
        match r {
            Some(v) => attr_lookup(attrs_view(attrs@), name@) == Some(v@),
            None => attr_lookup(attrs_view(attrs@), name@) is None,
        },
{
    let ghost av = attrs_view(attrs@);
    let n = attrs.len();
    proof {
        assert(av.subrange(0, n as int) =~= av);
    }
    let mut i: usize = 0;
    while i < n
        invariant
            n == attrs@.len(),
            av == attrs_view(attrs@),
            av.len() == n,
            0 <= i <= n,
            attr_lookup(av, name@) == attr_lookup(av.subrange(i as int, n as int), name@),
        decreases n - i,
    {
        proof {
            let cur = av.subrange(i as int, n as int);
            assert(cur[0] == av[i as int]);
            assert(av[i as int] == (attrs@[i as int].0@, attrs@[i as int].1@));
            assert(cur.drop_first() =~= av.subrange(i + 1, n as int));
        }
        if bytes_eq(&attrs[i].0, name) {
            let mut out: Vec<u8> = Vec::new();
            let m = attrs[i].1.len();
            let mut j: usize = 0;
            while j < m
                invariant
                    i < attrs@.len(),
                    m == attrs@[i as int].1@.len(),
                    0 <= j <= m,
                    out@ =~= attrs@[i as int].1@.subrange(0, j as int),
                decreases m - j,
            {
                out.push(attrs[i].1[j]);
                j = j + 1;
            }
            proof {
                assert(out@ =~= attrs@[i as int].1@);
            }
            return Some(out);
        }
        i = i + 1;
    }
    proof {
        assert(av.subrange(n as int, n as int) =~= Seq::<(Seq<u8>, Seq<u8>)>::empty());
    }
    None
}

/// A name for what `String::from_utf8_lossy` returns: the characters the
/// bytes decode to, invalid sequences replaced; a function of the bytes
/// alone.
pub uninterp spec fn lossy_utf8(b: Seq<u8>) -> Seq<char>;

/// The characters of UTF-8 bytes.
///
/// Relies on `String::from_utf8_lossy`: the result is a function of the
/// bytes alone, and valid UTF-8 decodes to exactly its characters.
#[verifier::external_body]
pub fn bytes_to_string(v: &Vec<u8>) -> (r: String)
    ensures
        r@ == lossy_utf8(v@),
        valid_utf8(v@) ==> r@ == decode_utf8(v@),
{
    String::from_utf8_lossy(v.as_slice()).into_owned()
}

/// An `UnexpectedClosingTag` error naming the offending tag.
fn unexpected_closing_tag_error(name: &Vec<u8>) -> (e: ExecutionError)
    ensures
        e matches ExecutionError::UnexpectedClosingTag(t) && t@ == lossy_utf8(name@),
{
    ExecutionError::UnexpectedClosingTag(bytes_to_string(name))
}

/// An `UnexpectedOpeningTag` error naming the offending tag.
fn unexpected_opening_tag_error(name: &Vec<u8>) -> (e: ExecutionError)
    ensures
        e matches ExecutionError::UnexpectedOpeningTag(t) && t@ == lossy_utf8(name@),
{
    ExecutionError::UnexpectedOpeningTag(bytes_to_string(name))
}

/// What reading an `include` tag's attributes yields: `src` is required
/// and decoded, `alt` optional and decoded, and `onerror` counts only as
/// the literal value `continue`; a missing `src` names the tag in the
/// error.
pub open spec fn spec_parse_include(name: Seq<u8>, attrs: Seq<(Seq<u8>, Seq<u8>)>) -> Result<
    EventM,
    EM,
> {
    match attr_lookup(attrs, "src".spec_bytes()) {
        None => Err(EM::MissingParam(lossy_utf8(name), "src"@)),
        Some(sb) => Ok(
            EventM::MInc {
                src: lossy_utf8(sb),
                alt: match attr_lookup(attrs, "alt".spec_bytes()) {
                    Some(ab) => Some(lossy_utf8(ab)),
                    None => None,
                },
                onerr: attr_lookup(attrs, "onerror".spec_bytes()) == Some("continue".spec_bytes()),
            },
        ),
    }
}

/// Reads an `include` tag's attributes: `src` is required, `alt` optional,
/// and `onerror` counts only as the literal value `continue`.
fn parse_include(name: &Vec<u8>, attrs: &Vec<(Vec<u8>, Vec<u8>)>) -> (r: Result<
    Tag,
    ExecutionError,
>)
    ensures
        match r {
            Ok(t) => spec_parse_include(name@, attrs_view(attrs@)) == Ok::<EventM, EM>(tag_view(t)),
            Err(e) => spec_parse_include(name@, attrs_view(attrs@)) == Err::<EventM, EM>(
                err_view(e),
            ),
        },
        r matches Ok(t) ==> (t matches Tag::Include { src, alt, continue_on_error } && (valid_utf8(
            attr_lookup(attrs_view(attrs@), "src".spec_bytes())->Some_0,
        ) ==> src@ == decode_utf8(attr_lookup(attrs_view(attrs@), "src".spec_bytes())->Some_0)) && (
        match attr_lookup(attrs_view(attrs@), "alt".spec_bytes()) {
            Some(b) => alt matches Some(a) && (valid_utf8(b) ==> a@ == decode_utf8(b)),
            None => alt is None,
        })),
{
    let src_bytes = match attr_lookup_exec(attrs, &"src".as_bytes_vec()) {
        Some(v) => v,
        None => {
            return Err(
                ExecutionError::MissingRequiredParameter(
                    bytes_to_string(name),
                    "src".to_owned(),
                ),
            );
        },
    };
    let src = bytes_to_string(&src_bytes);
    let alt = match attr_lookup_exec(attrs, &"alt".as_bytes_vec()) {
        Some(v) => Some(bytes_to_string(&v)),
        None => None,
    };
    let continue_on_error = match attr_lookup_exec(attrs, &"onerror".as_bytes_vec()) {
        Some(v) => bytes_eq(&v, &"continue".as_bytes_vec()),
        None => false,
    };
    Ok(Tag::Include { src, alt, continue_on_error })
}

// ------------------------------------------------------------------
// The directive parser
// ------------------------------------------------------------------
/// Where the parser stands inside a `try` block.
#[derive(Debug, Clone, Copy, PartialEq, Eq, Structural)]
pub enum TryArm {
    Try,
    Attempt,
    Except,
}

/// Whether the parser treats this chunk model as ESI markup.
pub open spec fn is_esi_chunk_m(c: ChunkM, ns: Seq<u8>) -> bool {
    match c {
        ChunkM::MOther { .. } => false,
        ChunkM::MOpen { name, .. } => is_esi_name(name, ns),
        ChunkM::MSelfClose { name, .. } => is_esi_name(name, ns),
        ChunkM::MClose { name, .. } => is_esi_name(name, ns),
    }
}

/// Where one pass of the directive parser stops: the top-level events and
/// the enclosing arm's events it has accumulated, the position it stopped
/// at, and the try depth and arm state it left behind.
pub struct ParseFrame {
    pub out: Seq<EventM>,
    pub task: Seq<EventM>,
    pub pos: int,
    pub depth: int,
    pub arm: Option<TryArm>,
}

/// What the directive parser does with the chunks from `pos` on, given its
/// whole state: `depth` open `try` blocks and the current `arm`; whether a
/// `remove` block or an open `include` is swallowing chunks; the events of
/// the enclosing arms gathered so far (`attempt`, `except`); and the
/// top-level (`out`) and nested (`task`) events already emitted. One chunk
/// is handled per step: directive names under the namespace drive the
/// state machine, and every other chunk passes through as verbatim markup,
/// to `out` at depth zero and to `task` inside a `try`. The parse stops at
/// the end of the chunks or just past a closing arm tag, and fails on a
/// missing `src`, an arm tag outside `try`, or an unmatched closing tag.
/// The position guards before the continuations always hold of the
/// parser's positions and only serve termination.
pub open spec fn spec_do_parse(
    chunks: Seq<ChunkM>,
    pos: int,
    depth: int,
    arm: Option<TryArm>,
    in_remove: bool,
    in_include: bool,
    attempt: Seq<EventM>,
    except: Seq<EventM>,
    out: Seq<EventM>,
    task: Seq<EventM>,
    ns: Seq<u8>,
) -> Result<ParseFrame, EM>
    decreases chunks.len() - pos, 0nat,
{
    if !(0 <= pos < chunks.len()) {
        Ok(ParseFrame { out, task, pos, depth, arm })
    } else {
        match chunks[pos] {
            ChunkM::MOpen { name, attrs, raw } => {
                if name == ns + ":remove".spec_bytes() {
                    spec_do_parse(
                        chunks, pos + 1, depth, arm, true, in_include, attempt, except, out, task, ns,
                    )
                } else if in_remove {
                    spec_do_parse(
                        chunks, pos + 1, depth, arm, in_remove, in_include, attempt, except, out,
                        task, ns,
                    )
                } else if name == ns + ":include".spec_bytes() {
                    if in_include {
                        spec_do_parse(
                            chunks, pos + 1, depth, arm, in_remove, in_include, attempt, except,
                            out, task, ns,
                        )
                    } else {
                        match spec_parse_include(name, attrs) {
                            Err(em) => Err(em),
                            Ok(ev) => if depth == 0 {
                                spec_do_parse(
                                    chunks, pos + 1, depth, arm, in_remove, true, attempt, except,
                                    out.push(ev), task, ns,
                                )
                            } else {
                                spec_do_parse(
                                    chunks, pos + 1, depth, arm, in_remove, true, attempt, except,
                                    out, task.push(ev), ns,
                                )
                            },
                        }
                    }
                } else if in_include {
                    spec_do_parse(
                        chunks, pos + 1, depth, arm, in_remove, in_include, attempt, except, out,
                        task, ns,
                    )
                } else if name == ns + ":try".spec_bytes() {
                    if depth == usize::MAX as int {
                        Err(EM::Xml("try blocks nest too deeply"@))
                    } else {
                        spec_do_parse(
                            chunks, pos + 1, depth + 1, Some(TryArm::Try), in_remove, in_include,
                            attempt, except, out, task, ns,
                        )
                    }
                } else if name == ns + ":attempt".spec_bytes() || name == ns
                    + ":except".spec_bytes() {
                    if !(arm == Some(TryArm::Try)) {
                        Err(EM::UnexpectedOpen(lossy_utf8(name)))
                    } else {
                        let into_attempt = name == ns + ":attempt".spec_bytes();
                        let inner = spec_do_parse(
                            chunks,
                            pos + 1,
                            depth,
                            if into_attempt {
                                Some(TryArm::Attempt)
                            } else {
                                Some(TryArm::Except)
                            },
                            false,
                            false,
                            Seq::empty(),
                            Seq::empty(),
                            out,
                            Seq::empty(),
                            ns,
                        );
                        match inner {
                            Err(em) => Err(em),
                            Ok(fr) => if pos < fr.pos && fr.pos <= chunks.len() {
                                if into_attempt {
                                    spec_do_parse(
                                        chunks, fr.pos, fr.depth, fr.arm, in_remove, in_include,
                                        attempt + fr.task, except, fr.out, task, ns,
                                    )
                                } else {
                                    spec_do_parse(
                                        chunks, fr.pos, fr.depth, fr.arm, in_remove, in_include,
                                        attempt, except + fr.task, fr.out, task, ns,
                                    )
                                }
                            } else {
                                Err(EM::Xml("the arm parse did not advance"@))
                            },
                        }
                    }
                } else {
                    if depth == 0 {
                        spec_do_parse(
                            chunks, pos + 1, depth, arm, in_remove, in_include, attempt, except,
                            out.push(EventM::MXml(raw)), task, ns,
                        )
                    } else {
                        spec_do_parse(
                            chunks, pos + 1, depth, arm, in_remove, in_include, attempt, except,
                            out, task.push(EventM::MXml(raw)), ns,
                        )
                    }
                }
            },
            ChunkM::MSelfClose { name, attrs, raw } => {
                if in_remove {
                    spec_do_parse(
                        chunks, pos + 1, depth, arm, in_remove, in_include, attempt, except, out,
                        task, ns,
                    )
                } else if name == ns + ":include".spec_bytes() {
                    match spec_parse_include(name, attrs) {
                        Err(em) => Err(em),
                        Ok(ev) => if depth == 0 {
                            spec_do_parse(
                                chunks, pos + 1, depth, arm, in_remove, in_include, attempt,
                                except, out.push(ev), task, ns,
                            )
                        } else {
                            spec_do_parse(
                                chunks, pos + 1, depth, arm, in_remove, in_include, attempt,
                                except, out, task.push(ev), ns,
                            )
                        },
                    }
                } else if in_include {
                    spec_do_parse(
                        chunks, pos + 1, depth, arm, in_remove, in_include, attempt, except, out,
                        task, ns,
                    )
                } else if name == ns + ":comment".spec_bytes() {
                    spec_do_parse(
                        chunks, pos + 1, depth, arm, in_remove, in_include, attempt, except, out,
                        task, ns,
                    )
                } else {
                    if depth == 0 {
                        spec_do_parse(
                            chunks, pos + 1, depth, arm, in_remove, in_include, attempt, except,
                            out.push(EventM::MXml(raw)), task, ns,
                        )
                    } else {
                        spec_do_parse(
                            chunks, pos + 1, depth, arm, in_remove, in_include, attempt, except,
                            out, task.push(EventM::MXml(raw)), ns,
                        )
                    }
                }
            },
            ChunkM::MClose { name, raw } => {
                if name == ns + ":remove".spec_bytes() {
                    if !in_remove {
                        Err(EM::UnexpectedClose(lossy_utf8(name)))
                    } else {
                        spec_do_parse(
                            chunks, pos + 1, depth, arm, false, in_include, attempt, except, out,
                            task, ns,
                        )
                    }
                } else if in_remove {
                    spec_do_parse(
                        chunks, pos + 1, depth, arm, in_remove, in_include, attempt, except, out,
                        task, ns,
                    )
                } else if name == ns + ":include".spec_bytes() {
                    if !in_include {
                        Err(EM::UnexpectedClose(lossy_utf8(name)))
                    } else {
                        spec_do_parse(
                            chunks, pos + 1, depth, arm, in_remove, false, attempt, except, out,
                            task, ns,
                        )
                    }
                } else if in_include {
                    spec_do_parse(
                        chunks, pos + 1, depth, arm, in_remove, in_include, attempt, except, out,
                        task, ns,
                    )
                } else if name == ns + ":try".spec_bytes() {
                    if depth == 0 {
                        Err(EM::UnexpectedClose(lossy_utf8(name)))
                    } else {
                        let ev = EventM::MTry { attempt, except };
                        if depth == 1 {
                            spec_do_parse(
                                chunks, pos + 1, depth - 1, None, in_remove, in_include,
                                Seq::empty(), Seq::empty(), out.push(ev), task, ns,
                            )
                        } else {
                            spec_do_parse(
                                chunks, pos + 1, depth - 1, None, in_remove, in_include,
                                Seq::empty(), Seq::empty(), out, task.push(ev), ns,
                            )
                        }
                    }
                } else if name == ns + ":attempt".spec_bytes() || name == ns
                    + ":except".spec_bytes() {
                    if depth == 0 {
                        Err(EM::UnexpectedClose(lossy_utf8(name)))
                    } else {
                        Ok(ParseFrame { out, task, pos: pos + 1, depth, arm: Some(TryArm::Try) })
                    }
                } else {
                    if depth == 0 {
                        spec_do_parse(
                            chunks, pos + 1, depth, arm, in_remove, in_include, attempt, except,
                            out.push(EventM::MXml(raw)), task, ns,
                        )
                    } else {
                        spec_do_parse(
                            chunks, pos + 1, depth, arm, in_remove, in_include, attempt, except,
                            out, task.push(EventM::MXml(raw)), ns,
                        )
                    }
                }
            },
            ChunkM::MOther { raw } => {
                if in_remove || in_include {
                    spec_do_parse(
                        chunks, pos + 1, depth, arm, in_remove, in_include, attempt, except, out,
                        task, ns,
                    )
                } else {
                    if depth == 0 {
                        spec_do_parse(
                            chunks, pos + 1, depth, arm, in_remove, in_include, attempt, except,
                            out.push(EventM::MXml(raw)), task, ns,
                        )
                    } else {
                        spec_do_parse(
                            chunks, pos + 1, depth, arm, in_remove, in_include, attempt, except,
                            out, task.push(EventM::MXml(raw)), ns,
                        )
                    }
                }
            },
        }
    }
}

/// Walks the chunks from `start`, emitting top-level events into `out` and
/// nested events into the returned task list, until the chunks end or the
/// enclosing arm closes. When the walked range holds no ESI markup at the
/// top level, it is passed through one chunk per event, byte for byte.
fn do_parse(
    chunks: &Vec<XmlChunk>,
    start: usize,
    out: &mut Vec<Event>,
    depth: &mut usize,
    arm: &mut Option<TryArm>,
    tags: &EsiTags,
    ns: &str,
) -> (r: Result<(Vec<Event>, usize), ExecutionError>)
    requires
        start <= chunks@.len(),
        tags.inc@ == ns.spec_bytes() + ":include".spec_bytes(),
        tags.comment@ == ns.spec_bytes() + ":comment".spec_bytes(),
        tags.remove@ == ns.spec_bytes() + ":remove".spec_bytes(),
        tags.tryy@ == ns.spec_bytes() + ":try".spec_bytes(),
        tags.attempt@ == ns.spec_bytes() + ":attempt".spec_bytes(),
        tags.except@ == ns.spec_bytes() + ":except".spec_bytes(),
    ensures
        r matches Ok((task, p)) ==> start <= p <= chunks@.len(),
        (r is Ok && xml_only(chunks@, start as int, r->Ok_0.1 as int, ns.spec_bytes()) && *old(
            depth,
        ) == 0) ==> {
            &&& *final(depth) == 0
            &&& final(out)@.len() == old(out)@.len() + (r->Ok_0.1 - start)
            &&& final(out)@.subrange(0, old(out)@.len() as int) == old(out)@
            &&& forall|i: int|
                0 <= i < r->Ok_0.1 - start ==> event_is_xml(
                    #[trigger] final(out)@[old(out)@.len() + i],
                ) && event_raw(final(out)@[old(out)@.len() + i]) == chunk_raw(chunks@[start + i])
        },
        (r is Ok && xml_only(chunks@, start as int, chunks@.len() as int, ns.spec_bytes()) && *old(
            depth,
        ) == 0) ==> r->Ok_0.1 == chunks@.len(),
        ({
            let sr = spec_do_parse(
                chunks_mview(chunks@),
                start as int,
                *old(depth) as int,
                *old(arm),
                false,
                false,
                Seq::empty(),
                Seq::empty(),
                events_view(old(out)@),
                Seq::empty(),
                ns.spec_bytes(),
            );
            match r {
                Ok((task, p)) => sr == Ok::<ParseFrame, EM>(
                    ParseFrame {
                        out: events_view(final(out)@),
                        task: events_view(task@),
                        pos: p as int,
                        depth: *final(depth) as int,
                        arm: *final(arm),
                    },
                ),
                Err(e) => sr == Err::<ParseFrame, EM>(err_view(e)),
            }
        }),
    decreases chunks@.len() - start,
{
    let n = chunks.len();
    let mut task: Vec<Event> = Vec::new();
    let mut attempt_events: Vec<Event> = Vec::new();
    let mut except_events: Vec<Event> = Vec::new();
    let mut is_remove_tag = false;
    let mut open_include = false;
    let mut pos: usize = start;
    let ghost out0 = out@;
    let ghost cm = chunks_mview(chunks@);
    let ghost nsb = ns.spec_bytes();
    let ghost goal = spec_do_parse(
        cm,
        start as int,
        *depth as int,
        *arm,
        false,
        false,
        Seq::empty(),
        Seq::empty(),
        events_view(out@),
        Seq::empty(),
        nsb,
    );
    proof {
        assert(events_view(task@) == Seq::<EventM>::empty());
        assert(events_view(attempt_events@) == Seq::<EventM>::empty());
        assert(events_view(except_events@) == Seq::<EventM>::empty());
        assert(spec_do_parse(
            chunks_mview(chunks@),
            start as int,
            *old(depth) as int,
            *old(arm),
            false,
            false,
            Seq::empty(),
            Seq::empty(),
            events_view(old(out)@),
            Seq::empty(),
            ns.spec_bytes(),
        ) == goal);
    }
    while pos < n
        invariant
            n == chunks@.len(),
            start <= pos <= n,
            tags.inc@ == ns.spec_bytes() + ":include".spec_bytes(),
            tags.comment@ == ns.spec_bytes() + ":comment".spec_bytes(),
            tags.remove@ == ns.spec_bytes() + ":remove".spec_bytes(),
            tags.tryy@ == ns.spec_bytes() + ":try".spec_bytes(),
            tags.attempt@ == ns.spec_bytes() + ":attempt".spec_bytes(),
            tags.except@ == ns.spec_bytes() + ":except".spec_bytes(),
            cm == chunks_mview(chunks@),
            nsb == ns.spec_bytes(),
            goal == spec_do_parse(
                cm,
                start as int,
                *old(depth) as int,
                *old(arm),
                false,
                false,
                Seq::empty(),
                Seq::empty(),
                events_view(old(out)@),
                Seq::empty(),
                nsb,
            ),
            goal == spec_do_parse(
                cm,
                pos as int,
                *depth as int,
                *arm,
                is_remove_tag,
                open_include,
                events_view(attempt_events@),
                events_view(except_events@),
                events_view(out@),
                events_view(task@),
                nsb,
            ),
            (xml_only(chunks@, start as int, pos as int, ns.spec_bytes()) && *old(depth) == 0)
                ==> {
                &&& *depth == 0
                &&& !is_remove_tag
                &&& !open_include
                &&& out@.len() == out0.len() + (pos - start)
                &&& out@.subrange(0, out0.len() as int) == out0
                &&& forall|i: int|
                    0 <= i < pos - start ==> event_is_xml(#[trigger] out@[out0.len() + i])
                        && event_raw(out@[out0.len() + i]) == chunk_raw(chunks@[start + i])
            },
        decreases n - pos,
    {
        let ghost pre_pos = pos;
        let ghost lhs = spec_do_parse(
            cm,
            pos as int,
            *depth as int,
            *arm,
            is_remove_tag,
            open_include,
            events_view(attempt_events@),
            events_view(except_events@),
            events_view(out@),
            events_view(task@),
            nsb,
        );
        let chunk = &chunks[pos];
        proof {
            assert(cm[pos as int] == chunk_view(chunks@[pos as int]));
            assert(goal == lhs);
        }
        match chunk {
            XmlChunk::Open { name, attributes, raw } => {
                if bytes_eq(name, &tags.remove) {
                    is_remove_tag = true;
                    pos = pos + 1;
                } else if is_remove_tag {
                    pos = pos + 1;
                } else if bytes_eq(name, &tags.inc) {
                    if open_include {
                        pos = pos + 1;
                    } else {
                        open_include = true;
                        let tag = match parse_include(name, attributes) {
                            Ok(t) => t,
                            Err(e) => {
                                proof {
                                    assert(goal == Err::<ParseFrame, EM>(err_view(e)));
                                }
                                return Err(e);
                            },
                        };
                        let ev = Event::ESI(tag);
                        if *depth == 0 {
                            proof {
                                lemma_events_view_push(out@, ev);
                            }
                            out.push(ev);
                        } else {
                            proof {
                                lemma_events_view_push(task@, ev);
                            }
                            task.push(ev);
                        }
                        pos = pos + 1;
                    }
                } else if open_include {
                    pos = pos + 1;
                } else if bytes_eq(name, &tags.tryy) {
                    if *depth == usize::MAX {
                        let err = ExecutionError::XmlParseError(
                            "try blocks nest too deeply".to_owned(),
                        );
                        proof {
                            assert(goal == Err::<ParseFrame, EM>(err_view(err)));
                        }
                        return Err(err);
                    }
                    *arm = Some(TryArm::Try);
                    *depth = *depth + 1;
                    pos = pos + 1;
                } else if bytes_eq(name, &tags.attempt) || bytes_eq(name, &tags.except) {
                    if !matches!(*arm, Some(TryArm::Try)) {
                        let err = unexpected_opening_tag_error(name);
                        proof {
                            assert(goal == Err::<ParseFrame, EM>(err_view(err)));
                        }
                        return Err(err);
                    }
                    let into_attempt = bytes_eq(name, &tags.attempt);
                    if into_attempt {
                        *arm = Some(TryArm::Attempt);
                    } else {
                        *arm = Some(TryArm::Except);
                    }
                    match do_parse(chunks, pos + 1, out, depth, arm, tags, ns) {
                        Ok((mut events, p2)) => {
                            if into_attempt {
                                proof {
                                    lemma_events_view_concat(attempt_events@, events@);
                                }
                                attempt_events.append(&mut events);
                            } else {
                                proof {
                                    lemma_events_view_concat(except_events@, events@);
                                }
                                except_events.append(&mut events);
                            }
                            pos = p2;
                        },
                        Err(e) => {
                            proof {
                                assert(goal == Err::<ParseFrame, EM>(err_view(e)));
                            }
                            return Err(e);
                        },
                    }
                } else {
                    let ev = Event::XML(raw.clone());
                    if *depth == 0 {
                        proof {
                            lemma_events_view_push(out@, ev);
                        }
                        out.push(ev);
                    } else {
                        proof {
                            lemma_events_view_push(task@, ev);
                        }
                        task.push(ev);
                    }
                    pos = pos + 1;
                }
            },
            XmlChunk::SelfClose { name, attributes, raw } => {
                if is_remove_tag {
                    pos = pos + 1;
                } else if bytes_eq(name, &tags.inc) {
                    let tag = match parse_include(name, attributes) {
                        Ok(t) => t,
                        Err(e) => {
                            proof {
                                assert(goal == Err::<ParseFrame, EM>(err_view(e)));
                            }
                            return Err(e);
                        },
                    };
                    let ev = Event::ESI(tag);
                    if *depth == 0 {
                        proof {
                            lemma_events_view_push(out@, ev);
                        }
                        out.push(ev);
                    } else {
                        proof {
                            lemma_events_view_push(task@, ev);
                        }
                        task.push(ev);
                    }
                    pos = pos + 1;
                } else if open_include {
                    pos = pos + 1;
                } else if bytes_eq(name, &tags.comment) {
                    pos = pos + 1;
                } else {
                    let ev = Event::XML(raw.clone());
                    if *depth == 0 {
                        proof {
                            lemma_events_view_push(out@, ev);
                        }
                        out.push(ev);
                    } else {
                        proof {
                            lemma_events_view_push(task@, ev);
                        }
                        task.push(ev);
                    }
                    pos = pos + 1;
                }
            },
            XmlChunk::Close { name, raw } => {
                if bytes_eq(name, &tags.remove) {
                    if !is_remove_tag {
                        let err = unexpected_closing_tag_error(name);
                        proof {
                            assert(goal == Err::<ParseFrame, EM>(err_view(err)));
                        }
                        return Err(err);
                    }
                    is_remove_tag = false;
                    pos = pos + 1;
                } else if is_remove_tag {
                    pos = pos + 1;
                } else if bytes_eq(name, &tags.inc) {
                    if !open_include {
                        let err = unexpected_closing_tag_error(name);
                        proof {
                            assert(goal == Err::<ParseFrame, EM>(err_view(err)));
                        }
                        return Err(err);
                    }
                    open_include = false;
                    pos = pos + 1;
                } else if open_include {
                    pos = pos + 1;
                } else if bytes_eq(name, &tags.tryy) {
                    *arm = None;
                    if *depth == 0 {
                        let err = unexpected_closing_tag_error(name);
                        proof {
                            assert(goal == Err::<ParseFrame, EM>(err_view(err)));
                        }
                        return Err(err);
                    }
                    let a = attempt_events;
                    let e = except_events;
                    attempt_events = Vec::new();
                    except_events = Vec::new();
                    let tag = Event::ESI(Tag::Try { attempt_events: a, except_events: e });
                    if *depth == 1 {
                        proof {
                            lemma_events_view_push(out@, tag);
                        }
                        out.push(tag);
                    } else {
                        proof {
                            lemma_events_view_push(task@, tag);
                        }
                        task.push(tag);
                    }
                    proof {
                        assert(events_view(attempt_events@) == Seq::<EventM>::empty());
                        assert(events_view(except_events@) == Seq::<EventM>::empty());
                    }
                    *depth = *depth - 1;
                    pos = pos + 1;
                } else if bytes_eq(name, &tags.attempt) || bytes_eq(name, &tags.except) {
                    *arm = Some(TryArm::Try);
                    if *depth == 0 {
                        let err = unexpected_closing_tag_error(name);
                        proof {
                            assert(goal == Err::<ParseFrame, EM>(err_view(err)));
                        }
                        return Err(err);
                    }
                    proof {
                        assert(goal == Ok::<ParseFrame, EM>(
                            ParseFrame {
                                out: events_view(out@),
                                task: events_view(task@),
                                pos: pos + 1,
                                depth: *depth as int,
                                arm: Some(TryArm::Try),
                            },
                        ));
                    }
                    return Ok((task, pos + 1));
                } else {
                    let ev = Event::XML(raw.clone());
                    if *depth == 0 {
                        proof {
                            lemma_events_view_push(out@, ev);
                        }
                        out.push(ev);
                    } else {
                        proof {
                            lemma_events_view_push(task@, ev);
                        }
                        task.push(ev);
                    }
                    pos = pos + 1;
                }
            },
            XmlChunk::Other { raw } => {
                if is_remove_tag || open_include {
                    pos = pos + 1;
                } else {
                    let ev = Event::XML(raw.clone());
                    if *depth == 0 {
                        proof {
                            lemma_events_view_push(out@, ev);
                        }
                        out.push(ev);
                    } else {
                        proof {
                            lemma_events_view_push(task@, ev);
                        }
                        task.push(ev);
                    }
                    pos = pos + 1;
                }
            },
        }
        proof {
            if xml_only(chunks@, start as int, pos as int, ns.spec_bytes()) && *old(depth) == 0 {
                assert(!is_esi_chunk(chunks@[pre_pos as int], ns.spec_bytes()));
                assert(out@.subrange(0, out0.len() as int) =~= out0);
            }
        }
    }
    proof {
        assert(goal == Ok::<ParseFrame, EM>(
            ParseFrame {
                out: events_view(out@),
                task: events_view(task@),
                pos: pos as int,
                depth: *depth as int,
                arm: *arm,
            },
        ));
    }
    Ok((task, pos))
}

/// What parsing a chunked document yields: the top-level events of one
/// full parser pass from a clean state.
pub open spec fn spec_parse_chunks(chunks: Seq<ChunkM>, ns: Seq<u8>) -> Result<Seq<EventM>, EM> {
    match spec_do_parse(
        chunks,
        0,
        0,
        None,
        false,
        false,
        Seq::empty(),
        Seq::empty(),
        Seq::empty(),
        Seq::empty(),
        ns,
    ) {
        Ok(fr) => Ok(fr.out),
        Err(em) => Err(em),
    }
}

/// Parses a chunked document under the given namespace into events:
/// recognised directives become `ESI` events; everything else passes
/// through. A document with no ESI markup maps to its chunks one to one.
pub fn parse_chunks(namespace: &str, chunks: &Vec<XmlChunk>) -> (r: Result<
    Vec<Event>,
    ExecutionError,
>)
    ensures
        (r is Ok && xml_only(
            chunks@,
            0,
            chunks@.len() as int,
            namespace.spec_bytes(),
        )) ==> events_match_chunks(r->Ok_0@, chunks@),
        match r {
            Ok(events) => spec_parse_chunks(chunks_mview(chunks@), namespace.spec_bytes()) == Ok::<
                Seq<EventM>,
                EM,
            >(events_view(events@)),
            Err(e) => spec_parse_chunks(chunks_mview(chunks@), namespace.spec_bytes()) == Err::<
                Seq<EventM>,
                EM,
            >(err_view(e)),
        },
{
    let tags = EsiTags::init(namespace);
    let mut out: Vec<Event> = Vec::new();
    let mut depth: usize = 0;
    let mut arm: Option<TryArm> = None;
    proof {
        assert(events_view(out@) == Seq::<EventM>::empty());
    }
    match do_parse(chunks, 0, &mut out, &mut depth, &mut arm, &tags, namespace) {
        Ok((_task, p)) => {
            proof {
                if xml_only(chunks@, 0, chunks@.len() as int, namespace.spec_bytes()) {
                    assert(p == chunks@.len());
                    assert forall|i: int| 0 <= i < out@.len() implies event_is_xml(
                        #[trigger] out@[i],
                    ) && event_raw(out@[i]) == chunk_raw(chunks@[i]) by {
                        assert(event_is_xml(out@[0 + i]) && event_raw(out@[0 + i]) == chunk_raw(
                            chunks@[0 + i],
                        ));
                    }
                }
            }
            Ok(out)
        },
        Err(e) => Err(e),
    }
}

/// Parses an ESI document: splits it into chunks exactly as `spec_scan_doc`
/// says, then into events exactly as `spec_parse_chunks` says. On a
/// document whose markup holds no directive under the namespace, the
/// events pass the input through byte for byte.
pub fn parse_tags(namespace: &str, input: &str) -> (r: Result<Vec<Event>, ExecutionError>)
    ensures
        ({
            let scanned = spec_scan_doc(input.spec_bytes(), 0, Seq::empty());
            match r {
                Ok(events) => scanned matches Ok(chunks) && spec_parse_chunks(
                    chunks,
                    namespace.spec_bytes(),
                ) == Ok::<Seq<EventM>, EM>(events_view(events@)),
                Err(e) => (scanned is Err && e is XmlParseError) || (scanned matches Ok(chunks)
                    && spec_parse_chunks(chunks, namespace.spec_bytes()) == Err::<
                    Seq<EventM>,
                    EM,
                >(err_view(e))),
            }
        }),
{
    let bytes = input.as_bytes_vec();
    let chunks = match scan_chunks(&bytes) {
        Ok(c) => c,
        Err(e) => {
            return Err(e);
        },
    };
    match parse_chunks(namespace, &chunks) {
        Ok(events) => {
            proof {
                let w = chunks@;
                assert(concat_raws(w) == input.spec_bytes());
            }
            Ok(events)
        },
        Err(e) => Err(e),
    }
}

} // verus!

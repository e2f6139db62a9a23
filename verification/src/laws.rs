use vstd::prelude::*;
use crate::dispatch::EM;
use crate::document::{
    ElemModel, TaskModel, FragModel, OutcomeModel, Res, spec_poll_elems, spec_poll_task,
    spec_resolve_fragment, spec_await, is_success_spec, step_after, with_log, spec_parse_task,
    spec_process,
};
use crate::dispatch::url_str_model;
use crate::parse::{
    EventM, ParseFrame, is_esi_name, is_esi_chunk_m, spec_do_parse, spec_parse_chunks,
};
use crate::xml::{ChunkM, chunk_raw_m, spec_scan_doc, spec_next_chunk};
use vstd::string::StringSliceAdditionalSpecFns;

verus! {

// ------------------------------------------------------------------
// Passthrough: a document with no directives comes back byte for byte
// ------------------------------------------------------------------
/// Whether no chunk of the sequence is ESI markup under the prefix.
pub open spec fn xml_only_m(chunks: Seq<ChunkM>, ns: Seq<u8>) -> bool {
    forall|i: int| 0 <= i < chunks.len() ==> !is_esi_chunk_m(#[trigger] chunks[i], ns)
}

/// The verbatim events a directive-free chunk sequence parses to, one per
/// chunk from `pos` on.
pub open spec fn xml_events_from(chunks: Seq<ChunkM>, pos: int) -> Seq<EventM> {
    Seq::new((chunks.len() - pos) as nat, |i: int| EventM::MXml(chunk_raw_m(chunks[pos + i])))
}

/// The verbatim events a directive-free chunk sequence parses to.
pub open spec fn xml_events(chunks: Seq<ChunkM>) -> Seq<EventM> {
    xml_events_from(chunks, 0)
}

/// The raw-bytes queue a chunk sequence turns into.
pub open spec fn raws_of(chunks: Seq<ChunkM>) -> Seq<ElemModel> {
    Seq::new(chunks.len(), |i: int| ElemModel::Raw(chunk_raw_m(chunks[i])))
}

/// The bytes of a whole chunk-model sequence, in order.
pub open spec fn concat_raws_m(chunks: Seq<ChunkM>) -> Seq<u8>
    decreases chunks.len(),
{
    if chunks.len() == 0 {
        Seq::empty()
    } else {
        concat_raws_m(chunks.drop_last()) + chunk_raw_m(chunks.last())
    }
}

/// The bytes of a chunk-model sequence, taken from the front.
proof fn lemma_concat_raws_first(chunks: Seq<ChunkM>)
    requires
        chunks.len() > 0,
    ensures
        concat_raws_m(chunks) == chunk_raw_m(chunks[0]) + concat_raws_m(chunks.drop_first()),
    decreases chunks.len(),
{
    if chunks.len() == 1 {
        assert(chunks.drop_last() =~= Seq::<ChunkM>::empty());
        assert(chunks.drop_first() =~= Seq::<ChunkM>::empty());
        assert(concat_raws_m(chunks) =~= chunk_raw_m(chunks[0]) + concat_raws_m(
            chunks.drop_first(),
        ));
    } else {
        lemma_concat_raws_first(chunks.drop_last());
        assert(chunks.drop_last()[0] == chunks[0]);
        assert(chunks.drop_last().drop_first() =~= chunks.drop_first().drop_last());
        assert(chunks.drop_first().last() == chunks.last());
        assert(concat_raws_m(chunks) == concat_raws_m(chunks.drop_last()) + chunk_raw_m(
            chunks.last(),
        ));
        assert(concat_raws_m(chunks.drop_first()) == concat_raws_m(
            chunks.drop_first().drop_last(),
        ) + chunk_raw_m(chunks.drop_first().last()));
        assert(concat_raws_m(chunks) =~= chunk_raw_m(chunks[0]) + concat_raws_m(
            chunks.drop_first(),
        ));
    }
}

/// A scan that succeeds reads the whole input: the raw parts of the chunks
/// it returns concatenate, after those already read, to the remaining
/// bytes.
pub proof fn lemma_scan_doc_raws(s: Seq<u8>, pos: int, acc: Seq<ChunkM>, chunks: Seq<ChunkM>)
    requires
        0 <= pos <= s.len(),
        spec_scan_doc(s, pos, acc) == Ok::<Seq<ChunkM>, ()>(chunks),
    ensures
        concat_raws_m(chunks) == concat_raws_m(acc) + s.subrange(pos, s.len() as int),
    decreases s.len() - pos,
{
    if pos >= s.len() {
        assert(chunks == acc);
        assert(s.subrange(pos, s.len() as int) =~= Seq::<u8>::empty());
        assert(concat_raws_m(acc) + s.subrange(pos, s.len() as int) =~= concat_raws_m(acc));
    } else {
        match spec_next_chunk(s, pos) {
            Err(_) => {
                assert(false);
            },
            Ok((c, p)) => {
                assert(pos < p <= s.len());
                assert(chunk_raw_m(c) == s.subrange(pos, p));
                lemma_scan_doc_raws(s, p, acc.push(c), chunks);
                assert(acc.push(c).drop_last() =~= acc);
                assert(concat_raws_m(acc.push(c)) == concat_raws_m(acc) + chunk_raw_m(c));
                assert((concat_raws_m(acc) + s.subrange(pos, p)) + s.subrange(p, s.len() as int)
                    =~= concat_raws_m(acc) + s.subrange(pos, s.len() as int));
            },
        }
    }
}

/// From any depth-zero state with no open `remove` or `include`, a
/// directive-free tail parses to one verbatim event per chunk, appended to
/// the top-level events, leaving the rest of the state alone.
proof fn lemma_do_parse_passthrough(
    chunks: Seq<ChunkM>,
    pos: int,
    arm: Option<crate::parse::TryArm>,
    attempt: Seq<EventM>,
    except: Seq<EventM>,
    out: Seq<EventM>,
    task: Seq<EventM>,
    ns: Seq<u8>,
)
    requires
        0 <= pos <= chunks.len(),
        forall|i: int| pos <= i < chunks.len() ==> !is_esi_chunk_m(#[trigger] chunks[i], ns),
    ensures
        spec_do_parse(chunks, pos, 0, arm, false, false, attempt, except, out, task, ns) == Ok::<
            ParseFrame,
            EM,
        >(
            ParseFrame {
                out: out + xml_events_from(chunks, pos),
                task,
                pos: chunks.len() as int,
                depth: 0,
                arm,
            },
        ),
    decreases chunks.len() - pos,
{
    if pos >= chunks.len() {
        assert(out + xml_events_from(chunks, pos) =~= out);
    } else {
        assert(!is_esi_chunk_m(chunks[pos], ns));
        let raw = chunk_raw_m(chunks[pos]);
        lemma_do_parse_passthrough(
            chunks,
            pos + 1,
            arm,
            attempt,
            except,
            out.push(EventM::MXml(raw)),
            task,
            ns,
        );
        assert(out.push(EventM::MXml(raw)) + xml_events_from(chunks, pos + 1) =~= out
            + xml_events_from(chunks, pos));
    }
}

/// A directive-free chunk sequence parses to exactly one verbatim event
/// per chunk.
pub proof fn lemma_parse_chunks_passthrough(chunks: Seq<ChunkM>, ns: Seq<u8>)
    requires
        xml_only_m(chunks, ns),
    ensures
        spec_parse_chunks(chunks, ns) == Ok::<Seq<EventM>, EM>(xml_events(chunks)),
{
    lemma_do_parse_passthrough(
        chunks,
        0,
        None,
        Seq::empty(),
        Seq::empty(),
        Seq::empty(),
        Seq::empty(),
        ns,
    );
    assert(Seq::<EventM>::empty() + xml_events_from(chunks, 0) =~= xml_events(chunks));
}

/// Building a queue from verbatim events yields one raw element per chunk
/// and dispatches nothing.
proof fn lemma_parse_passthrough(
    ms: Seq<EventM>,
    chunks: Seq<ChunkM>,
    esc: bool,
    tpl: crate::dispatch::ReqModel,
    oracle: Seq<(Seq<char>, OutcomeModel)>,
)
    requires
        ms == xml_events(chunks),
    ensures
        spec_parse_task(ms, esc, tpl, oracle) == (
            Ok::<Seq<ElemModel>, EM>(raws_of(chunks)),
            Seq::<Seq<char>>::empty(),
        ),
    decreases ms.len(),
{
    if ms.len() == 0 {
        assert(raws_of(chunks) =~= Seq::<ElemModel>::empty());
        assert(spec_parse_task(ms, esc, tpl, oracle) =~= (
            Ok::<Seq<ElemModel>, EM>(raws_of(chunks)),
            Seq::<Seq<char>>::empty(),
        ));
    } else {
        assert(ms.drop_first() =~= xml_events(chunks.drop_first())) by {
            assert(ms.drop_first().len() == chunks.drop_first().len());
            assert forall|i: int| 0 <= i < ms.drop_first().len() implies ms.drop_first()[i]
                == xml_events(chunks.drop_first())[i] by {
                assert(chunks.drop_first()[i] == chunks[i + 1]);
            }
        }
        lemma_parse_passthrough(ms.drop_first(), chunks.drop_first(), esc, tpl, oracle);
        assert(ms[0] == EventM::MXml(chunk_raw_m(chunks[0])));
        assert(raws_of(chunks) =~= seq![ElemModel::Raw(chunk_raw_m(chunks[0]))] + raws_of(
            chunks.drop_first(),
        ));
        assert(Seq::<Seq<char>>::empty() =~= Seq::<Seq<char>>::empty()
            + Seq::<Seq<char>>::empty());
    }
}

/// Draining a queue of raw elements emits their bytes in order, fetches
/// nothing, and succeeds.
proof fn lemma_poll_passthrough(chunks: Seq<ChunkM>, oracle: Seq<(Seq<char>, OutcomeModel)>)
    ensures
        spec_poll_elems(raws_of(chunks), oracle) == (
            Ok::<(Seq<u8>, Option<(Seq<char>, u16)>), EM>((concat_raws_m(chunks), None)),
            Seq::<Seq<char>>::empty(),
        ),
    decreases chunks.len(),
{
    let q = raws_of(chunks);
    if chunks.len() == 0 {
        assert(q.len() == 0);
        assert(concat_raws_m(chunks) =~= Seq::<u8>::empty());
    } else {
        lemma_poll_passthrough(chunks.drop_first(), oracle);
        lemma_concat_raws_first(chunks);
        assert(q[0] == ElemModel::Raw(chunk_raw_m(chunks[0])));
        assert(q.drop_first() =~= raws_of(chunks.drop_first()));
    }
}

/// A document with no recognised directives passes through unchanged:
/// its chunks parse to verbatim events alone, and processing those returns
/// exactly the chunks' bytes and dispatches no request.
pub proof fn lemma_passthrough_identity(
    chunks: Seq<ChunkM>,
    ns: Seq<u8>,
    esc: bool,
    tpl: crate::dispatch::ReqModel,
    oracle: Seq<(Seq<char>, OutcomeModel)>,
)
    requires
        xml_only_m(chunks, ns),
    ensures
        spec_parse_chunks(chunks, ns) == Ok::<Seq<EventM>, EM>(xml_events(chunks)),
        spec_process(xml_events(chunks), esc, tpl, oracle) == (
            Ok::<Seq<u8>, EM>(concat_raws_m(chunks)),
            Seq::<Seq<char>>::empty(),
        ),
{
    lemma_parse_chunks_passthrough(chunks, ns);
    lemma_parse_passthrough(xml_events(chunks), chunks, esc, tpl, oracle);
    lemma_poll_passthrough(chunks, oracle);
    assert(Seq::<Seq<char>>::empty() =~= Seq::<Seq<char>>::empty() + Seq::<Seq<char>>::empty());
}

/// One step of namespace isolation in a mixed document: a chunk the
/// namespace does not claim — any text run, and any tag whose name is not
/// a directive name, such as one under a foreign prefix — is passed
/// through as a verbatim event carrying its exact bytes, to the top level
/// at depth zero and to the enclosing arm inside a `try`, and the parse
/// goes on unchanged; no directive event is ever made of it.
pub proof fn lemma_foreign_tag_passthrough(
    chunks: Seq<ChunkM>,
    pos: int,
    depth: int,
    arm: Option<crate::parse::TryArm>,
    attempt: Seq<EventM>,
    except: Seq<EventM>,
    out: Seq<EventM>,
    task: Seq<EventM>,
    ns: Seq<u8>,
)
    requires
        0 <= pos < chunks.len(),
        !is_esi_chunk_m(chunks[pos], ns),
    ensures
        spec_do_parse(chunks, pos, depth, arm, false, false, attempt, except, out, task, ns) == (
        if depth == 0 {
            spec_do_parse(
                chunks,
                pos + 1,
                depth,
                arm,
                false,
                false,
                attempt,
                except,
                out.push(EventM::MXml(chunk_raw_m(chunks[pos]))),
                task,
                ns,
            )
        } else {
            spec_do_parse(
                chunks,
                pos + 1,
                depth,
                arm,
                false,
                false,
                attempt,
                except,
                out,
                task.push(EventM::MXml(chunk_raw_m(chunks[pos]))),
                ns,
            )
        }),
{
    assert(!is_esi_chunk_m(chunks[pos], ns));
}

// ------------------------------------------------------------------
// Order: earlier elements' bytes come first, whatever resolves when
// ------------------------------------------------------------------
/// Draining a queue made of two parts drains the first part in full before
/// the second: when the first part succeeds, the output is its bytes
/// followed by whatever the second part produces, and its dispatches come
/// first in the log. Fragment completion order plays no role: the oracle
/// fixes every response up front, and the output order follows the queue
/// alone.
pub proof fn lemma_output_order(
    a: Seq<ElemModel>,
    b: Seq<ElemModel>,
    oracle: Seq<(Seq<char>, OutcomeModel)>,
)
    requires
        spec_poll_elems(a, oracle).0 matches Ok(p) && p.1 is None,
    ensures
        spec_poll_elems(a + b, oracle) == (
            match spec_poll_elems(b, oracle).0 {
                Ok(p) => Ok::<(Seq<u8>, Option<(Seq<char>, u16)>), EM>(
                    (spec_poll_elems(a, oracle).0->Ok_0.0 + p.0, p.1),
                ),
                Err(em) => Err::<(Seq<u8>, Option<(Seq<char>, u16)>), EM>(em),
            },
            spec_poll_elems(a, oracle).1 + spec_poll_elems(b, oracle).1,
        ),
    decreases a,
{
    let ra = spec_poll_elems(a, oracle);
    let rb = spec_poll_elems(b, oracle);
    if a.len() == 0 {
        assert(a + b =~= b);
        assert(ra.0->Ok_0.0 =~= Seq::<u8>::empty());
        match rb.0 {
            Ok(p) => {
                assert(ra.0->Ok_0.0 + p.0 =~= p.0);
            },
            Err(_) => {},
        }
        assert(ra.1 + rb.1 =~= rb.1);
    } else {
        let rest = a.drop_first();
        assert((a + b)[0] == a[0]);
        assert((a + b).drop_first() =~= rest + b);
        let rr = spec_poll_elems(rest, oracle);
        match a[0] {
            ElemModel::Raw(bytes) => {
                assert(rr.0 matches Ok(p) && p.1 is None);
                lemma_output_order(rest, b, oracle);
                match rb.0 {
                    Ok(p) => {
                        assert(bytes + (rr.0->Ok_0.0 + p.0) =~= (bytes + rr.0->Ok_0.0) + p.0);
                    },
                    Err(_) => {},
                }
            },
            ElemModel::Inc(f) => {
                let (res, log1) = spec_resolve_fragment(f, oracle);
                match res {
                    Err(_) => {
                        assert(false);
                    },
                    Ok(Res::RBytes(bytes)) => {
                        assert(rr.0 matches Ok(p) && p.1 is None);
                        lemma_output_order(rest, b, oracle);
                        match rb.0 {
                            Ok(p) => {
                                assert(bytes + (rr.0->Ok_0.0 + p.0) =~= (bytes + rr.0->Ok_0.0)
                                    + p.0);
                            },
                            Err(_) => {},
                        }
                        assert(log1 + (rr.1 + rb.1) =~= (log1 + rr.1) + rb.1);
                    },
                    Ok(Res::RNothing) => {
                        assert(rr.0 matches Ok(p) && p.1 is None);
                        lemma_output_order(rest, b, oracle);
                        assert(log1 + (rr.1 + rb.1) =~= (log1 + rr.1) + rb.1);
                    },
                    Ok(Res::RFail(_, _)) => {
                        assert(false);
                    },
                }
            },
            ElemModel::TryB(at, et) => {
                let (ar, alog) = spec_poll_task(at, oracle);
                match ar {
                    Err(_) => {
                        assert(false);
                    },
                    Ok((aout, astate)) => {
                        match astate {
                            None => {
                                assert(rr.0 matches Ok(p) && p.1 is None);
                                lemma_output_order(rest, b, oracle);
                                match rb.0 {
                                    Ok(p) => {
                                        assert(aout + (rr.0->Ok_0.0 + p.0) =~= (aout
                                            + rr.0->Ok_0.0) + p.0);
                                    },
                                    Err(_) => {},
                                }
                                assert(alog + (rr.1 + rb.1) =~= (alog + rr.1) + rb.1);
                            },
                            Some(_) => {
                                let (er, elog) = spec_poll_task(et, oracle);
                                match er {
                                    Err(_) => {
                                        assert(false);
                                    },
                                    Ok((eout, estate)) => match estate {
                                        None => {
                                            assert(rr.0 matches Ok(p) && p.1 is None);
                                            lemma_output_order(rest, b, oracle);
                                            match rb.0 {
                                                Ok(p) => {
                                                    assert(eout + (rr.0->Ok_0.0 + p.0) =~= (eout
                                                        + rr.0->Ok_0.0) + p.0);
                                                },
                                                Err(_) => {},
                                            }
                                            assert((alog + elog) + (rr.1 + rb.1) =~= ((alog + elog)
                                                + rr.1) + rb.1);
                                        },
                                        Some(_) => {
                                            assert(false);
                                        },
                                    },
                                }
                            },
                        }
                    },
                }
            },
        }
    }
}

// ------------------------------------------------------------------
// Try blocks
// ------------------------------------------------------------------
/// When the attempt arm succeeds, the try block contributes exactly the
/// attempt's bytes; the except arm is discarded unpolled — it contributes
/// no byte, awaits nothing and dispatches nothing, whatever it holds.
pub proof fn lemma_try_attempt_wins(
    a: TaskModel,
    e: TaskModel,
    rest: Seq<ElemModel>,
    oracle: Seq<(Seq<char>, OutcomeModel)>,
)
    requires
        spec_poll_task(a, oracle).0 matches Ok(p) && p.1 is None,
    ensures
        spec_poll_elems(seq![ElemModel::TryB(a, e)] + rest, oracle) == with_log(
            spec_poll_task(a, oracle).1,
            step_after(spec_poll_task(a, oracle).0->Ok_0.0, spec_poll_elems(rest, oracle)),
        ),
{
    let q = seq![ElemModel::TryB(a, e)] + rest;
    assert(q[0] == ElemModel::TryB(a, e));
    assert(q.drop_first() =~= rest);
}

/// When the attempt arm fails and the except arm succeeds, the try block
/// contributes exactly the except's bytes; the attempt's partial output is
/// discarded.
pub proof fn lemma_try_except_wins(
    a: TaskModel,
    e: TaskModel,
    rest: Seq<ElemModel>,
    oracle: Seq<(Seq<char>, OutcomeModel)>,
)
    requires
        spec_poll_task(a, oracle).0 matches Ok(p) && p.1 is Some,
        spec_poll_task(e, oracle).0 matches Ok(p) && p.1 is None,
    ensures
        spec_poll_elems(seq![ElemModel::TryB(a, e)] + rest, oracle) == with_log(
            spec_poll_task(a, oracle).1 + spec_poll_task(e, oracle).1,
            step_after(spec_poll_task(e, oracle).0->Ok_0.0, spec_poll_elems(rest, oracle)),
        ),
{
    let q = seq![ElemModel::TryB(a, e)] + rest;
    assert(q[0] == ElemModel::TryB(a, e));
    assert(q.drop_first() =~= rest);
}

/// When both arms fail, processing ends with `UnexpectedStatus` carrying
/// the attempt's failing URL and status.
pub proof fn lemma_try_both_fail(
    a: TaskModel,
    e: TaskModel,
    rest: Seq<ElemModel>,
    oracle: Seq<(Seq<char>, OutcomeModel)>,
)
    requires
        spec_poll_task(a, oracle).0 matches Ok(p) && p.1 is Some,
        spec_poll_task(e, oracle).0 matches Ok(p) && p.1 is Some,
    ensures
        spec_poll_elems(seq![ElemModel::TryB(a, e)] + rest, oracle).0 == Err::<
            (Seq<u8>, Option<(Seq<char>, u16)>),
            EM,
        >(
            EM::Status(
                spec_poll_task(a, oracle).0->Ok_0.1->Some_0.0,
                spec_poll_task(a, oracle).0->Ok_0.1->Some_0.1,
            ),
        ),
{
    let q = seq![ElemModel::TryB(a, e)] + rest;
    assert(q[0] == ElemModel::TryB(a, e));
    assert(q.drop_first() =~= rest);
}

// ------------------------------------------------------------------
// Fallback and error-suppression rules for one fragment
// ------------------------------------------------------------------
/// The alternative request is dispatched at most once, and only after the
/// primary has failed: a fragment resolution logs nothing when the primary
/// answer is a success, and logs exactly the alternative URL otherwise.
pub proof fn lemma_alt_dispatched_once(f: FragModel, oracle: Seq<(Seq<char>, OutcomeModel)>)
    ensures
        spec_resolve_fragment(f, oracle).1.len() <= 1,
        (spec_await(oracle, f.url) matches Ok(p) && is_success_spec(p.0)) ==> spec_resolve_fragment(
            f,
            oracle,
        ).1 =~= Seq::<Seq<char>>::empty(),
        spec_resolve_fragment(f, oracle).1.len() == 1 ==> (f.alt matches Some(r) && r is Ok
            && spec_resolve_fragment(f, oracle).1[0] == url_str_model(r->Ok_0.url) && !(spec_await(
            oracle,
            f.url,
        ) matches Ok(p) && is_success_spec(p.0))),
{
}

/// A failing fragment with `onerror="continue"` and no alternative
/// contributes nothing and does not disturb its surroundings.
pub proof fn lemma_continue_on_error(
    before: Seq<u8>,
    f: FragModel,
    after: Seq<u8>,
    oracle: Seq<(Seq<char>, OutcomeModel)>,
)
    requires
        f.continue_on_error,
        f.alt is None,
        spec_await(oracle, f.url) matches Ok(p) && !is_success_spec(p.0),
    ensures
        spec_poll_elems(
            seq![ElemModel::Raw(before), ElemModel::Inc(f), ElemModel::Raw(after)],
            oracle,
        ) == (
            Ok::<(Seq<u8>, Option<(Seq<char>, u16)>), EM>((before + after, None)),
            Seq::<Seq<char>>::empty(),
        ),
{
    let q = seq![ElemModel::Raw(before), ElemModel::Inc(f), ElemModel::Raw(after)];
    let q1 = q.drop_first();
    let q2 = q1.drop_first();
    let q3 = q2.drop_first();
    assert(q1 =~= seq![ElemModel::Inc(f), ElemModel::Raw(after)]);
    assert(q2 =~= seq![ElemModel::Raw(after)]);
    assert(q3 =~= Seq::<ElemModel>::empty());
    assert(spec_poll_elems(q3, oracle).0->Ok_0.0 =~= Seq::<u8>::empty());
    assert(after + Seq::<u8>::empty() =~= after);
    assert(spec_poll_elems(q2, oracle).0->Ok_0.0 =~= after);
    assert(spec_poll_elems(q1, oracle).0->Ok_0.0 =~= after);
    assert(before + after =~= spec_poll_elems(q, oracle).0->Ok_0.0);
    assert(Seq::<Seq<char>>::empty() + Seq::<Seq<char>>::empty() =~= Seq::<Seq<char>>::empty());
    assert(spec_poll_elems(q, oracle).1 =~= Seq::<Seq<char>>::empty());
}

// ------------------------------------------------------------------
// Namespace isolation
// ------------------------------------------------------------------
/// A directive name always begins with the configured prefix followed by a
/// colon, so a tag under a different prefix is never recognised and passes
/// through untouched.
pub proof fn lemma_namespace_isolation(name: Seq<u8>, ns: Seq<u8>)
    ensures
        is_esi_name(name, ns) ==> name.len() > ns.len() && name.subrange(0, ns.len() as int) == ns
            && name[ns.len() as int] == 58,
{
    if is_esi_name(name, ns) {
        broadcast use vstd::string::is_ascii_spec_bytes;

        reveal_strlit(":include");
        reveal_strlit(":comment");
        reveal_strlit(":remove");
        reveal_strlit(":try");
        reveal_strlit(":attempt");
        reveal_strlit(":except");
        assert(vstd::string::is_ascii(":include"));
        assert(vstd::string::is_ascii(":comment"));
        assert(vstd::string::is_ascii(":remove"));
        assert(vstd::string::is_ascii(":try"));
        assert(vstd::string::is_ascii(":attempt"));
        assert(vstd::string::is_ascii(":except"));
        assert(":include".spec_bytes()[0] == 58);
        assert(":comment".spec_bytes()[0] == 58);
        assert(":remove".spec_bytes()[0] == 58);
        assert(":try".spec_bytes()[0] == 58);
        assert(":attempt".spec_bytes()[0] == 58);
        assert(":except".spec_bytes()[0] == 58);
        assert(name.subrange(0, ns.len() as int) =~= ns);
    }
}

// ------------------------------------------------------------------
// From include-level success to task-level success
// ------------------------------------------------------------------
/// Whether every fragment the drain will await gets a successful answer
/// for its primary request: a try block is covered by its attempt arm
/// alone, since a successful attempt keeps the except arm from ever being
/// polled.
pub open spec fn all_includes_succeed(
    q: Seq<ElemModel>,
    oracle: Seq<(Seq<char>, OutcomeModel)>,
) -> bool
    decreases q, 1nat,
{
    if q.len() == 0 {
        true
    } else {
        (match q[0] {
            ElemModel::Raw(_) => true,
            ElemModel::Inc(f) => spec_await(oracle, f.url) matches Ok(p) && is_success_spec(p.0),
            ElemModel::TryB(a, e) => task_includes_succeed(a, oracle),
        }) && all_includes_succeed(q.drop_first(), oracle)
    }
}

/// Whether a task is still pending and every fragment in it gets a
/// successful primary answer.
pub open spec fn task_includes_succeed(t: TaskModel, oracle: Seq<(Seq<char>, OutcomeModel)>) -> bool
    decreases t, 0nat,
{
    t.status is MPending && all_includes_succeed(t.queue, oracle)
}

/// A queue whose fragments all answer successfully drains without error
/// and without failure.
pub proof fn lemma_all_success_succeeds(
    q: Seq<ElemModel>,
    oracle: Seq<(Seq<char>, OutcomeModel)>,
)
    requires
        all_includes_succeed(q, oracle),
    ensures
        spec_poll_elems(q, oracle).0 matches Ok(p) && p.1 is None,
    decreases q, 1nat,
{
    if q.len() > 0 {
        lemma_all_success_succeeds(q.drop_first(), oracle);
        match q[0] {
            ElemModel::Raw(_) => {},
            ElemModel::Inc(_) => {},
            ElemModel::TryB(a, e) => {
                lemma_task_success(a, oracle);
            },
        }
    }
}

/// A pending task whose fragments all answer successfully polls to
/// success.
pub proof fn lemma_task_success(t: TaskModel, oracle: Seq<(Seq<char>, OutcomeModel)>)
    requires
        task_includes_succeed(t, oracle),
    ensures
        spec_poll_task(t, oracle).0 matches Ok(p) && p.1 is None,
    decreases t, 0nat,
{
    lemma_all_success_succeeds(t.queue, oracle);
}

/// When every include inside the attempt arm returns success, the try
/// block's output is the attempt subtree's output; the except subtree is
/// dropped unpolled and contributes nothing — no byte, no await, no
/// dispatch — whatever it holds.
pub proof fn lemma_try_attempt_success(
    a: TaskModel,
    e: TaskModel,
    rest: Seq<ElemModel>,
    oracle: Seq<(Seq<char>, OutcomeModel)>,
)
    requires
        task_includes_succeed(a, oracle),
    ensures
        spec_poll_elems(seq![ElemModel::TryB(a, e)] + rest, oracle) == with_log(
            spec_poll_task(a, oracle).1,
            step_after(spec_poll_task(a, oracle).0->Ok_0.0, spec_poll_elems(rest, oracle)),
        ),
{
    lemma_task_success(a, oracle);
    lemma_try_attempt_wins(a, e, rest, oracle);
}

/// When a non-continue include in the attempt arm fails and every include
/// in the except arm succeeds, the try block's output is the except
/// subtree's output.
pub proof fn lemma_try_except_success(
    a: TaskModel,
    e: TaskModel,
    rest: Seq<ElemModel>,
    oracle: Seq<(Seq<char>, OutcomeModel)>,
)
    requires
        spec_poll_task(a, oracle).0 matches Ok(p) && p.1 is Some,
        task_includes_succeed(e, oracle),
    ensures
        spec_poll_elems(seq![ElemModel::TryB(a, e)] + rest, oracle) == with_log(
            spec_poll_task(a, oracle).1 + spec_poll_task(e, oracle).1,
            step_after(spec_poll_task(e, oracle).0->Ok_0.0, spec_poll_elems(rest, oracle)),
        ),
{
    lemma_task_success(e, oracle);
    lemma_try_except_wins(a, e, rest, oracle);
}

} // verus!

//! The decoder's laws, proved of the model that the executable contracts
//! are stated against: chunk-boundary invariance, the reset of the pending
//! record after every emitted event, and the rejection rules for `id` and
//! `retry` values.

use vstd::prelude::*;
use vstd::utf8::valid_utf8;

use crate::model::{
    StateModel, RecordFields, PollModel, DrainEnd, empty_fields, feed_model, poll_spec,
    drain_spec, apply_line, split_line, all_digits, find_term, is_term_byte, flushed,
    lemma_find_term_spec, lemma_poll_consumes,
};

verus! {

/// Law: emitting an event resets the pending record to all-absent, so no
/// field left over from one event can ever influence the next one.
pub proof fn lemma_emit_resets_pending(s: StateModel)
    ensures
        poll_spec(s).1 matches PollModel::Emit(_) ==> poll_spec(s).0.pending == empty_fields(),
    decreases s.buf.len(),
{
    let s1 = if s.pending_cr && s.buf.len() > 0 && s.buf[0] == 10u8 {
        StateModel { buf: s.buf.skip(1), pending_cr: false, ..s }
    } else {
        s
    };
    lemma_find_term_spec(s1.buf);
    match find_term(s1.buf) {
        None => {},
        Some(i) => {
            let line = s1.buf.take(i);
            let cr2 = if s1.buf[i] == 13u8 {
                true
            } else {
                s1.pending_cr
            };
            if valid_utf8(line) && i > 0 {
                lemma_emit_resets_pending(
                    StateModel {
                        buf: s1.buf.skip(i + 1),
                        pending_cr: cr2,
                        pending: apply_line(s1.pending, line),
                    },
                );
            }
        },
    }
}

/// Law: an `id` value containing a NUL byte never updates the pending id —
/// whatever line carries it, the id field keeps its prior value.
pub proof fn lemma_id_nul_never_updates(p: RecordFields, line: Seq<u8>)
    requires
        split_line(line).1.contains(0u8),
    ensures
        apply_line(p, line).id == p.id,
{
}

/// Law: a `retry` value containing a non-digit byte never updates the
/// pending retry — whatever line carries it, the retry field keeps its
/// prior value.
pub proof fn lemma_retry_nondigit_never_updates(p: RecordFields, line: Seq<u8>)
    requires
        !all_digits(split_line(line).1),
    ensures
        apply_line(p, line).retry == p.retry,
{
}

/// Law: a line whose first character is `:` is a comment and never
/// mutates the pending record.
pub proof fn lemma_comment_never_mutates(p: RecordFields, line: Seq<u8>)
    requires
        line.len() > 0,
        line[0] == 58,
    ensures
        apply_line(p, line) == p,
{
}

/// Law: a line whose field name is none of `event`, `data`, `id` and
/// `retry` never mutates the pending record.
pub proof fn lemma_unknown_field_never_mutates(p: RecordFields, line: Seq<u8>)
    requires
        split_line(line).0 != crate::model::name_event(),
        split_line(line).0 != crate::model::name_data(),
        split_line(line).0 != crate::model::name_id(),
        split_line(line).0 != crate::model::name_retry(),
    ensures
        apply_line(p, line) == p,
{
}

/// A terminator found in `a` is found at the same place in `a + b`.
proof fn lemma_find_term_append_found(a: Seq<u8>, b: Seq<u8>)
    requires
        find_term(a) is Some,
    ensures
        find_term(a + b) == find_term(a),
{
    lemma_find_term_spec(a);
    lemma_find_term_spec(a + b);
    let i = find_term(a)->Some_0;
    assert((a + b)[i] == a[i]);
    assert(forall|k: int| 0 <= k < i ==> (a + b)[k] == a[k]);
    match find_term(a + b) {
        Some(j) => {
            if j < i {
                assert((a + b)[j] == a[j]);
            }
        },
        None => {
            assert(!is_term_byte((a + b)[i]));
        },
    }
}

/// What one decode call does is unchanged by bytes delivered later: if it
/// needed more bytes, it continues from where it stopped; if it emitted an
/// event or failed, it emits or fails identically, with the new bytes
/// merely appended to the leftover buffer.
pub proof fn lemma_poll_append(s: StateModel, ext: Seq<u8>)
    ensures
        ({
            let (s1, out) = poll_spec(s);
            match out {
                PollModel::NeedMore => poll_spec(feed_model(s, ext)) == poll_spec(
                    feed_model(s1, ext),
                ),
                PollModel::Emit(e) => poll_spec(feed_model(s, ext)) == (
                    feed_model(s1, ext),
                    PollModel::Emit(e),
                ),
                PollModel::Invalid => poll_spec(feed_model(s, ext)) == (
                    feed_model(s1, ext),
                    PollModel::Invalid,
                ),
            }
        }),
    decreases s.buf.len(),
{
    let se = feed_model(s, ext);
    if s.buf.len() == 0 {
        // nothing buffered: the call reports that more bytes are needed and
        // changes nothing, so both sides are literally the same state
        assert(s.buf + ext =~= ext);
        assert(poll_spec(s) == (s, PollModel::NeedMore));
        assert(feed_model(s, ext) == feed_model(poll_spec(s).0, ext));
    } else if s.pending_cr && s.buf[0] == 10u8 {
        // both sides first skip the `\n` completing a split `\r\n`
        let sk = StateModel { buf: s.buf.skip(1), pending_cr: false, ..s };
        assert(poll_spec(s) == poll_spec(sk));
        assert(se.buf[0] == 10u8);
        let ske = StateModel { buf: se.buf.skip(1), pending_cr: false, ..se };
        assert(poll_spec(se) == poll_spec(ske));
        assert(se.buf.skip(1) =~= sk.buf + ext);
        assert(ske == feed_model(sk, ext));
        lemma_poll_append(sk, ext);
    } else {
        // no skip on either side
        assert(se.buf[0] == s.buf[0]);
        lemma_find_term_spec(s.buf);
        match find_term(s.buf) {
            None => {
                // `s` is left as it is, so both sides coincide again
                assert(poll_spec(s) == (s, PollModel::NeedMore));
            },
            Some(i) => {
                lemma_find_term_append_found(s.buf, ext);
                assert(find_term(se.buf) == Some(i));
                let line = s.buf.take(i);
                assert(se.buf.take(i) =~= line);
                let cr2 = if s.buf[i] == 13u8 {
                    true
                } else {
                    s.pending_cr
                };
                assert(se.buf[i] == s.buf[i]);
                if !valid_utf8(line) {
                    assert(poll_spec(s) == (
                        StateModel { pending_cr: cr2, ..s },
                        PollModel::Invalid,
                    ));
                    assert(se.buf =~= s.buf + ext);
                    assert(poll_spec(se) == (
                        feed_model(StateModel { pending_cr: cr2, ..s }, ext),
                        PollModel::Invalid,
                    ));
                } else if i == 0 {
                    assert(se.buf.skip(1) =~= s.buf.skip(1) + ext);
                    assert(poll_spec(se) == (
                        feed_model(
                            StateModel {
                                buf: s.buf.skip(1),
                                pending_cr: cr2,
                                pending: empty_fields(),
                            },
                            ext,
                        ),
                        PollModel::Emit(flushed(s.pending)),
                    ));
                } else {
                    let rs = StateModel {
                        buf: s.buf.skip(i + 1),
                        pending_cr: cr2,
                        pending: apply_line(s.pending, line),
                    };
                    assert(poll_spec(s) == poll_spec(rs));
                    assert(se.buf.skip(i + 1) =~= rs.buf + ext);
                    assert(poll_spec(se) == poll_spec(feed_model(rs, ext)));
                    lemma_poll_append(rs, ext);
                }
            },
        }
    }
}

/// What a whole drain does is unchanged by bytes delivered later: the
/// events it emitted are emitted identically, and then the drain continues
/// into the new bytes from the state where it had stopped — unless it had
/// stopped on an invalid line, which stays exactly where it was.
pub proof fn lemma_drain_append(s: StateModel, ext: Seq<u8>)
    ensures
        ({
            let (s1, evs1, end1) = drain_spec(s);
            match end1 {
                DrainEnd::NeedMore => drain_spec(feed_model(s, ext)) == ({
                    let (s2, evs2, end2) = drain_spec(feed_model(s1, ext));
                    (s2, evs1 + evs2, end2)
                }),
                DrainEnd::Invalid => drain_spec(feed_model(s, ext)) == (
                    feed_model(s1, ext),
                    evs1,
                    DrainEnd::Invalid,
                ),
            }
        }),
    decreases s.buf.len(),
{
    lemma_poll_append(s, ext);
    let (p1, out) = poll_spec(s);
    match out {
        PollModel::NeedMore => {
            let (s2, evs2, end2) = drain_spec(feed_model(p1, ext));
            assert(Seq::<RecordFields>::empty() + evs2 =~= evs2);
        },
        PollModel::Invalid => {
            assert(drain_spec(feed_model(s, ext)) == (
                feed_model(p1, ext),
                Seq::<RecordFields>::empty(),
                DrainEnd::Invalid,
            ));
        },
        PollModel::Emit(e) => {
            lemma_poll_consumes(s);
            lemma_drain_append(p1, ext);
            let (s1, evs, end) = drain_spec(p1);
            match end {
                DrainEnd::NeedMore => {
                    let (s2, evs2, end2) = drain_spec(feed_model(s1, ext));
                    assert((seq![e] + evs) + evs2 =~= seq![e] + (evs + evs2));
                },
                DrainEnd::Invalid => {},
            }
        },
    }
}

/// Law (chunk-boundary invariance, two deliveries): feeding `b1 + b2` in
/// one chunk and draining yields exactly the events of feeding `b1`,
/// draining, feeding `b2` and draining again, in the same order — and the
/// same final state, or the same failure.
pub proof fn lemma_chunk_boundary_invariance(s: StateModel, b1: Seq<u8>, b2: Seq<u8>)
    ensures
        ({
            let whole = drain_spec(feed_model(s, b1 + b2));
            let first = drain_spec(feed_model(s, b1));
            match first.2 {
                DrainEnd::NeedMore => whole == ({
                    let second = drain_spec(feed_model(first.0, b2));
                    (second.0, first.1 + second.1, second.2)
                }),
                DrainEnd::Invalid => whole == (
                    feed_model(first.0, b2),
                    first.1,
                    DrainEnd::Invalid,
                ),
            }
        }),
{
    assert(s.buf + (b1 + b2) =~= (s.buf + b1) + b2);
    assert(feed_model(s, b1 + b2) == feed_model(feed_model(s, b1), b2));
    lemma_drain_append(feed_model(s, b1), b2);
}

/// Feeding the chunks of `chunks` one at a time, draining after each; a
/// drain that stops on an invalid line ends the run, as a caller abandons
/// the stream on an error.
pub open spec fn run_chunks(s: StateModel, chunks: Seq<Seq<u8>>) -> (
    StateModel,
    Seq<RecordFields>,
    DrainEnd,
)
    decreases chunks.len(),
{
    if chunks.len() == 0 {
        (s, Seq::empty(), DrainEnd::NeedMore)
    } else {
        let (s1, evs1, end1) = drain_spec(feed_model(s, chunks[0]));
        match end1 {
            DrainEnd::Invalid => (s1, evs1, DrainEnd::Invalid),
            DrainEnd::NeedMore => {
                let (s2, evs2, end2) = run_chunks(s1, chunks.skip(1));
                (s2, evs1 + evs2, end2)
            },
        }
    }
}

/// Law (chunk-boundary invariance): however a stream is cut into chunks —
/// one delivery, or split at every possible byte boundary — the sequence
/// of emitted events is identical, the run ends the same way, and, when no
/// line was invalid, in the same state.
pub proof fn lemma_chunking_irrelevant(s: StateModel, chunks: Seq<Seq<u8>>)
    requires
        chunks.len() > 0,
    ensures
        ({
            let run = run_chunks(s, chunks);
            let whole = drain_spec(feed_model(s, chunks.flatten()));
            run.1 == whole.1 && run.2 == whole.2 && (run.2 is NeedMore ==> run.0 == whole.0)
        }),
    decreases chunks.len(),
{
    let (s1, evs1, end1) = drain_spec(feed_model(s, chunks[0]));
    if chunks.len() == 1 {
        assert(chunks.skip(1).flatten() =~~= Seq::<u8>::empty());
        assert(chunks.flatten() =~= chunks[0] + chunks.skip(1).flatten());
        assert(chunks.flatten() =~= chunks[0]);
        match end1 {
            DrainEnd::Invalid => {},
            DrainEnd::NeedMore => {
                assert(run_chunks(s1, chunks.skip(1)) == (
                    s1,
                    Seq::<RecordFields>::empty(),
                    DrainEnd::NeedMore,
                ));
                assert(evs1 + Seq::<RecordFields>::empty() =~= evs1);
            },
        }
    } else {
        let rest = chunks.skip(1).flatten();
        assert(chunks.flatten() =~= chunks[0] + rest) by {
            assert(chunks.flatten() == chunks.first() + chunks.drop_first().flatten());
            assert(chunks.drop_first() =~= chunks.skip(1));
        }
        lemma_chunk_boundary_invariance(s, chunks[0], rest);
        match end1 {
            DrainEnd::Invalid => {},
            DrainEnd::NeedMore => {
                lemma_chunking_irrelevant(s1, chunks.skip(1));
            },
        }
    }
}

} // verus!


//! The byte-level model of the decoder.
//!
//! Everything the executable decoder does is specified against the spec
//! functions here: a decoder state is a [`StateModel`], one decode call is
//! [`poll_spec`], and draining every complete line currently buffered is
//! [`drain_spec`].

use vstd::prelude::*;
use vstd::utf8::valid_utf8;

verus! {

/// The four record fields, as accumulated for the event under construction
/// and as carried by an emitted event. Text fields are raw bytes here;
/// decoding to characters happens only when an event is handed out.
pub ghost struct RecordFields {
    pub event: Option<Seq<u8>>,
    pub data: Option<Seq<u8>>,
    pub id: Option<Seq<u8>>,
    pub retry: Option<u64>,
}

/// The whole decoder state: the unconsumed bytes, the flag remembering that
/// the last terminator seen was a bare `\r` (so that a `\n` opening the next
/// scan is the second half of a split `\r\n`), and the pending record.
pub ghost struct StateModel {
    pub buf: Seq<u8>,
    pub pending_cr: bool,
    pub pending: RecordFields,
}

/// The outcome of one decode call.
pub ghost enum PollModel {
    /// No complete line is buffered; more bytes are needed.
    NeedMore,
    /// A blank line completed the pending record; these are its fields.
    Emit(RecordFields),
    /// A complete line was found whose bytes are not valid UTF-8.
    Invalid,
}

/// A record with every field absent.
pub open spec fn empty_fields() -> RecordFields {
    RecordFields { event: None, data: None, id: None, retry: None }
}

/// The state of a decoder that has not been fed any bytes.
pub open spec fn init_state() -> StateModel {
    StateModel { buf: Seq::empty(), pending_cr: false, pending: empty_fields() }
}

/// Appending a delivery of bytes to the unconsumed buffer.
pub open spec fn feed_model(s: StateModel, bytes: Seq<u8>) -> StateModel {
    StateModel { buf: s.buf + bytes, ..s }
}

/// True of the two bytes that terminate a line.
pub open spec fn is_term_byte(b: u8) -> bool {
    b == 13 || b == 10
}

/// The position of the first line-terminator byte, if any.
pub open spec fn find_term(s: Seq<u8>) -> Option<int>
    decreases s.len(),
{
    if s.len() == 0 {
        None
    } else if is_term_byte(s[0]) {
        Some(0int)
    } else {
        match find_term(s.skip(1)) {
            Some(i) => Some(i + 1),
            None => None,
        }
    }
}

/// What `find_term` returns: the first position holding `\r` or `\n`.
pub proof fn lemma_find_term_spec(s: Seq<u8>)
    ensures
        match find_term(s) {
            Some(i) => 0 <= i < s.len() && is_term_byte(s[i]) && forall|k: int|
                0 <= k < i ==> !is_term_byte(s[k]),
            None => forall|k: int| 0 <= k < s.len() ==> !is_term_byte(s[k]),
        },
    decreases s.len(),
{
    if s.len() > 0 && !is_term_byte(s[0]) {
        lemma_find_term_spec(s.skip(1));
        assert forall|k: int| 1 <= k < s.len() implies #[trigger] s[k] == s.skip(1)[k - 1] by {}
    }
}

/// The position of the first `:` in a line, if any.
pub open spec fn find_colon(s: Seq<u8>) -> Option<int>
    decreases s.len(),
{
    if s.len() == 0 {
        None
    } else if s[0] == 58 {
        Some(0int)
    } else {
        match find_colon(s.skip(1)) {
            Some(i) => Some(i + 1),
            None => None,
        }
    }
}

/// What `find_colon` returns: the first position holding `:`.
pub proof fn lemma_find_colon_spec(s: Seq<u8>)
    ensures
        match find_colon(s) {
            Some(i) => 0 <= i < s.len() && s[i] == 58 && forall|k: int| 0 <= k < i ==> s[k] != 58,
            None => forall|k: int| 0 <= k < s.len() ==> s[k] != 58,
        },
    decreases s.len(),
{
    if s.len() > 0 && s[0] != 58 {
        lemma_find_colon_spec(s.skip(1));
        assert forall|k: int| 1 <= k < s.len() implies #[trigger] s[k] == s.skip(1)[k - 1] by {}
    }
}

/// The bytes of the field name `event`.
pub open spec fn name_event() -> Seq<u8> {
    seq![101u8, 118u8, 101u8, 110u8, 116u8]
}

/// The bytes of the field name `data`.
pub open spec fn name_data() -> Seq<u8> {
    seq![100u8, 97u8, 116u8, 97u8]
}

/// The bytes of the field name `id`.
pub open spec fn name_id() -> Seq<u8> {
    seq![105u8, 100u8]
}

/// The bytes of the field name `retry`.
pub open spec fn name_retry() -> Seq<u8> {
    seq![114u8, 101u8, 116u8, 114u8, 121u8]
}

/// A field value: everything after the first `:`, with exactly one leading
/// space stripped if present.
pub open spec fn strip_value(after_colon: Seq<u8>) -> Seq<u8> {
    if after_colon.len() > 0 && after_colon[0] == 32 {
        after_colon.skip(1)
    } else {
        after_colon
    }
}

/// Splits a line into field name and value. Without a `:`, the whole line is
/// the name and the value is empty.
pub open spec fn split_line(line: Seq<u8>) -> (Seq<u8>, Seq<u8>) {
    match find_colon(line) {
        Some(j) => (line.take(j), strip_value(line.skip(j + 1))),
        None => (line, Seq::empty()),
    }
}

/// True of an ASCII decimal digit.
pub open spec fn is_digit(b: u8) -> bool {
    48 <= b <= 57
}

/// True when every byte of `s` is an ASCII decimal digit.
pub open spec fn all_digits(s: Seq<u8>) -> bool {
    forall|i: int| 0 <= i < s.len() ==> is_digit(#[trigger] s[i])
}

/// The number written in decimal by the digits of `s`.
pub open spec fn digits_value(s: Seq<u8>) -> int
    decreases s.len(),
{
    if s.len() == 0 {
        0
    } else {
        digits_value(s.take(s.len() - 1)) * 10 + (s[s.len() - 1] - 48)
    }
}

/// One more byte extends the number by one decimal place.
pub proof fn lemma_digits_extend(s: Seq<u8>, i: int)
    requires
        0 <= i < s.len(),
    ensures
        digits_value(s.take(i + 1)) == digits_value(s.take(i)) * 10 + (s[i] - 48),
{
    assert(s.take(i + 1).take(i) =~= s.take(i));
    assert(s.take(i + 1)[i] == s[i]);
}

/// A sequence of bytes that are all at least `'0'` names a non-negative
/// number.
pub proof fn lemma_digits_value_nonneg(s: Seq<u8>)
    requires
        forall|k: int| 0 <= k < s.len() ==> #[trigger] s[k] >= 48,
    ensures
        digits_value(s) >= 0,
    decreases s.len(),
{
    if s.len() > 0 {
        lemma_digits_value_nonneg(s.take(s.len() - 1));
    }
}

/// Reading further digits never shrinks the number.
pub proof fn lemma_digits_value_monotone(s: Seq<u8>, i: int)
    requires
        0 <= i <= s.len(),
        forall|k: int| 0 <= k < s.len() ==> #[trigger] s[k] >= 48,
    ensures
        digits_value(s.take(i)) <= digits_value(s),
    decreases s.len() - i,
{
    if i == s.len() {
        assert(s.take(i) =~= s);
    } else {
        lemma_digits_extend(s, i);
        lemma_digits_value_nonneg(s.take(i));
        lemma_digits_value_monotone(s, i + 1);
    }
}

/// True when a `retry` value is accepted: at least one byte, all ASCII
/// digits, and a number that fits in a `u64`.
pub open spec fn retry_parses(s: Seq<u8>) -> bool {
    s.len() > 0 && all_digits(s) && digits_value(s) <= u64::MAX
}

/// One non-blank line folded into the pending record: comments and unknown
/// field names change nothing; `event` and `id` overwrite; `data` appends its
/// value and a `\n`; `retry` overwrites when its value parses.
pub open spec fn apply_line(p: RecordFields, line: Seq<u8>) -> RecordFields {
    if find_colon(line) == Some(0int) {
        p
    } else {
        let (name, value) = split_line(line);
        if name == name_event() {
            RecordFields { event: Some(value), ..p }
        } else if name == name_data() {
            let prefix = match p.data {
                Some(d) => d,
                None => Seq::empty(),
            };
            RecordFields { data: Some(prefix + value + seq![10u8]), ..p }
        } else if name == name_id() {
            if value.contains(0u8) {
                p
            } else {
                RecordFields { id: Some(value), ..p }
            }
        } else if name == name_retry() {
            if retry_parses(value) {
                RecordFields { retry: Some(digits_value(value) as u64), ..p }
            } else {
                p
            }
        } else {
            p
        }
    }
}

/// The pending record as it leaves the decoder: one trailing `\n` is taken
/// off the accumulated `data`, undoing the separator appended for its final
/// line.
pub open spec fn flushed(p: RecordFields) -> RecordFields {
    match p.data {
        Some(d) => RecordFields {
            data: Some(if d.len() > 0 && d.last() == 10u8 {
                d.take(d.len() - 1)
            } else {
                d
            }),
            ..p
        },
        None => p,
    }
}

/// One decode call. Repeatedly: skip a `\n` left over from a split `\r\n`;
/// find the next terminator (none: report that more bytes are needed); check
/// the line decodes as text (else fail, leaving the line unconsumed); on a
/// blank line emit the flushed pending record; otherwise fold the field line
/// into the pending record and continue.
pub open spec fn poll_spec(s: StateModel) -> (StateModel, PollModel)
    decreases s.buf.len(),
    via poll_spec_dec
{
    let s1 = if s.pending_cr && s.buf.len() > 0 && s.buf[0] == 10u8 {
        StateModel { buf: s.buf.skip(1), pending_cr: false, ..s }
    } else {
        s
    };
    match find_term(s1.buf) {
        None => (s1, PollModel::NeedMore),
        Some(i) => {
            let line = s1.buf.take(i);
            let cr2 = if s1.buf[i] == 13u8 {
                true
            } else {
                s1.pending_cr
            };
            if !valid_utf8(line) {
                (StateModel { pending_cr: cr2, ..s1 }, PollModel::Invalid)
            } else if i == 0 {
                (
                    StateModel {
                        buf: s1.buf.skip(1),
                        pending_cr: cr2,
                        pending: empty_fields(),
                    },
                    PollModel::Emit(flushed(s1.pending)),
                )
            } else {
                poll_spec(
                    StateModel {
                        buf: s1.buf.skip(i + 1),
                        pending_cr: cr2,
                        pending: apply_line(s1.pending, line),
                    },
                )
            }
        },
    }
}

#[via_fn]
proof fn poll_spec_dec(s: StateModel) {
    lemma_find_term_spec(s.buf);
    if s.buf.len() > 0 {
        lemma_find_term_spec(s.buf.skip(1));
    }
}

/// A decode call never grows the buffer, and consumes at least the blank
/// line's terminator whenever it emits an event.
pub proof fn lemma_poll_consumes(s: StateModel)
    ensures
        poll_spec(s).0.buf.len() <= s.buf.len(),
        poll_spec(s).1 matches PollModel::Emit(_) ==> poll_spec(s).0.buf.len() < s.buf.len(),
    decreases s.buf.len(),
{
    lemma_find_term_spec(s.buf);
    if s.buf.len() > 0 {
        lemma_find_term_spec(s.buf.skip(1));
    }
    let s1 = if s.pending_cr && s.buf.len() > 0 && s.buf[0] == 10u8 {
        StateModel { buf: s.buf.skip(1), pending_cr: false, ..s }
    } else {
        s
    };
    lemma_find_term_spec(s1.buf);
    match find_term(s1.buf) {
        None => {},
        Some(i) => {
            let line = s1.buf.take(i);
            let cr2 = if s1.buf[i] == 13u8 {
                true
            } else {
                s1.pending_cr
            };
            if valid_utf8(line) && i > 0 {
                lemma_poll_consumes(
                    StateModel {
                        buf: s1.buf.skip(i + 1),
                        pending_cr: cr2,
                        pending: apply_line(s1.pending, line),
                    },
                );
            }
        },
    }
}

/// How a drain of the buffer ended: either every complete line was consumed
/// and more bytes are needed, or a line failed to decode as text.
pub ghost enum DrainEnd {
    NeedMore,
    Invalid,
}

/// Decode calls repeated until no complete event remains: the resulting
/// state, every event emitted on the way, in order, and how the run ended.
pub open spec fn drain_spec(s: StateModel) -> (StateModel, Seq<RecordFields>, DrainEnd)
    decreases s.buf.len(),
    via drain_spec_dec
{
    let (s2, out) = poll_spec(s);
    match out {
        PollModel::NeedMore => (s2, Seq::empty(), DrainEnd::NeedMore),
        PollModel::Invalid => (s2, Seq::empty(), DrainEnd::Invalid),
        PollModel::Emit(e) => {
            let (s3, evs, end) = drain_spec(s2);
            (s3, seq![e] + evs, end)
        },
    }
}

#[via_fn]
proof fn drain_spec_dec(s: StateModel) {
    lemma_poll_consumes(s);
}

} // verus!

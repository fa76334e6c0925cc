//! The decoder itself: buffer cursor, newline classification, field
//! interpretation and event assembly, verified against the state machine in
//! [`crate::model`].

use vstd::prelude::*;
use vstd::utf8::decode_utf8;
use vstd::utf8::valid_utf8;

use crate::model::{
    RecordFields, StateModel, PollModel, empty_fields, init_state, feed_model, poll_spec,
    is_term_byte, find_term, find_colon, split_line, strip_value, apply_line, flushed,
    name_event, name_data, name_id, name_retry, all_digits, digits_value, retry_parses,
    lemma_find_term_spec, lemma_find_colon_spec, lemma_digits_extend, lemma_digits_value_monotone,
};
use crate::text::{check_utf8, bytes_into_string};

verus! {

/// An sse codec error.
#[derive(Debug)]
pub enum SseCodecError {
    /// A line was not valid utf8.
    InvalidUtf8(std::str::Utf8Error),
    /// An IO error occurred in the transport that feeds the decoder.
    Io(std::io::Error),
}

impl SseCodecError {
    /// A short description of the error, in place of a `Display` form.
    pub fn message(&self) -> (r: &'static str)
        ensures
            match self {
                SseCodecError::InvalidUtf8(_) => r@ == "a line was not valid utf8"@,
                SseCodecError::Io(_) => r@ == "an I/O error occured"@,
            },
    {
        match self {
            SseCodecError::InvalidUtf8(_) => "a line was not valid utf8",
            SseCodecError::Io(_) => "an I/O error occured",
        }
    }
}

impl From<std::io::Error> for SseCodecError {
    /// A transport error is carried through opaquely.
    fn from(error: std::io::Error) -> (r: Self) {
        SseCodecError::Io(error)
    }
}

impl vstd::std_specs::convert::FromSpecImpl<std::io::Error> for SseCodecError {
    open spec fn obeys_from_spec() -> bool {
        true
    }

    open spec fn from_spec(error: std::io::Error) -> Self {
        SseCodecError::Io(error)
    }
}

/// An sse event.
#[derive(Debug, PartialEq)]
pub struct SseEvent {
    /// The event field.
    pub event: Option<String>,
    /// The data field.
    pub data: Option<String>,
    /// The id field.
    pub id: Option<String>,
    /// The retry field.
    pub retry: Option<u64>,
}

/// An optional text field carries exactly the decoding of an optional byte
/// field of the model: both absent, or both present and the string is the
/// bytes decoded as UTF-8.
pub open spec fn opt_decodes(s: Option<String>, b: Option<Seq<u8>>) -> bool {
    match (s, b) {
        (Option::None, Option::None) => true,
        (Option::Some(s), Option::Some(b)) => s@ == decode_utf8(b),
        _ => false,
    }
}

/// An emitted event carries exactly the fields of a model record.
pub open spec fn represents(ev: SseEvent, m: RecordFields) -> bool {
    &&& opt_decodes(ev.event, m.event)
    &&& opt_decodes(ev.data, m.data)
    &&& opt_decodes(ev.id, m.id)
    &&& ev.retry == m.retry
}

/// An sse codec: feed it byte chunks, poll it for decoded events.
#[derive(Debug)]
pub struct SseCodec {
    /// Bytes delivered but not yet consumed; everything before `pos` is
    /// consumed.
    buffer: Vec<u8>,
    /// The cursor into `buffer`.
    pos: usize,
    /// Whether the last terminator seen was a bare `\r`.
    last_newline_cr: bool,
    /// The pending event field, as checked bytes.
    event: Option<Vec<u8>>,
    /// The pending data field, as checked bytes.
    data: Option<Vec<u8>>,
    /// The pending id field, as checked bytes.
    id: Option<Vec<u8>>,
    /// The pending retry field.
    retry: Option<u64>,
}

impl View for SseCodec {
    type V = StateModel;

    closed spec fn view(&self) -> StateModel {
        StateModel {
            buf: self.buffer@.skip(self.pos as int),
            pending_cr: self.last_newline_cr,
            pending: RecordFields {
                event: match self.event {
                    Option::Some(v) => Some(v@),
                    Option::None => None,
                },
                data: match self.data {
                    Option::Some(v) => Some(v@),
                    Option::None => None,
                },
                id: match self.id {
                    Option::Some(v) => Some(v@),
                    Option::None => None,
                },
                retry: self.retry,
            },
        }
    }
}

impl SseCodec {
    /// The internal invariant: the cursor is in bounds, and every stored
    /// text field holds valid UTF-8, having been checked line by line as it
    /// arrived.
    pub closed spec fn wf(&self) -> bool {
        &&& self.pos <= self.buffer@.len()
        &&& match self.event {
            Option::Some(v) => valid_utf8(v@),
            Option::None => true,
        }
        &&& match self.data {
            Option::Some(v) => valid_utf8(v@),
            Option::None => true,
        }
        &&& match self.id {
            Option::Some(v) => valid_utf8(v@),
            Option::None => true,
        }
    }

    /// Make a new SSE Event decoder.
    pub fn new() -> (r: Self)
        ensures
            r.wf(),
            r@ == init_state(),
    {
        let r = SseCodec {
            buffer: Vec::new(),
            pos: 0,
            last_newline_cr: false,
            event: None,
            data: None,
            id: None,
            retry: None,
        };
        proof {
            assert(r@.buf =~= init_state().buf);
        }
        r
    }

    /// Append a delivery of bytes to the internal buffer; ownership of the
    /// bytes transfers to the decoder.
    pub fn feed(&mut self, bytes: Vec<u8>)
        requires
            old(self).wf(),
        ensures
            final(self).wf(),
            final(self)@ == feed_model(old(self)@, bytes@),
    {
        let mut incoming = bytes;
        let mut tail = self.buffer.split_off(self.pos);
        tail.append(&mut incoming);
        self.buffer = tail;
        self.pos = 0;
        proof {
            assert(self@.buf =~= old(self)@.buf + bytes@);
        }
    }

    /// Folds one complete, non-blank, terminator-stripped line into the
    /// pending record, per the field's mutation rule.
    fn apply_field_line(&mut self, line: &Vec<u8>)
        requires
            old(self).wf(),
            valid_utf8(line@),
            line@.len() > 0,
        ensures
            final(self).wf(),
            final(self)@ == (StateModel {
                pending: apply_line(old(self)@.pending, line@),
                ..old(self)@
            }),
    {
        let colon = find_colon_at(line);
        proof {
            lemma_find_colon_spec(line@);
            match colon {
                Some(j) => {
                    assert(find_colon(line@) == Some(j as int));
                },
                None => {
                    assert(find_colon(line@) is None);
                },
            }
        }
        let n = line.len();
        let (is_comment, name_end, vstart_raw): (bool, usize, usize) = match colon {
            Some(j) => (j == 0, j, j + 1),
            None => (false, n, n),
        };
        if is_comment {
            // a line opening with `:` is a comment: no mutation
            return;
        }
        let mut vstart = vstart_raw;
        if vstart < line.len() && line[vstart] == 32 {
            // exactly one leading space of the value is stripped
            vstart = vstart + 1;
        }
        let name = copy_range(line, 0, name_end);
        let value = copy_range(line, vstart, line.len());
        proof {
            match colon {
                Some(j) => {
                    assert(name@ =~= line@.take(j as int));
                    assert(value@ =~= strip_value(line@.skip(j as int + 1)));
                },
                None => {
                    assert(name@ =~= line@);
                    assert(value@ =~= Seq::<u8>::empty());
                },
            }
            assert(split_line(line@) == (name@, value@));
            // the value begins right after an ASCII byte (`:` or a space),
            // so it is itself valid UTF-8
            match colon {
                Some(j) => {
                    assert(line@[vstart as int - 1] == 58 || line@[vstart as int - 1] == 32);
                    crate::text::lemma_valid_suffix_after_ascii(line@, vstart as int - 1);
                    assert(value@ =~= line@.skip(vstart as int));
                },
                None => {
                    assert(value@ =~= Seq::<u8>::empty());
                },
            }
            assert(valid_utf8(value@));
        }
        let kind = classify(&name);
        match kind {
            FieldName::Event => {
                self.event = Some(value);
            },
            FieldName::Data => {
                let mut d = match self.data.take() {
                    Some(d0) => d0,
                    None => Vec::new(),
                };
                let ghost dpre = d@;
                let mut t: usize = 0;
                while t < value.len()
                    invariant
                        t <= value@.len(),
                        d@ == dpre + value@.take(t as int),
                    decreases value@.len() - t,
                {
                    d.push(value[t]);
                    t = t + 1;
                    proof {
                        assert(d@ =~= dpre + value@.take(t as int));
                    }
                }
                d.push(10);
                proof {
                    assert(value@.take(value@.len() as int) =~= value@);
                    vstd::utf8::valid_utf8_concat(dpre, value@);
                    crate::text::lemma_ascii_byte_valid(10);
                    vstd::utf8::valid_utf8_concat(dpre + value@, seq![10u8]);
                    assert(d@ =~= dpre + value@ + seq![10u8]);
                    assert(d@ =~= (dpre + value@) + seq![10u8]);
                }
                self.data = Some(d);
            },
            FieldName::Id => {
                // an id value holding a NUL byte keeps the prior id
                if !has_nul(&value) {
                    self.id = Some(value);
                }
            },
            FieldName::Retry => {
                // an unparseable retry value keeps the prior retry
                match parse_u64(&value) {
                    Some(n) => {
                        self.retry = Some(n);
                    },
                    None => {},
                }
            },
            FieldName::Other => {},
        }
    }

    /// Finalizes the pending record into an event — taking one trailing
    /// `\n` off the accumulated data — and resets the record to all-absent.
    fn flush_event(&mut self) -> (ev: SseEvent)
        requires
            old(self).wf(),
        ensures
            final(self).wf(),
            represents(ev, flushed(old(self)@.pending)),
            final(self)@ == (StateModel { pending: empty_fields(), ..old(self)@ }),
    {
        let ev_event = match self.event.take() {
            Some(v) => {
                let ghost vb = v@;
                let s = bytes_into_string(v);
                proof {
                    crate::text::lemma_encode_inverse(s@, vb);
                }
                Some(s)
            },
            None => None,
        };
        let ev_data = match self.data.take() {
            Some(v) => {
                let mut d = v;
                let ghost dv = d@;
                if d.len() > 0 && d[d.len() - 1] == 10 {
                    d.pop();
                    proof {
                        assert(d@ =~= dv.take(dv.len() - 1));
                        crate::text::lemma_valid_drop_last_ascii(dv);
                    }
                }
                let ghost db = d@;
                let s = bytes_into_string(d);
                proof {
                    crate::text::lemma_encode_inverse(s@, db);
                }
                Some(s)
            },
            None => None,
        };
        let ev_id = match self.id.take() {
            Some(v) => {
                let ghost vb = v@;
                let s = bytes_into_string(v);
                proof {
                    crate::text::lemma_encode_inverse(s@, vb);
                }
                Some(s)
            },
            None => None,
        };
        let ev_retry = self.retry;
        self.retry = None;
        SseEvent { event: ev_event, data: ev_data, id: ev_id, retry: ev_retry }
    }

    /// One decode call, synchronous and non-blocking: consume complete
    /// lines until a blank line completes an event (`Ok(Some(..))`), no
    /// complete line remains (`Ok(None)`: more bytes are needed), or a
    /// complete line is not valid text (`Err(..)`, with that line left
    /// unconsumed, so an unchanged retry reproduces the error).
    pub fn poll_event(&mut self) -> (r: Result<Option<SseEvent>, SseCodecError>)
        requires
            old(self).wf(),
        ensures
            final(self).wf(),
            final(self)@ == poll_spec(old(self)@).0,
            match r {
                Ok(Option::None) => poll_spec(old(self)@).1 is NeedMore,
                Ok(Option::Some(ev)) => poll_spec(old(self)@).1 matches PollModel::Emit(m)
                    && represents(ev, m),
                Err(e) => poll_spec(old(self)@).1 is Invalid && e is InvalidUtf8,
            },
    {
        loop
            invariant
                self.wf(),
                poll_spec(self@) == poll_spec(old(self)@),
            decreases self@.buf.len(),
        {
            let ghost m0 = self@;
            // a `\n` opening the buffer after a bare `\r` is the second
            // half of a split `\r\n`: pure terminator continuation
            if self.last_newline_cr && self.pos < self.buffer.len() && self.buffer[self.pos]
                == 10 {
                self.pos = self.pos + 1;
                self.last_newline_cr = false;
                proof {
                    assert(self@.buf =~= m0.buf.skip(1));
                }
            }
            let ghost m1 = self@;
            proof {
                assert(poll_spec(m0) == poll_spec(m1));
            }
            match find_terminator(&self.buffer, self.pos) {
                None => {
                    proof {
                        lemma_find_term_spec(m1.buf);
                        assert forall|u: int| 0 <= u < m1.buf.len() implies !is_term_byte(
                            #[trigger] m1.buf[u],
                        ) by {
                            assert(m1.buf[u] == self.buffer@[self.pos + u]);
                        }
                        assert(find_term(m1.buf) is None);
                    }
                    return Ok(None);
                },
                Some(k) => {
                    let blen = self.buffer.len();
                    proof {
                        assert(k < blen);
                    }
                    let i = k - self.pos;
                    let line = copy_range(&self.buffer, self.pos, k);
                    proof {
                        lemma_find_term_spec(m1.buf);
                        assert(m1.buf[i as int] == self.buffer@[k as int]);
                        assert forall|u: int| 0 <= u < i implies !is_term_byte(
                            #[trigger] m1.buf[u],
                        ) by {
                            assert(m1.buf[u] == self.buffer@[self.pos + u]);
                        }
                        assert(find_term(m1.buf) == Some(i as int));
                        assert(line@ =~= m1.buf.take(i as int));
                    }
                    // remember a bare `\r` before anything else: the byte
                    // after it, possibly not yet delivered, may be a `\n`
                    if self.buffer[k] == 13 {
                        self.last_newline_cr = true;
                    }
                    let ghost m2 = self@;
                    proof {
                        assert(m2.buf == m1.buf);
                        assert(m2.pending_cr == (if m1.buf[i as int] == 13u8 {
                            true
                        } else {
                            m1.pending_cr
                        }));
                    }
                    match check_utf8(&line) {
                        Some(e) => {
                            proof {
                                assert(poll_spec(m1) == (m2, PollModel::Invalid));
                            }
                            return Err(SseCodecError::InvalidUtf8(e));
                        },
                        None => {},
                    }
                    self.pos = k + 1;
                    let ghost m3 = self@;
                    proof {
                        assert(m3.buf =~= m1.buf.skip(i as int + 1));
                    }
                    if i == 0 {
                        // a blank line: the record separator
                        let ev = self.flush_event();
                        proof {
                            assert(self@ == (StateModel {
                                buf: m1.buf.skip(1),
                                pending_cr: m2.pending_cr,
                                pending: empty_fields(),
                            }));
                            assert(poll_spec(m1) == (self@, PollModel::Emit(flushed(m1.pending))));
                        }
                        return Ok(Some(ev));
                    }
                    self.apply_field_line(&line);
                    proof {
                        assert(self@ == (StateModel {
                            buf: m1.buf.skip(i as int + 1),
                            pending_cr: m2.pending_cr,
                            pending: apply_line(m1.pending, line@),
                        }));
                        assert(poll_spec(m1) == poll_spec(self@));
                    }
                },
            }
        }
    }

    /// Signal end-of-stream: one final attempt to extract a complete event
    /// from whatever remains buffered. If none is there — leftover bytes
    /// that form no complete terminated line, or nothing at all — the
    /// partial record is discarded and the decoder is left pristine:
    /// partial events are never emitted.
    pub fn finish(&mut self) -> (r: Result<Option<SseEvent>, SseCodecError>)
        requires
            old(self).wf(),
        ensures
            final(self).wf(),
            match r {
                Ok(Option::Some(ev)) => poll_spec(old(self)@).1 matches PollModel::Emit(m)
                    && represents(ev, m) && final(self)@ == poll_spec(old(self)@).0,
                Ok(Option::None) => poll_spec(old(self)@).1 is NeedMore && final(self)@
                    == init_state(),
                Err(e) => poll_spec(old(self)@).1 is Invalid && e is InvalidUtf8
                    && final(self)@ == poll_spec(old(self)@).0,
            },
    {
        match self.poll_event() {
            Ok(Some(ev)) => Ok(Some(ev)),
            Ok(None) => {
                // no complete event remains: discard the partial record
                self.buffer = Vec::new();
                self.pos = 0;
                self.last_newline_cr = false;
                self.event = None;
                self.data = None;
                self.id = None;
                self.retry = None;
                proof {
                    assert(self@.buf =~= init_state().buf);
                }
                Ok(None)
            },
            Err(e) => Err(e),
        }
    }
}

/// The names a line's field can resolve to.
enum FieldName {
    Event,
    Data,
    Id,
    Retry,
    Other,
}

/// Which mutation rule a field name selects.
spec fn classify_spec(name: Seq<u8>) -> FieldName {
    if name == name_event() {
        FieldName::Event
    } else if name == name_data() {
        FieldName::Data
    } else if name == name_id() {
        FieldName::Id
    } else if name == name_retry() {
        FieldName::Retry
    } else {
        FieldName::Other
    }
}

/// Resolves a field name; any name but the four recognized ones is `Other`.
fn classify(name: &Vec<u8>) -> (k: FieldName)
    ensures
        k == classify_spec(name@),
{
    let n = name.len();
    if n == 5 && name[0] == 101 && name[1] == 118 && name[2] == 101 && name[3] == 110 && name[4]
        == 116 {
        proof {
            assert(name@ =~= name_event());
        }
        FieldName::Event
    } else if n == 4 && name[0] == 100 && name[1] == 97 && name[2] == 116 && name[3] == 97 {
        proof {
            assert(name@ =~= name_data());
        }
        FieldName::Data
    } else if n == 2 && name[0] == 105 && name[1] == 100 {
        proof {
            assert(name@ =~= name_id());
        }
        FieldName::Id
    } else if n == 5 && name[0] == 114 && name[1] == 101 && name[2] == 116 && name[3] == 114
        && name[4] == 121 {
        proof {
            assert(name@ =~= name_retry());
        }
        FieldName::Retry
    } else {
        FieldName::Other
    }
}

/// Finds the earliest `\r` or `\n` at or after `from`.
fn find_terminator(buffer: &Vec<u8>, from: usize) -> (r: Option<usize>)
    requires
        from <= buffer@.len(),
    ensures
        match r {
            Some(k) => from <= k < buffer@.len() && is_term_byte(buffer@[k as int]) && forall|
                t: int,
            | from <= t < k ==> !is_term_byte(#[trigger] buffer@[t]),
            None => forall|t: int| from <= t < buffer@.len() ==> !is_term_byte(
                #[trigger] buffer@[t],
            ),
        },
{
    let mut k = from;
    while k < buffer.len() && buffer[k] != 13 && buffer[k] != 10
        invariant
            from <= k <= buffer@.len(),
            forall|t: int| from <= t < k ==> !is_term_byte(#[trigger] buffer@[t]),
        decreases buffer@.len() - k,
    {
        k = k + 1;
    }
    if k < buffer.len() {
        Some(k)
    } else {
        None
    }
}

/// Finds the earliest `:` in a line.
fn find_colon_at(line: &Vec<u8>) -> (r: Option<usize>)
    ensures
        match r {
            Some(j) => j < line@.len() && line@[j as int] == 58 && forall|t: int|
                0 <= t < j ==> #[trigger] line@[t] != 58,
            None => forall|t: int| 0 <= t < line@.len() ==> #[trigger] line@[t] != 58,
        },
{
    let mut j: usize = 0;
    while j < line.len() && line[j] != 58
        invariant
            j <= line@.len(),
            forall|t: int| 0 <= t < j ==> #[trigger] line@[t] != 58,
        decreases line@.len() - j,
    {
        j = j + 1;
    }
    if j < line.len() {
        Some(j)
    } else {
        None
    }
}

/// Copies `buffer[from..to]` out.
fn copy_range(buffer: &Vec<u8>, from: usize, to: usize) -> (r: Vec<u8>)
    requires
        from <= to <= buffer@.len(),
    ensures
        r@ == buffer@.subrange(from as int, to as int),
{
    let mut r: Vec<u8> = Vec::new();
    let mut t = from;
    while t < to
        invariant
            from <= t <= to <= buffer@.len(),
            r@ == buffer@.subrange(from as int, t as int),
        decreases to - t,
    {
        r.push(buffer[t]);
        t = t + 1;
        proof {
            assert(r@ =~= buffer@.subrange(from as int, t as int));
        }
    }
    r
}

/// True when the value holds a NUL byte, which an `id` field must not.
fn has_nul(v: &Vec<u8>) -> (b: bool)
    ensures
        b == v@.contains(0u8),
{
    let mut t: usize = 0;
    while t < v.len()
        invariant
            t <= v@.len(),
            forall|k: int| 0 <= k < t ==> #[trigger] v@[k] != 0u8,
        decreases v@.len() - t,
    {
        if v[t] == 0 {
            return true;
        }
        t = t + 1;
    }
    false
}

/// Parses an all-digit decimal number; anything else, or a number too big
/// for a `u64`, is rejected.
fn parse_u64(s: &Vec<u8>) -> (r: Option<u64>)
    ensures
        match r {
            Some(n) => retry_parses(s@) && n == digits_value(s@),
            None => !retry_parses(s@),
        },
{
    if s.len() == 0 {
        return None;
    }
    let mut acc: u64 = 0;
    let mut i: usize = 0;
    while i < s.len()
        invariant
            i <= s@.len(),
            all_digits(s@.take(i as int)),
            acc == digits_value(s@.take(i as int)),
        decreases s@.len() - i,
    {
        let b = s[i];
        if b < 48 || b > 57 {
            // a non-digit byte: the value is rejected
            return None;
        }
        let d: u64 = (b - 48) as u64;
        if acc > (u64::MAX - d) / 10 {
            // the number no longer fits in a u64: the value is rejected
            proof {
                lemma_digits_extend(s@, i as int);
                if retry_parses(s@) {
                    lemma_digits_value_monotone(s@, i as int + 1);
                }
            }
            return None;
        }
        acc = acc * 10 + d;
        i = i + 1;
        proof {
            lemma_digits_extend(s@, i as int - 1);
            assert(all_digits(s@.take(i as int)));
        }
    }
    proof {
        assert(s@.take(i as int) =~= s@);
    }
    Some(acc)
}

impl Default for SseCodec {
    /// The same decoder as [`SseCodec::new`].
    fn default() -> (r: Self)
        ensures
            r.wf(),
            r@ == init_state(),
    {
        SseCodec::new()
    }
}

} // verus!

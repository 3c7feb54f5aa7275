//! Incremental parser for server-sent event streams, as sent by the
//! messages API when it streams a response.

use vstd::prelude::*;
use vstd::utf8::{
    decode_first_scalar, decode_utf8, length_of_first_scalar, pop_first_scalar, valid_first_scalar,
    valid_utf8,
};
use crate::json::{json_get, json_of_text, json_str_field, parse_json_text, Json};
use crate::text::{chars_of, join, join_with, str_eq, string_from, strip_prefix, views};

verus! {

/// What the proxy makes of one complete server-sent event.
#[derive(Debug)]
pub enum SseEvent {
    /// A piece of the streamed answer (its text or its thinking).
    ContentBlockDelta { text: String },
    /// The end of the message.
    MessageStop,
    /// Any other event.
    Other,
}

/// The mathematical value of an [`SseEvent`].
pub enum SseEventModel {
    ContentBlockDelta(Seq<char>),
    MessageStop,
    Other,
}

impl View for SseEvent {
    type V = SseEventModel;

    open spec fn view(&self) -> SseEventModel {
        match self {
            SseEvent::ContentBlockDelta { text } => SseEventModel::ContentBlockDelta(text@),
            SseEvent::MessageStop => SseEventModel::MessageStop,
            SseEvent::Other => SseEventModel::Other,
        }
    }
}

/// One complete event of the stream: its type (`message` where the stream
/// named none) and its data lines joined by newlines.
#[derive(Debug, Clone)]
pub struct SseFrame {
    pub event_type: String,
    pub data: String,
}

impl View for SseFrame {
    type V = (Seq<char>, Seq<char>);

    open spec fn view(&self) -> (Seq<char>, Seq<char>) {
        (self.event_type@, self.data@)
    }
}

/// The state of the parser: the unfinished line, and the fields of the
/// event being read.
pub struct SseState {
    pub buffer: Seq<char>,
    pub event_type: Option<Seq<char>>,
    pub data: Seq<Seq<char>>,
}

/// Parses a stream of server-sent events fed to it in chunks of any size.
pub struct SseParser {
    buffer: Vec<char>,
    current_event_type: Option<String>,
    current_data: Vec<String>,
}

impl View for SseParser {
    type V = SseState;

    closed spec fn view(&self) -> SseState {
        SseState {
            buffer: self.buffer@,
            event_type: match self.current_event_type {
                Some(t) => Some(t@),
                None => None,
            },
            data: views(self.current_data@),
        }
    }
}

// ----- the specification of the stream format -----

/// `line` without the carriage returns at its end.
pub open spec fn trim_trailing_cr(line: Seq<char>) -> Seq<char>
    decreases line.len(),
{
    if line.len() > 0 && line.last() == '\r' {
        trim_trailing_cr(line.drop_last())
    } else {
        line
    }
}

/// `i` is the position of the first newline of `text`.
pub open spec fn is_first_newline(text: Seq<char>, i: int) -> bool {
    &&& 0 <= i < text.len()
    &&& text[i] == '\n'
    &&& forall|k: int| 0 <= k < i ==> text[k] != '\n'
}

/// `text` holds a complete line.
pub open spec fn has_newline(text: Seq<char>) -> bool {
    exists|i: int| is_first_newline(text, i)
}

/// The position of the first newline of `text`.
pub open spec fn first_newline(text: Seq<char>) -> int
    recommends
        has_newline(text),
{
    choose|i: int| is_first_newline(text, i)
}

/// The event that a blank line completes: none when no data line was read;
/// else the event type, `message` by default, and the data lines joined by
/// newlines.
pub open spec fn completed_frame(event_type: Option<Seq<char>>, data: Seq<Seq<char>>) -> Option<(Seq<char>, Seq<char>)> {
    if data.len() == 0 {
        None
    } else {
        Some(
            (
                match event_type {
                    Some(t) => t,
                    None => "message"@,
                },
                join_with(data, "\n"@),
            ),
        )
    }
}

/// What one line (without its line end) does to the event being read:
/// a blank line completes it and starts a new one; `event: T` or `event:`
/// sets its type; `data: D` or `data:` adds a data line; any other line
/// (`id:`, `retry:`, comments) changes nothing.
pub open spec fn line_step(event_type: Option<Seq<char>>, data: Seq<Seq<char>>, line: Seq<char>) -> (
    Option<Seq<char>>,
    Seq<Seq<char>>,
    Option<(Seq<char>, Seq<char>)>,
) {
    if line.len() == 0 {
        (None, Seq::empty(), completed_frame(event_type, data))
    } else if "event: "@.is_prefix_of(line) {
        (Some(line.skip("event: "@.len() as int)), data, None)
    } else if line == "event:"@ {
        (Some(Seq::empty()), data, None)
    } else if "data: "@.is_prefix_of(line) {
        (event_type, data.push(line.skip("data: "@.len() as int)), None)
    } else if line == "data:"@ {
        (event_type, data.push(Seq::empty()), None)
    } else {
        (event_type, data, None)
    }
}

/// The values of a list of frames.
pub open spec fn frame_views(frames: Seq<SseFrame>) -> Seq<(Seq<char>, Seq<char>)> {
    frames.map_values(|f: SseFrame| f@)
}

/// An optional frame as a sequence of zero or one frames.
pub open spec fn frames_of(f: Option<(Seq<char>, Seq<char>)>) -> Seq<(Seq<char>, Seq<char>)> {
    match f {
        Some(x) => seq![x],
        None => Seq::empty(),
    }
}

/// Reads every complete line of `text`, starting from the given event
/// fields: the resulting state (whose buffer is what follows the last line
/// end) and the events completed on the way, in order.
pub open spec fn run(event_type: Option<Seq<char>>, data: Seq<Seq<char>>, text: Seq<char>) -> (
    SseState,
    Seq<(Seq<char>, Seq<char>)>,
)
    decreases text.len(),
{
    if has_newline(text) {
        let i = first_newline(text);
        let step = line_step(event_type, data, trim_trailing_cr(text.take(i)));
        let rest = run(step.0, step.1, text.skip(i + 1));
        (rest.0, frames_of(step.2) + rest.1)
    } else {
        (SseState { buffer: text, event_type, data }, Seq::empty())
    }
}

/// The effect of feeding decoded text to a parser in state `st`.
pub open spec fn feed_text(st: SseState, text: Seq<char>) -> (SseState, Seq<(Seq<char>, Seq<char>)>) {
    run(st.event_type, st.data, st.buffer + text)
}

/// The text of the piece carried by a `content_block_delta` payload: the
/// `text` of a `text_delta`, or the `thinking` of a `thinking_delta`.
pub open spec fn delta_text(payload: Json) -> Option<Seq<char>> {
    match json_get(payload, "delta"@) {
        Some(delta) => match json_str_field(delta, "type"@) {
            Some(t) => if t == "text_delta"@ {
                json_str_field(delta, "text"@)
            } else if t == "thinking_delta"@ {
                json_str_field(delta, "thinking"@)
            } else {
                None
            },
            None => None,
        },
        None => None,
    }
}

/// The event that a frame of type `event_type` stands for, given the JSON
/// document its data holds (`None` where the data is not JSON).
pub open spec fn event_model(event_type: Seq<char>, payload: Option<Json>) -> SseEventModel {
    if event_type == "content_block_delta"@ {
        match payload {
            Some(p) => match delta_text(p) {
                Some(t) => SseEventModel::ContentBlockDelta(t),
                None => SseEventModel::Other,
            },
            None => SseEventModel::Other,
        }
    } else if event_type == "message_stop"@ {
        SseEventModel::MessageStop
    } else {
        SseEventModel::Other
    }
}

/// A byte that starts no UTF-8 sequence: a continuation byte, or a byte
/// that never occurs in UTF-8.
pub open spec fn starts_no_sequence(b: u8) -> bool {
    (0x80 <= b <= 0xBF) || b == 0xC0 || b == 0xC1 || b >= 0xF5
}

/// `bytes` are valid UTF-8 before and after position `k`, where a byte
/// stands that starts no sequence.
pub open spec fn one_stray_byte(bytes: Seq<u8>, k: int) -> bool {
    &&& 0 <= k < bytes.len()
    &&& starts_no_sequence(bytes[k])
    &&& valid_utf8(bytes.take(k))
    &&& valid_utf8(bytes.skip(k + 1))
}

/// The text that `String::from_utf8_lossy` makes of `bytes`.
pub uninterp spec fn utf8_lossy(bytes: Seq<u8>) -> Seq<char>;

/// `String::from_utf8_lossy`: decodes `bytes`, with one U+FFFD in place of
/// each maximal invalid sequence. Stated: the result is a function of the
/// bytes, and is their decoding when they are valid UTF-8; invalid bytes
/// give at least one U+FFFD; a single byte that starts no sequence, between
/// valid text, reads as one U+FFFD. Other invalid sequences are not spelt
/// out.
#[verifier::external_body]
fn decode_lossy(bytes: &[u8]) -> (r: String)
    ensures
        r@ == utf8_lossy(bytes@),
        valid_utf8(bytes@) ==> r@ == decode_utf8(bytes@),
        !valid_utf8(bytes@) ==> r@.contains('\u{FFFD}'),
        forall|k: int| #[trigger] one_stray_byte(bytes@, k) ==> r@ == decode_utf8(bytes@.take(k)) + seq![
            '\u{FFFD}',
        ] + decode_utf8(bytes@.skip(k + 1)),
{
    String::from_utf8_lossy(bytes).into_owned()
}

// ----- proofs about the format -----

proof fn lemma_first_newline_unique(text: Seq<char>, i: int)
    requires
        is_first_newline(text, i),
    ensures
        has_newline(text),
        first_newline(text) == i,
{
    let j = first_newline(text);
    assert(is_first_newline(text, j));
    if j < i {
        assert(text[j] != '\n');
    }
    if i < j {
        assert(text[i] != '\n');
    }
}

proof fn lemma_no_newline(text: Seq<char>)
    requires
        forall|k: int| 0 <= k < text.len() ==> text[k] != '\n',
    ensures
        !has_newline(text),
{
    if has_newline(text) {
        let i = choose|i: int| is_first_newline(text, i);
        assert(text[i] == '\n');
    }
}

/// The buffer that reading leaves behind never holds a complete line.
pub proof fn lemma_run_leaves_partial_line(
    event_type: Option<Seq<char>>,
    data: Seq<Seq<char>>,
    text: Seq<char>,
)
    ensures
        !has_newline(run(event_type, data, text).0.buffer),
        run(event_type, data, text).0.buffer.len() <= text.len(),
    decreases text.len(),
{
    if has_newline(text) {
        let i = first_newline(text);
        let step = line_step(event_type, data, trim_trailing_cr(text.take(i)));
        lemma_run_leaves_partial_line(step.0, step.1, text.skip(i + 1));
    }
}

/// Chunking does not matter: reading `a` and then `b` gives the state and
/// the events (in order) that reading `a + b` at once gives.
pub proof fn lemma_run_split(
    event_type: Option<Seq<char>>,
    data: Seq<Seq<char>>,
    a: Seq<char>,
    b: Seq<char>,
)
    ensures
        ({
            let first = run(event_type, data, a);
            let second = run(first.0.event_type, first.0.data, first.0.buffer + b);
            run(event_type, data, a + b) == (second.0, first.1 + second.1)
        }),
    decreases a.len(),
{
    let first = run(event_type, data, a);
    if has_newline(a) {
        let i = first_newline(a);
        assert(is_first_newline(a, i));
        assert(is_first_newline(a + b, i));
        lemma_first_newline_unique(a + b, i);
        assert((a + b).take(i) =~= a.take(i));
        assert((a + b).skip(i + 1) =~= a.skip(i + 1) + b);
        let step = line_step(event_type, data, trim_trailing_cr(a.take(i)));
        lemma_run_split(step.0, step.1, a.skip(i + 1), b);
        let second = run(first.0.event_type, first.0.data, first.0.buffer + b);
        assert(frames_of(step.2) + (run(step.0, step.1, a.skip(i + 1)).1 + second.1) =~= (
        frames_of(step.2) + run(step.0, step.1, a.skip(i + 1)).1) + second.1);
    } else {
        assert(first.1 + run(event_type, data, a + b).1 =~= run(event_type, data, a + b).1);
    }
}

/// Feeding two chunks one after the other has the effect of feeding their
/// concatenation: the same final state and the same events, in order.
pub proof fn lemma_feed_text_split(st: SseState, a: Seq<char>, b: Seq<char>)
    ensures
        ({
            let first = feed_text(st, a);
            let second = feed_text(first.0, b);
            feed_text(st, a + b) == (second.0, first.1 + second.1)
        }),
{
    lemma_run_split(st.event_type, st.data, st.buffer + a, b);
    assert(st.buffer + (a + b) =~= (st.buffer + a) + b);
}

/// Decoding two valid UTF-8 byte sequences one after the other gives the
/// decoding of the two together, which is valid too.
pub proof fn lemma_decode_utf8_append(a: Seq<u8>, b: Seq<u8>)
    requires
        valid_utf8(a),
        valid_utf8(b),
    ensures
        valid_utf8(a + b),
        decode_utf8(a + b) == decode_utf8(a) + decode_utf8(b),
    decreases a.len(),
{
    let ab = a + b;
    if a.len() == 0 {
        assert(ab =~= b);
        assert(decode_utf8(a) =~= Seq::<char>::empty());
        assert(decode_utf8(a) + decode_utf8(b) =~= decode_utf8(b));
    } else {
        assert(forall|i: int| 0 <= i < a.len() ==> ab[i] == a[i]);
        assert(valid_first_scalar(ab));
        assert(length_of_first_scalar(ab) == length_of_first_scalar(a));
        assert(decode_first_scalar(ab) == decode_first_scalar(a));
        let rest = pop_first_scalar(a);
        assert(pop_first_scalar(ab) =~= rest + b);
        lemma_decode_utf8_append(rest, b);
        assert(valid_utf8(ab));
        let c = decode_first_scalar(a) as char;
        assert(decode_utf8(ab) == seq![c] + decode_utf8(rest + b));
        assert(decode_utf8(a) == seq![c] + decode_utf8(rest));
        assert(seq![c] + (decode_utf8(rest) + decode_utf8(b)) =~= (seq![c] + decode_utf8(rest))
            + decode_utf8(b));
    }
}

/// How a stream of valid UTF-8 is cut into chunks does not matter: feeding
/// `a` and then `b` leaves the state and yields, in order, the frames
/// that feeding them together does.
pub proof fn lemma_feed_bytes_split(st: SseState, a: Seq<u8>, b: Seq<u8>)
    requires
        valid_utf8(a),
        valid_utf8(b),
    ensures
        valid_utf8(a + b),
        ({
            let first = feed_text(st, decode_utf8(a));
            let second = feed_text(first.0, decode_utf8(b));
            feed_text(st, decode_utf8(a + b)) == (second.0, first.1 + second.1)
        }),
{
    lemma_decode_utf8_append(a, b);
    lemma_feed_text_split(st, decode_utf8(a), decode_utf8(b));
}

// ----- the parser -----

impl SseFrame {
    /// Whether the event's meaning depends on its data, which must then be
    /// read as JSON: true exactly for `content_block_delta`.
    pub fn wants_payload(&self) -> (r: bool)
        ensures
            r == (self.event_type@ == "content_block_delta"@),
    {
        str_eq(self.event_type.as_str(), "content_block_delta")
    }

    /// The event this frame stands for, its data read as JSON where the
    /// event's meaning depends on it.
    pub fn to_event(&self) -> (r: SseEvent)
        ensures
            r@ == event_model(self.event_type@, json_of_text(self.data@)),
    {
        if self.wants_payload() {
            let payload = parse_json_text(self.data.as_str());
            self.event(&payload)
        } else {
            self.event(&None)
        }
    }

    /// The event this frame stands for, given the JSON document its data
    /// holds (`None` where the data is not valid JSON).
    pub fn event(&self, payload: &Option<Json>) -> (r: SseEvent)
        ensures
            r@ == event_model(self.event_type@, *payload),
    {
        if str_eq(self.event_type.as_str(), "content_block_delta") {
            match payload {
                Some(p) => match delta_text_of(p) {
                    Some(t) => SseEvent::ContentBlockDelta { text: t },
                    None => SseEvent::Other,
                },
                None => SseEvent::Other,
            }
        } else if str_eq(self.event_type.as_str(), "message_stop") {
            SseEvent::MessageStop
        } else {
            SseEvent::Other
        }
    }
}

/// The views of a sequence of events.
pub open spec fn event_views(events: Seq<SseEvent>) -> Seq<SseEventModel> {
    events.map_values(|e: SseEvent| e@)
}

/// The events that frames stand for, each frame's data read as JSON.
pub open spec fn frame_events(frames: Seq<(Seq<char>, Seq<char>)>) -> Seq<SseEventModel> {
    frames.map_values(|f: (Seq<char>, Seq<char>)| event_model(f.0, json_of_text(f.1)))
}

/// The text of the piece carried by a `content_block_delta` payload.
pub fn delta_text_of(payload: &Json) -> (r: Option<String>)
    ensures
        r matches Some(t) ==> delta_text(*payload) == Some(t@),
        r is None ==> delta_text(*payload) is None,
{
    match payload.get("delta") {
        Some(delta) => match delta.str_field("type") {
            Some(t) => {
                if str_eq(t.as_str(), "text_delta") {
                    match delta.str_field("text") {
                        Some(s) => Some(s.clone()),
                        None => None,
                    }
                } else if str_eq(t.as_str(), "thinking_delta") {
                    match delta.str_field("thinking") {
                        Some(s) => Some(s.clone()),
                        None => None,
                    }
                } else {
                    None
                }
            },
            None => None,
        },
        None => None,
    }
}

impl SseParser {
    /// A parser at the start of a stream.
    pub fn new() -> (r: SseParser)
        ensures
            r@ == (SseState { buffer: Seq::empty(), event_type: None, data: Seq::empty() }),
    {
        let r = SseParser { buffer: Vec::new(), current_event_type: None, current_data: Vec::new() };
        assert(views(r.current_data@) =~= Seq::empty());
        r
    }

    /// Feeds a chunk of bytes, decoded as `String::from_utf8_lossy` does
    /// (exactly, where the chunk is valid UTF-8). Returns the events that
    /// the chunk completes, in order; what follows the last line end stays
    /// buffered for the next chunk.
    pub fn feed(&mut self, chunk: &[u8]) -> (events: Vec<SseEvent>)
        ensures
            valid_utf8(chunk@) ==> utf8_lossy(chunk@) == decode_utf8(chunk@),
            !valid_utf8(chunk@) ==> utf8_lossy(chunk@).contains('\u{FFFD}'),
            forall|k: int| #[trigger] one_stray_byte(chunk@, k) ==> utf8_lossy(chunk@) == decode_utf8(
                chunk@.take(k),
            ) + seq!['\u{FFFD}'] + decode_utf8(chunk@.skip(k + 1)),
            final(self)@ == feed_text(old(self)@, utf8_lossy(chunk@)).0,
            event_views(events@) == frame_events(feed_text(old(self)@, utf8_lossy(chunk@)).1),
            !has_newline(final(self)@.buffer),
    {
        let text = decode_lossy(chunk);
        self.feed_str(text.as_str())
    }

    /// Feeds a piece of the stream's text. Returns the events that it
    /// completes, in order; what follows the last line end stays buffered
    /// for the next piece.
    pub fn feed_str(&mut self, text: &str) -> (events: Vec<SseEvent>)
        ensures
            final(self)@ == feed_text(old(self)@, text@).0,
            event_views(events@) == frame_events(feed_text(old(self)@, text@).1),
            !has_newline(final(self)@.buffer),
    {
        let frames = self.feed_str_frames(text);
        let mut events: Vec<SseEvent> = Vec::new();
        let mut i: usize = 0;
        while i < frames.len()
            invariant
                0 <= i <= frames.len(),
                event_views(events@) == frame_events(frame_views(frames@).take(i as int)),
            decreases frames.len() - i,
        {
            let ghost prev = events@;
            let e = frames[i].to_event();
            events.push(e);
            proof {
                let fv = frame_views(frames@);
                assert(fv.take(i + 1) =~= fv.take(i as int).push(frames@[i as int]@));
                assert(event_views(events@) =~= event_views(prev).push(e@));
                assert(frame_events(fv.take(i + 1)) =~= frame_events(fv.take(i as int)).push(e@));
            }
            i = i + 1;
        }
        proof {
            assert(frame_views(frames@).take(frames.len() as int) =~= frame_views(frames@));
        }
        events
    }

    /// Feeds a chunk of bytes, decoded as `String::from_utf8_lossy` does
    /// (exactly, where the chunk is valid UTF-8). Returns the frames that
    /// the chunk completes, in order; what follows the last line end stays
    /// buffered for the next chunk.
    pub fn feed_frames(&mut self, chunk: &[u8]) -> (frames: Vec<SseFrame>)
        ensures
            valid_utf8(chunk@) ==> utf8_lossy(chunk@) == decode_utf8(chunk@),
            !valid_utf8(chunk@) ==> utf8_lossy(chunk@).contains('\u{FFFD}'),
            forall|k: int| #[trigger] one_stray_byte(chunk@, k) ==> utf8_lossy(chunk@) == decode_utf8(
                chunk@.take(k),
            ) + seq!['\u{FFFD}'] + decode_utf8(chunk@.skip(k + 1)),
            final(self)@ == feed_text(old(self)@, utf8_lossy(chunk@)).0,
            frame_views(frames@) == feed_text(old(self)@, utf8_lossy(chunk@)).1,
            !has_newline(final(self)@.buffer),
    {
        let text = decode_lossy(chunk);
        self.feed_str_frames(text.as_str())
    }

    /// The frames that a piece of the stream's text completes, in order.
    fn feed_str_frames(&mut self, text: &str) -> (frames: Vec<SseFrame>)
        ensures
            final(self)@ == feed_text(old(self)@, text@).0,
            frame_views(frames@) == feed_text(old(self)@, text@).1,
            !has_newline(final(self)@.buffer),
    {
        let tc = chars_of(text);
        let mut buf: Vec<char> = Vec::new();
        std::mem::swap(&mut buf, &mut self.buffer);
        let ghost st0 = old(self)@;
        let mut k: usize = 0;
        while k < tc.len()
            invariant
                0 <= k <= tc.len(),
                buf@ == st0.buffer + tc@.take(k as int),
            decreases tc.len() - k,
        {
            buf.push(tc[k]);
            k = k + 1;
            assert(buf@ =~= st0.buffer + tc@.take(k as int));
        }
        assert(tc@.take(tc.len() as int) =~= tc@);
        let ghost full = buf@;
        let ghost target = run(st0.event_type, st0.data, full);
        let mut frames: Vec<SseFrame> = Vec::new();
        let mut pos: usize = 0;
        proof {
            assert(full.skip(0) =~= full);
            assert(frame_views(frames@) =~= Seq::empty());
            assert(frame_views(frames@) + target.1 =~= target.1);
            assert(self@.event_type == st0.event_type);
            assert(self@.data == st0.data);
        }
        loop
            invariant
                buf@ == full,
                st0 == old(self)@,
                0 <= pos <= full.len(),
                target == feed_text(st0, text@),
                ({
                    let rest = run(self@.event_type, self@.data, full.skip(pos as int));
                    &&& target.0 == rest.0
                    &&& target.1 == frame_views(frames@) + rest.1
                }),
            decreases full.len() - pos,
        {
            let mut j = pos;
            while j < buf.len() && buf[j] != '\n'
                invariant
                    buf@ == full,
                    pos <= j <= full.len(),
                    forall|m: int| pos <= m < j ==> full[m] != '\n',
                decreases full.len() - j,
            {
                j = j + 1;
            }
            if j == buf.len() {
                proof {
                    lemma_no_newline(full.skip(pos as int));
                    lemma_run_leaves_partial_line(self@.event_type, self@.data, full.skip(pos as int));
                }
                let rest = string_from(&buf, pos, buf.len());
                self.buffer = chars_of(rest.as_str());
                proof {
                    assert(self@.buffer =~= full.skip(pos as int));
                    assert(run(self@.event_type, self@.data, full.skip(pos as int)).0 == self@);
                    assert(frame_views(frames@) + Seq::<(Seq<char>, Seq<char>)>::empty()
                        =~= frame_views(frames@));
                }
                return frames;
            }
            let ghost rest_text = full.skip(pos as int);
            proof {
                assert(is_first_newline(rest_text, j - pos));
                lemma_first_newline_unique(rest_text, j - pos);
            }
            let mut end = j;
            while end > pos && buf[end - 1] == '\r'
                invariant
                    buf@ == full,
                    pos <= end <= j < full.len(),
                    trim_trailing_cr(full.subrange(pos as int, j as int)) == trim_trailing_cr(
                        full.subrange(pos as int, end as int),
                    ),
                decreases end,
            {
                assert(full.subrange(pos as int, end as int).drop_last() =~= full.subrange(
                    pos as int,
                    end - 1,
                ));
                end = end - 1;
            }
            let line = string_from(&buf, pos, end);
            proof {
                assert(rest_text.take(j - pos) =~= full.subrange(pos as int, j as int));
                assert(trim_trailing_cr(full.subrange(pos as int, end as int)) == full.subrange(
                    pos as int,
                    end as int,
                ));
                assert(rest_text.skip(j - pos + 1) =~= full.skip(j + 1));
            }
            let ghost before = self@;
            let ghost frames_before = frame_views(frames@);
            self.process_line(line.as_str(), &mut frames);
            proof {
                let step = line_step(before.event_type, before.data, line@);
                let rest = run(step.0, step.1, full.skip(j + 1));
                assert(frames_before + (frames_of(step.2) + rest.1) =~= (frames_before + frames_of(step.2)) + rest.1);
            }
            pos = j + 1;
        }
    }

    /// Applies one line (without its line end), adding to `frames` the
    /// event that it completes, if any.
    pub fn process_line(&mut self, line: &str, frames: &mut Vec<SseFrame>)
        ensures
            ({
                let step = line_step(old(self)@.event_type, old(self)@.data, line@);
                &&& final(self)@ == SseState { event_type: step.0, data: step.1, ..old(self)@ }
                &&& frame_views(final(frames)@) == frame_views(old(frames)@) + frames_of(step.2)
            }),
    {
        let cs = chars_of(line);
        let ghost frames0 = frame_views(frames@);
        if cs.len() == 0 {
            match self.emit_event() {
                Some(f) => {
                    frames.push(f);
                },
                None => {},
            }
            self.current_event_type = None;
            self.current_data = Vec::new();
            proof {
                assert(views(self.current_data@) =~= Seq::empty());
                assert(frame_views(frames@) =~= frames0 + frames_of(
                    line_step(old(self)@.event_type, old(self)@.data, line@).2,
                ));
            }
        } else {
            assert(frame_views(frames@) =~= frames0 + Seq::empty());
            match strip_prefix(&cs, "event: ") {
                Some(v) => {
                    self.current_event_type = Some(v);
                },
                None => {
                    if str_eq(line, "event:") {
                        self.current_event_type = Some(String::new());
                    } else {
                        match strip_prefix(&cs, "data: ") {
                            Some(v) => {
                                let ghost d0 = views(self.current_data@);
                                self.current_data.push(v);
                                assert(views(self.current_data@) =~= d0.push(v@));
                            },
                            None => {
                                if str_eq(line, "data:") {
                                    let ghost d0 = views(self.current_data@);
                                    self.current_data.push(String::new());
                                    assert(views(self.current_data@) =~= d0.push(Seq::empty()));
                                }
                            },
                        }
                    }
                },
            }
        }
    }

    /// The event that a blank line would complete now.
    fn emit_event(&self) -> (r: Option<SseFrame>)
        ensures
            r matches Some(f) ==> completed_frame(self@.event_type, self@.data) == Some(f@),
            r is None ==> completed_frame(self@.event_type, self@.data) is None,
    {
        if self.current_data.len() == 0 {
            return None;
        }
        let data = join(&self.current_data, "\n");
        let event_type = match &self.current_event_type {
            Some(t) => t.clone(),
            None => "message".to_owned(),
        };
        Some(SseFrame { event_type, data })
    }
}

} // verus!

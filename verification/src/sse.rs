//! Reading server-sent-event streams: line buffering, line classification and
//! the per-provider meaning of each event.
use vstd::prelude::*;
use vstd::string::*;
use vstd::utf8::*;
use crate::model::PanelError;
use crate::text::{chars_of, decimal, decimal_string, starts_with, starts_with_spec, trim, trim_spec};

verus! {

// ── Line buffering ──

/// The first newline byte of `buf` at or after `from`.
pub open spec fn first_newline(buf: Seq<u8>, from: int) -> Option<int>
    decreases buf.len() - from,
{
    if from < 0 || from >= buf.len() {
        None
    } else if buf[from] == 10u8 {
        Some(from)
    } else {
        first_newline(buf, from + 1)
    }
}

/// `first_newline` finds the first newline at or after `from`.
pub proof fn lemma_first_newline(buf: Seq<u8>, from: int)
    requires
        0 <= from,
    ensures
        match first_newline(buf, from) {
            Some(p) => from <= p < buf.len() && buf[p] == 10u8 && forall|k: int|
                from <= k < p ==> buf[k] != 10u8,
            None => forall|k: int| from <= k < buf.len() ==> buf[k] != 10u8,
        },
    decreases buf.len() - from,
{
    if from < buf.len() && buf[from] != 10u8 {
        lemma_first_newline(buf, from + 1);
    }
}

/// The complete (newline-terminated) lines at the front of `buf`, in order.
pub open spec fn complete_lines(buf: Seq<u8>) -> Seq<Seq<u8>>
    decreases buf.len(),
{
    match first_newline(buf, 0) {
        Some(p) => {
            proof {
                lemma_first_newline(buf, 0);
            }
            seq![buf.take(p + 1)] + complete_lines(buf.skip(p + 1))
        },
        None => Seq::empty(),
    }
}

/// What stays buffered after the complete lines are taken: the trailing
/// partial line.
pub open spec fn pending_bytes(buf: Seq<u8>) -> Seq<u8>
    decreases buf.len(),
{
    match first_newline(buf, 0) {
        Some(p) => {
            proof {
                lemma_first_newline(buf, 0);
            }
            pending_bytes(buf.skip(p + 1))
        },
        None => buf,
    }
}

/// The bytes of a list of lines, one after the other.
pub open spec fn flatten_lines(lines: Seq<Seq<u8>>) -> Seq<u8>
    decreases lines.len(),
{
    if lines.len() == 0 {
        Seq::empty()
    } else {
        lines[0] + flatten_lines(lines.drop_first())
    }
}

/// The text `String::from_utf8_lossy` makes of a byte sequence.
pub uninterp spec fn utf8_lossy(bytes: Seq<u8>) -> Seq<char>;

/// Calls `String::from_utf8_lossy`. Claimed: the result is a function of the
/// bytes alone, and valid UTF-8 comes back as exactly the characters it
/// encodes (std's documentation says so). What replaces invalid sequences is
/// left unstated.
#[verifier::external_body]
fn decode_utf8_lossy(bytes: &[u8]) -> (res: String)
    ensures
        res@ == utf8_lossy(bytes@),
        valid_utf8(bytes@) ==> res@ == decode_utf8(bytes@),
{
    String::from_utf8_lossy(bytes).into_owned()
}

proof fn lemma_no_newline_between(buf: Seq<u8>, from: int, to: int)
    requires
        0 <= from <= to,
        forall|k: int| from <= k < to ==> buf[k] != 10u8,
    ensures
        first_newline(buf, from) == first_newline(buf, to),
    decreases to - from,
{
    if from < to {
        lemma_no_newline_between(buf, from + 1, to);
    }
}

proof fn lemma_first_newline_shift(buf: Seq<u8>, s: int, from: int)
    requires
        0 <= s <= buf.len(),
        0 <= from,
    ensures
        first_newline(buf.skip(s), from) == match first_newline(buf, s + from) {
            Some(p) => Some(p - s),
            None => None,
        },
    decreases buf.len() - (s + from),
{
    if s + from < buf.len() && buf[s + from] != 10u8 {
        lemma_first_newline_shift(buf, s, from + 1);
    }
}

fn copy_range(v: &Vec<u8>, lo: usize, hi: usize) -> (res: Vec<u8>)
    requires
        lo <= hi <= v.len(),
    ensures
        res@ == v@.subrange(lo as int, hi as int),
{
    let mut out: Vec<u8> = Vec::new();
    let mut i = lo;
    while i < hi
        invariant
            lo <= i <= hi <= v.len(),
            out@ == v@.subrange(lo as int, i as int),
        decreases hi - i,
    {
        out.push(v[i]);
        i = i + 1;
        assert(out@ =~= v@.subrange(lo as int, i as int));
    }
    out
}

/// Takes every complete line out of the front of `buffer` and decodes it,
/// leaving a trailing partial line in place. The buffer holds bytes so that a
/// character split across two network chunks is decoded only once whole.
pub fn drain_lines(buffer: &mut Vec<u8>) -> (lines: Vec<String>)
    ensures
        final(buffer)@ == pending_bytes(old(buffer)@),
        lines@.len() == complete_lines(old(buffer)@).len(),
        forall|k: int|
            0 <= k < lines@.len() ==> #[trigger] lines@[k]@ == utf8_lossy(
                complete_lines(old(buffer)@)[k],
            ),
        forall|k: int|
            0 <= k < lines@.len() && valid_utf8(complete_lines(old(buffer)@)[k]) ==> #[trigger] lines@[k]@
                == decode_utf8(complete_lines(old(buffer)@)[k]),
{
    let ghost orig = buffer@;
    let mut lines: Vec<String> = Vec::new();
    let ghost mut taken: Seq<Seq<u8>> = Seq::empty();
    let mut start: usize = 0;
    let mut i: usize = 0;
    proof {
        assert(orig.skip(0) =~= orig);
    }
    while i < buffer.len()
        invariant
            buffer@ == orig,
            start <= i <= buffer.len(),
            complete_lines(orig) == taken + complete_lines(orig.skip(start as int)),
            pending_bytes(orig) == pending_bytes(orig.skip(start as int)),
            forall|k: int| start <= k < i ==> orig[k] != 10u8,
            lines@.len() == taken.len(),
            forall|k: int| 0 <= k < taken.len() ==> #[trigger] lines@[k]@ == utf8_lossy(taken[k]),
            forall|k: int|
                0 <= k < taken.len() && valid_utf8(taken[k]) ==> #[trigger] lines@[k]@ == decode_utf8(
                    taken[k],
                ),
        decreases buffer.len() - i,
    {
        if buffer[i] == 10u8 {
            let line = copy_range(buffer, start, i + 1);
            let text = decode_utf8_lossy(line.as_slice());
            lines.push(text);
            proof {
                let rest = orig.skip(start as int);
                lemma_no_newline_between(orig, start as int, i as int);
                lemma_first_newline_shift(orig, start as int, 0);
                assert(first_newline(rest, 0) == Some(i - start));
                assert(rest.take(i - start + 1) =~= orig.subrange(start as int, i + 1));
                assert(rest.skip(i - start + 1) =~= orig.skip(i + 1));
                taken = taken.push(orig.subrange(start as int, i + 1));
                assert(complete_lines(orig) =~= taken + complete_lines(orig.skip(i + 1)));
            }
            start = i + 1;
        }
        i = i + 1;
    }
    proof {
        let rest = orig.skip(start as int);
        lemma_no_newline_between(orig, start as int, orig.len() as int);
        lemma_first_newline_shift(orig, start as int, 0);
        assert(first_newline(rest, 0) is None);
        assert(taken + complete_lines(rest) =~= taken);
    }
    let n = buffer.len();
    let rest = copy_range(buffer, start, n);
    *buffer = rest;
    proof {
        assert(buffer@ =~= orig.skip(start as int));
    }
    lines
}

/// Splitting the stream into lines does not depend on where the network cut
/// it into chunks: draining `a`, then draining what stayed behind with `b`
/// appended, yields the same lines and leaves the same partial line as
/// draining `a + b` at once.
pub proof fn lemma_drain_chunking(a: Seq<u8>, b: Seq<u8>)
    ensures
        complete_lines(a) + complete_lines(pending_bytes(a) + b) == complete_lines(a + b),
        pending_bytes(pending_bytes(a) + b) == pending_bytes(a + b),
    decreases a.len(),
{
    lemma_first_newline(a, 0);
    lemma_first_newline(a + b, 0);
    match first_newline(a, 0) {
        Some(p) => {
            let a2 = a.skip(p + 1);
            assert forall|k: int| 0 <= k < p implies (a + b)[k] != 10u8 by {
                assert((a + b)[k] == a[k]);
            }
            assert((a + b)[p] == a[p]);
            assert(first_newline(a + b, 0) == Some(p));
            assert((a + b).take(p + 1) =~= a.take(p + 1));
            assert((a + b).skip(p + 1) =~= a2 + b);
            lemma_drain_chunking(a2, b);
            assert(complete_lines(a) + complete_lines(pending_bytes(a) + b) =~= complete_lines(
                a + b,
            ));
        },
        None => {
            assert(pending_bytes(a) == a);
            assert(complete_lines(a) =~= Seq::<Seq<u8>>::empty());
            assert(Seq::<Seq<u8>>::empty() + complete_lines(a + b) =~= complete_lines(a + b));
        },
    }
}

/// No byte is lost or invented: the complete lines followed by the partial
/// line are the buffer; every complete line ends with its only newline, and
/// the partial line holds none.
pub proof fn lemma_drain_preserves_bytes(buf: Seq<u8>)
    ensures
        flatten_lines(complete_lines(buf)) + pending_bytes(buf) == buf,
        forall|k: int|
            0 <= k < complete_lines(buf).len() ==> {
                let line = #[trigger] complete_lines(buf)[k];
                &&& line.len() > 0
                &&& line.last() == 10u8
                &&& forall|j: int| 0 <= j < line.len() - 1 ==> line[j] != 10u8
            },
        forall|j: int| 0 <= j < pending_bytes(buf).len() ==> pending_bytes(buf)[j] != 10u8,
    decreases buf.len(),
{
    lemma_first_newline(buf, 0);
    match first_newline(buf, 0) {
        Some(p) => {
            let rest = buf.skip(p + 1);
            lemma_drain_preserves_bytes(rest);
            let lines = complete_lines(buf);
            assert(lines.drop_first() =~= complete_lines(rest));
            assert(flatten_lines(lines) == lines[0] + flatten_lines(complete_lines(rest)));
            assert(buf.take(p + 1) + rest =~= buf);
            assert forall|k: int| 0 <= k < lines.len() implies {
                let line = #[trigger] lines[k];
                &&& line.len() > 0
                &&& line.last() == 10u8
                &&& forall|j: int| 0 <= j < line.len() - 1 ==> line[j] != 10u8
            } by {
                if k > 0 {
                    assert(lines[k] == complete_lines(rest)[k - 1]);
                }
            }
        },
        None => {},
    }
}

/// The bytes of a list of network chunks, one after the other.
pub open spec fn concat_chunks(chunks: Seq<Seq<u8>>) -> Seq<u8>
    decreases chunks.len(),
{
    if chunks.len() == 0 {
        Seq::empty()
    } else {
        chunks[0] + concat_chunks(chunks.drop_first())
    }
}

/// A stream read chunk by chunk: each chunk is appended to what stayed
/// buffered and `drain_lines` takes the complete lines out. The lines taken,
/// in order, and what stays buffered at the end.
pub open spec fn drain_chunks(pending: Seq<u8>, chunks: Seq<Seq<u8>>) -> (Seq<Seq<u8>>, Seq<u8>)
    decreases chunks.len(),
{
    if chunks.len() == 0 {
        (Seq::empty(), pending)
    } else {
        let buf = pending + chunks[0];
        let rest = drain_chunks(pending_bytes(buf), chunks.drop_first());
        (complete_lines(buf) + rest.0, rest.1)
    }
}

proof fn lemma_drain_chunks_after(a: Seq<u8>, chunks: Seq<Seq<u8>>)
    ensures
        complete_lines(a) + drain_chunks(pending_bytes(a), chunks).0 == complete_lines(
            a + concat_chunks(chunks),
        ),
        drain_chunks(pending_bytes(a), chunks).1 == pending_bytes(a + concat_chunks(chunks)),
    decreases chunks.len(),
{
    if chunks.len() == 0 {
        assert(a + concat_chunks(chunks) =~= a);
        assert(complete_lines(a) + Seq::<Seq<u8>>::empty() =~= complete_lines(a));
    } else {
        let c = chunks[0];
        let rest = chunks.drop_first();
        lemma_drain_chunking(a, c);
        lemma_drain_chunks_after(a + c, rest);
        assert(a + c + concat_chunks(rest) =~= a + concat_chunks(chunks));
        let r = drain_chunks(pending_bytes(a + c), rest);
        assert(drain_chunks(pending_bytes(a), chunks) == (
            complete_lines(pending_bytes(a) + c) + r.0,
            r.1,
        ));
        assert(complete_lines(a) + (complete_lines(pending_bytes(a) + c) + r.0) =~= (complete_lines(
            a,
        ) + complete_lines(pending_bytes(a) + c)) + r.0);
    }
}

/// A stream gives the same lines however the network cut it into chunks:
/// reading the chunks one by one, draining complete lines after each, yields
/// exactly the complete lines of the whole body, in order, and leaves its
/// trailing partial line buffered. Since each line is decoded whole, a
/// character split between chunks is decoded as it was sent.
pub proof fn lemma_stream_lines_ignore_chunking(chunks: Seq<Seq<u8>>)
    ensures
        drain_chunks(Seq::empty(), chunks).0 == complete_lines(concat_chunks(chunks)),
        drain_chunks(Seq::empty(), chunks).1 == pending_bytes(concat_chunks(chunks)),
        drain_chunks(Seq::empty(), chunks).0.map_values(|l: Seq<u8>| utf8_lossy(l))
            == complete_lines(concat_chunks(chunks)).map_values(|l: Seq<u8>| utf8_lossy(l)),
{
    let e = Seq::<u8>::empty();
    lemma_first_newline(e, 0);
    assert(first_newline(e, 0) is None);
    assert(pending_bytes(e) == e);
    assert(complete_lines(e) =~= Seq::<Seq<u8>>::empty());
    lemma_drain_chunks_after(e, chunks);
    assert(e + concat_chunks(chunks) =~= concat_chunks(chunks));
    assert(complete_lines(e) + drain_chunks(e, chunks).0 =~= drain_chunks(e, chunks).0);
}

// ── Line classification ──

/// What one SSE line asks of the reader.
#[derive(Debug)]
pub enum SseLine {
    /// Nothing to do: blank, or not a data line.
    Skip,
    /// The end-of-stream marker: stop reading.
    Done,
    /// The payload of a `data: ` line.
    Data(String),
}

/// Sorts one decoded line: blank lines and non-data lines are skipped, the
/// payload of a `data: ` line is handed on, and where `done_marker` is set the
/// line `data: [DONE]` ends the stream. Surrounding white space is ignored.
pub fn classify_sse_line(line: &str, done_marker: bool) -> (res: SseLine)
    ensures
        ({
            let t = trim_spec(line@);
            if t.len() == 0 {
                res is Skip
            } else if done_marker && t == "data: [DONE]"@ {
                res is Done
            } else if starts_with_spec(t, "data: "@) {
                res matches SseLine::Data(d) && d@ == t.skip("data: "@.len() as int)
            } else {
                res is Skip
            }
        }),
{
    let t = trim(line);
    let tc = chars_of(t.as_str());
    if tc.len() == 0 {
        return SseLine::Skip;
    }
    if done_marker && t == String::from_str("data: [DONE]") {
        return SseLine::Done;
    }
    let prefix = chars_of("data: ");
    if starts_with(&tc, &prefix) {
        SseLine::Data(String::from_str(t.as_str().substring_char(prefix.len(), tc.len())))
    } else {
        SseLine::Skip
    }
}

// ── Reading the next chunk ──

/// What waiting for the next chunk of a response body produced.
#[derive(Debug)]
pub enum ChunkOutcome {
    /// A cancel was requested before waiting.
    Cancelled,
    /// A chunk of bytes arrived.
    Data(Vec<u8>),
    /// The transport failed, with its message.
    Failed(String),
    /// The body ended.
    Ended,
    /// No data arrived within the idle limit.
    TimedOut,
}

/// What the stream reader does next.
#[derive(Debug)]
pub enum StreamStep {
    Chunk(Vec<u8>),
    Done,
}

/// The text of the error for a stream that went silent.
pub open spec fn stall_text(provider: Seq<char>, idle_secs: nat) -> Seq<char> {
    provider + " stream stalled: no data for "@ + decimal(idle_secs) + " seconds"@
}

/// Turns a cancel request or the end of the body into a stop, and a transport
/// failure or an over-long silence into an error.
pub fn next_stream_step(outcome: ChunkOutcome, provider: &str, idle_secs: u64) -> (res: Result<
    StreamStep,
    PanelError,
>)
    ensures
        match outcome {
            ChunkOutcome::Cancelled => res matches Ok(StreamStep::Done),
            ChunkOutcome::Ended => res matches Ok(StreamStep::Done),
            ChunkOutcome::Data(bytes) => res matches Ok(StreamStep::Chunk(b)) && b@ == bytes@,
            ChunkOutcome::Failed(m) => res matches Err(PanelError::ApiError(e)) && e@ == m@,
            ChunkOutcome::TimedOut => res matches Err(PanelError::ApiError(e)) && e@ == stall_text(
                provider@,
                idle_secs as nat,
            ),
        },
{
    match outcome {
        ChunkOutcome::Cancelled => Ok(StreamStep::Done),
        ChunkOutcome::Ended => Ok(StreamStep::Done),
        ChunkOutcome::Data(bytes) => Ok(StreamStep::Chunk(bytes)),
        ChunkOutcome::Failed(m) => Err(PanelError::ApiError(m)),
        ChunkOutcome::TimedOut => {
            let mut s = String::from_str(provider);
            s.append(" stream stalled: no data for ");
            let secs = decimal_string(idle_secs);
            s.append(secs.as_str());
            s.append(" seconds");
            Err(PanelError::ApiError(s))
        },
    }
}


// ── Provider events ──

/// One thing a streaming answer asks the listener to do.
#[derive(Debug)]
pub enum StreamEvent {
    /// A piece of the answer.
    Chunk(String),
    /// A piece of a reasoning trace.
    Thinking(String),
    /// The provider said the message is complete.
    Stop,
}

/// What an event says: `None` for a stop, else whether it is reasoning and
/// its text.
pub open spec fn event_view(e: StreamEvent) -> Option<(bool, Seq<char>)> {
    match e {
        StreamEvent::Chunk(t) => Some((false, t@)),
        StreamEvent::Thinking(t) => Some((true, t@)),
        StreamEvent::Stop => None,
    }
}

/// The views of a list of events.
pub open spec fn events_view(v: Seq<StreamEvent>) -> Seq<Option<(bool, Seq<char>)>> {
    v.map_values(|e: StreamEvent| event_view(e))
}

/// The text of an optional string.
pub open spec fn opt_chars(o: Option<String>) -> Option<Seq<char>> {
    match o {
        Some(s) => Some(s@),
        None => None,
    }
}

/// The payload of a `data: ` line, once surrounding white space is trimmed.
pub open spec fn line_payload(line: Seq<char>) -> Option<Seq<char>> {
    let t = trim_spec(line);
    if t.len() > 0 && starts_with_spec(t, "data: "@) {
        Some(t.skip("data: "@.len() as int))
    } else {
        None
    }
}

/// The end-of-stream line of the OpenAI-compatible APIs.
pub open spec fn is_done_line(line: Seq<char>) -> bool {
    trim_spec(line) == "data: [DONE]"@
}

fn single_event(e: StreamEvent) -> (res: Vec<StreamEvent>)
    ensures
        events_view(res@) == seq![event_view(e)],
        res@.len() == 1,
{
    let mut v: Vec<StreamEvent> = Vec::new();
    v.push(e);
    assert(events_view(v@) =~= seq![event_view(e)]);
    v
}

fn no_events() -> (res: Vec<StreamEvent>)
    ensures
        events_view(res@) == Seq::<Option<(bool, Seq<char>)>>::empty(),
        res@.len() == 0,
{
    let v: Vec<StreamEvent> = Vec::new();
    assert(events_view(v@) =~= Seq::<Option<(bool, Seq<char>)>>::empty());
    v
}

// ── OpenAI-compatible streams ──

/// The field of an OpenAI-compatible stream event that the reader uses:
/// `choices[0].delta.content`, present only where it is a string.
#[derive(Debug)]
pub struct OpenAiStreamDelta {
    pub content: Option<String>,
}

/// `choices[0].delta.content` of a JSON payload, where that is a string;
/// `None` for a payload that is not JSON.
pub uninterp spec fn openai_delta_of(data: Seq<char>) -> Option<Option<Seq<char>>>;

/// Parses a payload with `serde_json::from_str` into a `serde_json::Value`
/// and reads `choices[0].delta.content` with `as_str`. Claimed: the result
/// is a function of the payload alone (`openai_delta_of`), and `None` comes
/// back exactly where that name says the payload is not JSON.
#[verifier::external_body]
fn parse_openai_delta(data: &str) -> (res: Option<OpenAiStreamDelta>)
    ensures
        match openai_delta_of(data@) {
            None => res is None,
            Some(c) => res matches Some(d) && opt_chars(d.content) == c,
        },
{
    serde_json::from_str::<serde_json::Value>(data).ok().map(
        |v| OpenAiStreamDelta { content: v["choices"][0]["delta"]["content"].as_str().map(|s| s.to_string()) },
    )
}

/// The events of an OpenAI-compatible delta: its answer text, if any. This
/// client reports no reasoning traces.
pub open spec fn openai_events_spec(content: Option<Seq<char>>) -> Seq<Option<(bool, Seq<char>)>> {
    match content {
        Some(c) => seq![Some((false, c))],
        None => Seq::empty(),
    }
}

/// The answer text of a delta, as a chunk event; nothing else.
pub fn openai_stream_events(delta: OpenAiStreamDelta) -> (res: Vec<StreamEvent>)
    ensures
        events_view(res@) == openai_events_spec(opt_chars(delta.content)),
        res@.len() == if delta.content is Some { 1int } else { 0 },
{
    match delta.content {
        Some(c) => single_event(StreamEvent::Chunk(c)),
        None => no_events(),
    }
}

/// The events of one line of an OpenAI-compatible stream: `data: [DONE]`
/// stops it, a `data: ` line carrying answer text gives a chunk, and every
/// other line gives nothing.
pub open spec fn openai_line_spec(line: Seq<char>) -> Seq<Option<(bool, Seq<char>)>> {
    if is_done_line(line) {
        seq![None]
    } else {
        match line_payload(line) {
            Some(d) => match openai_delta_of(d) {
                Some(c) => openai_events_spec(c),
                None => Seq::empty(),
            },
            None => Seq::empty(),
        }
    }
}

/// The events of one decoded line of an OpenAI-compatible stream.
pub fn openai_line_events(line: &str) -> (res: Vec<StreamEvent>)
    ensures
        events_view(res@) == openai_line_spec(line@),
{
    proof {
        reveal_strlit("data: [DONE]");
    }
    match classify_sse_line(line, true) {
        SseLine::Skip => no_events(),
        SseLine::Done => single_event(StreamEvent::Stop),
        SseLine::Data(d) => match parse_openai_delta(d.as_str()) {
            Some(delta) => openai_stream_events(delta),
            None => no_events(),
        },
    }
}

// ── Anthropic streams ──

/// The fields of an Anthropic stream event that the reader uses: `type`,
/// `delta.text` and `delta.thinking`, each present only where it is a string.
#[derive(Debug)]
pub struct AnthropicStreamEvent {
    pub event_type: Option<String>,
    pub delta_text: Option<String>,
    pub delta_thinking: Option<String>,
}

/// `type`, `delta.text` and `delta.thinking` of a JSON payload, each where
/// it is a string; `None` for a payload that is not JSON.
pub uninterp spec fn anthropic_event_of(data: Seq<char>) -> Option<
    (Option<Seq<char>>, Option<Seq<char>>, Option<Seq<char>>),
>;

/// Parses a payload with `serde_json::from_str` into a `serde_json::Value`
/// and reads `type`, `delta.text` and `delta.thinking` with `as_str`.
/// Claimed: the result is a function of the payload alone
/// (`anthropic_event_of`), and `None` comes back exactly where that name
/// says the payload is not JSON.
#[verifier::external_body]
fn parse_anthropic_event(data: &str) -> (res: Option<AnthropicStreamEvent>)
    ensures
        match anthropic_event_of(data@) {
            None => res is None,
            Some(f) => res matches Some(e) && opt_chars(e.event_type) == f.0 && opt_chars(e.delta_text)
                == f.1 && opt_chars(e.delta_thinking) == f.2,
        },
{
    serde_json::from_str::<serde_json::Value>(data).ok().map(|v| AnthropicStreamEvent {
        event_type: v["type"].as_str().map(|s| s.to_string()),
        delta_text: v["delta"]["text"].as_str().map(|s| s.to_string()),
        delta_thinking: v["delta"]["thinking"].as_str().map(|s| s.to_string()),
    })
}

/// The events of an Anthropic stream event: a `content_block_delta` carries
/// answer text, or else reasoning text, which is reported only when the
/// request asked for thinking; a `message_stop` ends the stream; every other
/// event is ignored.
pub open spec fn anthropic_events_spec(
    ev: (Option<Seq<char>>, Option<Seq<char>>, Option<Seq<char>>),
    thinking: bool,
) -> Seq<Option<(bool, Seq<char>)>> {
    match ev.0 {
        Some(t) => if t == "content_block_delta"@ {
            match ev.1 {
                Some(x) => seq![Some((false, x))],
                None => match ev.2 {
                    Some(y) => if thinking {
                        seq![Some((true, y))]
                    } else {
                        Seq::empty()
                    },
                    None => Seq::empty(),
                },
            }
        } else if t == "message_stop"@ {
            seq![None]
        } else {
            Seq::empty()
        },
        None => Seq::empty(),
    }
}

/// The events of one Anthropic stream event; `thinking` says whether the
/// request asked for reasoning traces.
pub fn anthropic_stream_events(event: AnthropicStreamEvent, thinking: bool) -> (res: Vec<StreamEvent>)
    ensures
        events_view(res@) == anthropic_events_spec(
            (opt_chars(event.event_type), opt_chars(event.delta_text), opt_chars(event.delta_thinking)),
            thinking,
        ),
{
    match event.event_type {
        Some(t) => {
            if t == String::from_str("content_block_delta") {
                match event.delta_text {
                    Some(x) => single_event(StreamEvent::Chunk(x)),
                    None => match event.delta_thinking {
                        Some(y) => if thinking {
                            single_event(StreamEvent::Thinking(y))
                        } else {
                            no_events()
                        },
                        None => no_events(),
                    },
                }
            } else if t == String::from_str("message_stop") {
                single_event(StreamEvent::Stop)
            } else {
                no_events()
            }
        },
        None => no_events(),
    }
}

/// The events of one line of an Anthropic stream: a `data: ` line whose
/// payload is JSON gives the events of that stream event; every other line
/// gives nothing.
pub open spec fn anthropic_line_spec(line: Seq<char>, thinking: bool) -> Seq<Option<(bool, Seq<char>)>> {
    match line_payload(line) {
        Some(d) => match anthropic_event_of(d) {
            Some(ev) => anthropic_events_spec(ev, thinking),
            None => Seq::empty(),
        },
        None => Seq::empty(),
    }
}

/// The events of one decoded line of an Anthropic stream.
pub fn anthropic_line_events(line: &str, thinking: bool) -> (res: Vec<StreamEvent>)
    ensures
        events_view(res@) == anthropic_line_spec(line@, thinking),
{
    match classify_sse_line(line, false) {
        SseLine::Data(d) => match parse_anthropic_event(d.as_str()) {
            Some(ev) => anthropic_stream_events(ev, thinking),
            None => no_events(),
        },
        _ => no_events(),
    }
}

// ── Gemini streams ──

/// One part of `candidates[0].content.parts` in a Gemini stream event: its
/// `text` where that is a string, and its `thought` flag where that is a bool.
#[derive(Debug)]
pub struct GeminiStreamPart {
    pub text: Option<String>,
    pub thought: Option<bool>,
}

/// The views of a list of Gemini parts.
pub open spec fn gemini_parts_view(v: Seq<GeminiStreamPart>) -> Seq<(Option<Seq<char>>, Option<bool>)> {
    v.map_values(|p: GeminiStreamPart| (opt_chars(p.text), p.thought))
}

/// The parts of `candidates[0].content.parts` of a JSON payload, each as its
/// `text` and `thought` fields; `None` for a payload that is not JSON or
/// has no such array.
pub uninterp spec fn gemini_parts_of(data: Seq<char>) -> Option<Seq<(Option<Seq<char>>, Option<bool>)>>;

/// Parses a payload with `serde_json::from_str` into a `serde_json::Value`,
/// takes `candidates[0].content.parts` with `as_array`, and reads each part's
/// `text` with `as_str` and `thought` with `as_bool`. Claimed: the result is
/// a function of the payload alone (`gemini_parts_of`), in the array's order.
#[verifier::external_body]
fn parse_gemini_parts(data: &str) -> (res: Option<Vec<GeminiStreamPart>>)
    ensures
        match gemini_parts_of(data@) {
            None => res is None,
            Some(ps) => res matches Some(v) && gemini_parts_view(v@) == ps,
        },
{
    serde_json::from_str::<serde_json::Value>(data).ok().and_then(|v| {
        v["candidates"][0]["content"]["parts"].as_array().map(|ps| ps.iter().map(|p| GeminiStreamPart {
            text: p["text"].as_str().map(|s| s.to_string()),
            thought: p["thought"].as_bool(),
        }).collect())
    })
}

/// The event of one Gemini part, if any: a part without text gives none, a
/// part flagged as a thought is reasoning, reported only when the request
/// asked for thinking, and any other part is answer text.
pub open spec fn gemini_part_event(p: (Option<Seq<char>>, Option<bool>), thinking: bool) -> Option<
    Option<(bool, Seq<char>)>,
> {
    match p.0 {
        Some(t) => if p.1 == Some(true) {
            if thinking {
                Some(Some((true, t)))
            } else {
                None
            }
        } else {
            Some(Some((false, t)))
        },
        None => None,
    }
}

/// The events of a list of Gemini parts, in order.
pub open spec fn gemini_events_spec(parts: Seq<(Option<Seq<char>>, Option<bool>)>, thinking: bool) -> Seq<
    Option<(bool, Seq<char>)>,
>
    decreases parts.len(),
{
    if parts.len() == 0 {
        Seq::empty()
    } else {
        let prev = gemini_events_spec(parts.drop_last(), thinking);
        match gemini_part_event(parts.last(), thinking) {
            Some(e) => prev.push(e),
            None => prev,
        }
    }
}

/// Every Gemini part with text gives one event, in order, and no other
/// part does, except that thought parts are left out when the request did
/// not ask for thinking: a thought part is reasoning, any other answer text.
pub proof fn lemma_gemini_events_are_the_text_parts(
    parts: Seq<(Option<Seq<char>>, Option<bool>)>,
    thinking: bool,
)
    ensures
        gemini_events_spec(parts, thinking) == parts.filter(
            |p: (Option<Seq<char>>, Option<bool>)| p.0 is Some && (p.1 != Some(true) || thinking),
        ).map_values(
            |p: (Option<Seq<char>>, Option<bool>)| Some((p.1 == Some(true), p.0.unwrap())),
        ),
    decreases parts.len(),
{
    reveal(Seq::filter);
    let pred = |p: (Option<Seq<char>>, Option<bool>)| p.0 is Some && (p.1 != Some(true) || thinking);
    let f = |p: (Option<Seq<char>>, Option<bool>)| Some((p.1 == Some(true), p.0.unwrap()));
    if parts.len() == 0 {
        assert(parts.filter(pred) =~= Seq::<(Option<Seq<char>>, Option<bool>)>::empty());
        assert(parts.filter(pred).map_values(f) =~= Seq::<Option<(bool, Seq<char>)>>::empty());
    } else {
        lemma_gemini_events_are_the_text_parts(parts.drop_last(), thinking);
        let sub = parts.drop_last().filter(pred);
        if pred(parts.last()) {
            assert(parts.filter(pred) == sub.push(parts.last()));
            assert(sub.push(parts.last()).map_values(f) =~= sub.map_values(f).push(f(parts.last())));
        } else {
            assert(parts.filter(pred) == sub);
        }
    }
}

/// The events of the parts of one Gemini stream event, in order; `thinking`
/// says whether the request asked for reasoning traces.
pub fn gemini_stream_events(parts: Vec<GeminiStreamPart>, thinking: bool) -> (res: Vec<StreamEvent>)
    ensures
        events_view(res@) == gemini_events_spec(gemini_parts_view(parts@), thinking),
{
    let ghost pv = gemini_parts_view(parts@);
    let mut out: Vec<StreamEvent> = Vec::new();
    let mut k: usize = 0;
    assert(events_view(out@) =~= gemini_events_spec(pv.subrange(0, 0), thinking));
    while k < parts.len()
        invariant
            k <= parts.len(),
            pv == gemini_parts_view(parts@),
            events_view(out@) == gemini_events_spec(pv.subrange(0, k as int), thinking),
        decreases parts.len() - k,
    {
        assert(pv.subrange(0, k + 1).drop_last() =~= pv.subrange(0, k as int));
        assert(pv.subrange(0, k + 1).last() == pv[k as int]);
        let ghost prev = out@;
        let part = &parts[k];
        match &part.text {
            Some(t) => {
                let is_thought = match part.thought {
                    Some(b) => b,
                    None => false,
                };
                if is_thought {
                    if thinking {
                        out.push(StreamEvent::Thinking(t.clone()));
                        assert(events_view(out@) =~= events_view(prev).push(Some((true, t@))));
                    }
                } else {
                    out.push(StreamEvent::Chunk(t.clone()));
                    assert(events_view(out@) =~= events_view(prev).push(Some((false, t@))));
                }
            },
            None => {},
        }
        k = k + 1;
    }
    assert(pv.subrange(0, parts.len() as int) =~= pv);
    out
}

/// The events of one line of a Gemini stream: a `data: ` line whose payload
/// is JSON with a parts array gives the events of those parts; every other
/// line gives nothing.
pub open spec fn gemini_line_spec(line: Seq<char>, thinking: bool) -> Seq<Option<(bool, Seq<char>)>> {
    match line_payload(line) {
        Some(d) => match gemini_parts_of(d) {
            Some(ps) => gemini_events_spec(ps, thinking),
            None => Seq::empty(),
        },
        None => Seq::empty(),
    }
}

/// The events of one decoded line of a Gemini stream.
pub fn gemini_line_events(line: &str, thinking: bool) -> (res: Vec<StreamEvent>)
    ensures
        events_view(res@) == gemini_line_spec(line@, thinking),
{
    match classify_sse_line(line, false) {
        SseLine::Data(d) => match parse_gemini_parts(d.as_str()) {
            Some(parts) => gemini_stream_events(parts, thinking),
            None => no_events(),
        },
        _ => no_events(),
    }
}

} // verus!

//! Framing of server-sent events: raw chunks in, complete payloads out,
//! whatever they carry.

use vstd::prelude::*;
use vstd::string::*;

use crate::text;

verus! {

/// What a stream holds.
pub enum SseEvent {
    Data(String),
    Done,
}

/// What an event stands for.
pub enum SseView {
    Data(Seq<char>),
    Done,
}

impl View for SseEvent {
    type V = SseView;

    open spec fn view(&self) -> SseView {
        match self {
            SseEvent::Data(s) => SseView::Data(s@),
            SseEvent::Done => SseView::Done,
        }
    }
}

/// The views of events.
pub open spec fn sse_view(events: Seq<SseEvent>) -> Seq<SseView> {
    Seq::new(events.len(), |i: int| events[i]@)
}

/// An incremental decoder. It takes LF, CRLF and CR line ends, comments and
/// other fields, events of several `data:` lines, characters split over
/// chunks, and a last event without a blank line behind it.
pub struct SseDecoder {
    /// Bytes of the line that is not complete.
    pub buffer: Vec<u8>,
    /// The payload of the event that is not complete.
    pub data: Vec<u8>,
    pub has_data: bool,
    /// Whether a line was seen.
    pub first_line: bool,
}

/// The part of a decoder that lines change.
pub struct LineState {
    pub data: Seq<u8>,
    pub has_data: bool,
    pub first_line: bool,
}

/// What a decoder stands for.
pub struct DecoderView {
    pub buffer: Seq<u8>,
    pub lines: LineState,
}

impl View for SseDecoder {
    type V = DecoderView;

    open spec fn view(&self) -> DecoderView {
        DecoderView {
            buffer: self.buffer@,
            lines: LineState {
                data: self.data@,
                has_data: self.has_data,
                first_line: self.first_line,
            },
        }
    }
}

/// A decoder before its first chunk.
pub open spec fn fresh() -> DecoderView {
    DecoderView {
        buffer: seq![],
        lines: LineState { data: seq![], has_data: false, first_line: false },
    }
}

// ---------------------------------------------------------------------------
// Payloads
// ---------------------------------------------------------------------------

/// The words for bytes that are not UTF-8.
pub uninterp spec fn utf8_fault(bytes: Seq<u8>) -> Seq<char>;

/// Calls `String::from_utf8`. The claim: bytes that are valid UTF-8 give the
/// text that they encode, all others an error, whose words depend on the
/// bytes alone.
#[verifier::external_body]
fn decoded(bytes: Vec<u8>) -> (r: Result<String, String>)
    ensures
        match r {
            Ok(s) => vstd::utf8::valid_utf8(bytes@) && s@ == vstd::utf8::decode_utf8(bytes@),
            Err(e) => !vstd::utf8::valid_utf8(bytes@) && e@ == utf8_fault(bytes@),
        },
{
    String::from_utf8(bytes).map_err(|e| e.to_string())
}

/// The event of a payload, or the words of why it is none.
pub open spec fn payload_event(data: Seq<u8>) -> Result<SseView, Seq<char>> {
    if vstd::utf8::valid_utf8(data) {
        let s = vstd::utf8::decode_utf8(data);
        if s == "[DONE]"@ {
            Ok(SseView::Done)
        } else {
            Ok(SseView::Data(s))
        }
    } else {
        Err(utf8_fault(data))
    }
}

/// The state once a payload was handed out: after a fault the event is not
/// closed.
pub open spec fn dispatched(st: LineState) -> LineState {
    LineState {
        data: seq![],
        has_data: payload_event(st.data) is Err,
        first_line: st.first_line,
    }
}

/// Hand out the payload that was collected.
pub fn dispatch_sse_data(data: &mut Vec<u8>, has_data: &mut bool) -> (r: Result<SseEvent, String>)
    requires
        *old(has_data),
    ensures
        final(data)@ == Seq::<u8>::empty(),
        *final(has_data) == (r is Err),
        match r {
            Ok(event) => payload_event(old(data)@) == Ok::<SseView, Seq<char>>(event@),
            Err(e) => payload_event(old(data)@) == Err::<SseView, Seq<char>>(e@),
        },
{
    let mut taken: Vec<u8> = Vec::new();
    std::mem::swap(&mut taken, data);
    assert(data@ =~= seq![]);
    let value = match decoded(taken) {
        Ok(s) => s,
        Err(e) => {
            return Err(e);
        },
    };
    *has_data = false;
    if text::same(value.as_str(), "[DONE]") {
        Ok(SseEvent::Done)
    } else {
        Ok(SseEvent::Data(value))
    }
}

// ---------------------------------------------------------------------------
// Lines
// ---------------------------------------------------------------------------

/// A line without a byte-order mark, where it is the first one.
pub open spec fn unmarked(st: LineState, line: Seq<u8>) -> Seq<u8> {
    if !st.first_line && line.len() >= 3 && line[0] == 0xef && line[1] == 0xbb && line[2]
        == 0xbf {
        line.skip(3)
    } else {
        line
    }
}

/// The place of the first colon from `from` on, or the line's end.
pub open spec fn colon_from(line: Seq<u8>, from: int) -> int
    decreases line.len() - from,
{
    if from < 0 || from >= line.len() || line[from] == 58 {
        if from < 0 {
            0
        } else {
            from
        }
    } else {
        colon_from(line, from + 1)
    }
}

/// Whether a line's field is the payload.
pub open spec fn is_data(line: Seq<u8>) -> bool {
    let colon = colon_from(line, 0);
    colon == 4 && line[0] == 100 && line[1] == 97 && line[2] == 116 && line[3] == 97
}

/// The payload of a line: one space behind the colon is not part of it.
pub open spec fn data_value(line: Seq<u8>) -> Seq<u8> {
    let rest = if line.len() > 5 {
        line.skip(5)
    } else {
        seq![]
    };
    if rest.len() > 0 && rest[0] == 32 {
        rest.skip(1)
    } else {
        rest
    }
}

/// The state after a line.
pub open spec fn line_state(st: LineState, raw: Seq<u8>) -> LineState {
    let line = unmarked(st, raw);
    let seen = LineState { first_line: true, ..st };
    if line.len() == 0 {
        if st.has_data {
            dispatched(seen)
        } else {
            seen
        }
    } else if is_data(line) {
        LineState {
            data: if st.has_data {
                st.data.push(10) + data_value(line)
            } else {
                st.data + data_value(line)
            },
            has_data: true,
            first_line: true,
        }
    } else {
        seen
    }
}

/// What a line hands out: a blank one closes the event before it.
pub open spec fn line_event(st: LineState, raw: Seq<u8>) -> Option<Result<SseView, Seq<char>>> {
    if unmarked(st, raw).len() == 0 && st.has_data {
        Some(payload_event(st.data))
    } else {
        None
    }
}

fn append_range(out: &mut Vec<u8>, line: &Vec<u8>, from: usize, to: usize)
    requires
        from <= to <= line@.len(),
    ensures
        final(out)@ == old(out)@ + line@.subrange(from as int, to as int),
{
    let ghost start = out@;
    let mut i: usize = from;
    assert(start + line@.subrange(from as int, from as int) =~= start);
    while i < to
        invariant
            from <= i <= to <= line@.len(),
            out@ == start + line@.subrange(from as int, i as int),
        decreases to - i,
    {
        out.push(line[i]);
        assert(start + line@.subrange(from as int, i + 1) =~= (start + line@.subrange(
            from as int,
            i as int,
        )).push(line@[i as int]));
        i = i + 1;
    }
}

fn find_colon(line: &Vec<u8>) -> (r: usize)
    ensures
        r == colon_from(line@, 0),
        r <= line@.len(),
{
    let mut i: usize = 0;
    while i < line.len() && line[i] != 58
        invariant
            i <= line@.len(),
            colon_from(line@, 0) == colon_from(line@, i as int),
        decreases line@.len() - i,
    {
        i = i + 1;
    }
    i
}

impl SseDecoder {
    /// A decoder before its first chunk.
    pub fn new() -> (r: SseDecoder)
        ensures
            r@ == fresh(),
    {
        let r = SseDecoder {
            buffer: Vec::new(),
            data: Vec::new(),
            has_data: false,
            first_line: false,
        };
        assert(r@.buffer =~= seq![]);
        assert(r@.lines.data =~= seq![]);
        r
    }

    /// Take one line, without its end.
    pub fn process_sse_line(&mut self, raw: Vec<u8>) -> (r: Result<Option<SseEvent>, String>)
        ensures
            final(self).buffer == old(self).buffer,
            final(self)@.lines == line_state(old(self)@.lines, raw@),
            match r {
                Ok(Some(event)) => line_event(old(self)@.lines, raw@) == Some(
                    Ok::<SseView, Seq<char>>(event@),
                ),
                Ok(None) => line_event(old(self)@.lines, raw@) is None,
                Err(e) => line_event(old(self)@.lines, raw@) == Some(
                    Err::<SseView, Seq<char>>(e@),
                ),
            },
    {
        let ghost st = self@.lines;
        let mut line: Vec<u8> = Vec::new();
        if !self.first_line && raw.len() >= 3 && raw[0] == 0xef && raw[1] == 0xbb && raw[2]
            == 0xbf {
            append_range(&mut line, &raw, 3, raw.len());
            assert(line@ =~= raw@.skip(3));
        } else {
            append_range(&mut line, &raw, 0, raw.len());
            assert(line@ =~= raw@);
        }
        assert(line@ == unmarked(st, raw@));
        self.first_line = true;
        if line.len() == 0 {
            if self.has_data {
                return match dispatch_sse_data(&mut self.data, &mut self.has_data) {
                    Ok(event) => Ok(Some(event)),
                    Err(e) => Err(e),
                };
            }
            return Ok(None);
        }
        let colon: usize = find_colon(&line);
        if !(colon == 4 && line[0] == 100 && line[1] == 97 && line[2] == 116 && line[3] == 97) {
            return Ok(None);
        }
        let mut from: usize = if line.len() > 5 {
            5
        } else {
            line.len()
        };
        let ghost rest = if line@.len() > 5 {
            line@.skip(5)
        } else {
            seq![]
        };
        assert(rest =~= line@.subrange(from as int, line@.len() as int));
        if from < line.len() && line[from] == 32 {
            assert(rest[0] == 32);
            from = from + 1;
            assert(rest.skip(1) =~= line@.subrange(from as int, line@.len() as int));
        }
        assert(line@.subrange(from as int, line@.len() as int) =~= data_value(line@));
        if self.has_data {
            self.data.push(10);
        }
        append_range(&mut self.data, &line, from, line.len());
        self.has_data = true;
        Ok(None)
    }
}

// ---------------------------------------------------------------------------
// Chunks
// ---------------------------------------------------------------------------

/// The first line end from `from` on: where it stands, and where the next
/// line starts. A CR at the very end is none before the stream ends, for an
/// LF may follow.
pub open spec fn line_end(buf: Seq<u8>, from: int, eof: bool) -> Option<(int, int)>
    decreases buf.len() - from,
{
    if from < 0 || from >= buf.len() {
        None
    } else if buf[from] == 10 {
        Some((from, from + 1))
    } else if buf[from] == 13 && from + 1 < buf.len() {
        Some(
            (
                from,
                if buf[from + 1] == 10 {
                    from + 2
                } else {
                    from + 1
                },
            ),
        )
    } else if buf[from] == 13 && eof {
        Some((from, from + 1))
    } else {
        line_end(buf, from + 1, eof)
    }
}

/// What reading lines comes to.
pub struct LineRun {
    /// The bytes that no line took.
    pub rest: Seq<u8>,
    pub lines: LineState,
    pub events: Seq<SseView>,
    /// The words of the first fault, which ends the reading.
    pub fault: Option<Seq<char>>,
}

/// A line's end stands behind the place where it is looked for.
pub proof fn lemma_line_end(buf: Seq<u8>, from: int, eof: bool)
    requires
        0 <= from,
    ensures
        line_end(buf, from, eof) matches Some((end, next)) ==> from <= end < next <= buf.len(),
    decreases buf.len() - from,
{
    if from < buf.len() {
        lemma_line_end(buf, from + 1, eof);
    }
}

/// Read the lines of a buffer, one after the other.
pub open spec fn run_lines(buf: Seq<u8>, st: LineState, eof: bool) -> LineRun
    decreases buf.len(),
{
    match line_end(buf, 0, eof) {
        Some((end, next)) => {
            let line = buf.take(end);
            let after = line_state(st, line);
            match line_event(st, line) {
                Some(Err(fault)) => LineRun {
                    rest: buf,
                    lines: after,
                    events: seq![],
                    fault: Some(fault),
                },
                Some(Ok(event)) => {
                    proof {
                        lemma_line_end(buf, 0, eof);
                    }
                    let more = run_lines(buf.skip(next), after, eof);
                    LineRun { events: seq![event] + more.events, ..more }
                },
                None => {
                    proof {
                        lemma_line_end(buf, 0, eof);
                    }
                    run_lines(buf.skip(next), after, eof)
                },
            }
        },
        None => if eof && buf.len() > 0 {
            match line_event(st, buf) {
                Some(Err(fault)) => LineRun {
                    rest: buf,
                    lines: line_state(st, buf),
                    events: seq![],
                    fault: Some(fault),
                },
                Some(Ok(event)) => LineRun {
                    rest: seq![],
                    lines: line_state(st, buf),
                    events: seq![event],
                    fault: None,
                },
                None => LineRun {
                    rest: seq![],
                    lines: line_state(st, buf),
                    events: seq![],
                    fault: None,
                },
            }
        } else {
            LineRun { rest: buf, lines: st, events: seq![], fault: None }
        },
    }
}

/// A decoder and what it hands out after reading what it holds. At the end of
/// the stream the last event is closed. A fault leaves the bytes in place.
pub open spec fn parse_spec(d: DecoderView, eof: bool) -> (DecoderView, Result<
    Seq<SseView>,
    Seq<char>,
>) {
    let run = run_lines(d.buffer, d.lines, eof);
    match run.fault {
        Some(fault) => (DecoderView { buffer: d.buffer, lines: run.lines }, Err(fault)),
        None => if eof && run.lines.has_data {
            (
                DecoderView { buffer: run.rest, lines: dispatched(run.lines) },
                match payload_event(run.lines.data) {
                    Ok(event) => Ok(run.events.push(event)),
                    Err(fault) => Err(fault),
                },
            )
        } else {
            (DecoderView { buffer: run.rest, lines: run.lines }, Ok(run.events))
        },
    }
}

/// A decoder and what it hands out after a chunk.
pub open spec fn push_spec(d: DecoderView, chunk: Seq<u8>) -> (DecoderView, Result<
    Seq<SseView>,
    Seq<char>,
>) {
    parse_spec(DecoderView { buffer: d.buffer + chunk, lines: d.lines }, false)
}

/// Whether a result is the expected one.
pub open spec fn sse_result(
    r: Result<Vec<SseEvent>, String>,
    expected: Result<Seq<SseView>, Seq<char>>,
) -> bool {
    match r {
        Ok(events) => expected == Ok::<Seq<SseView>, Seq<char>>(sse_view(events@)),
        Err(e) => expected == Err::<Seq<SseView>, Seq<char>>(e@),
    }
}

fn find_line_end(buf: &Vec<u8>, consumed: usize, eof: bool) -> (r: Option<(usize, usize)>)
    requires
        consumed <= buf@.len(),
    ensures
        match r {
            Some((end, next)) => consumed <= end < next <= buf@.len() && line_end(
                buf@.skip(consumed as int),
                0,
                eof,
            ) == Some((end - consumed, next - consumed)),
            None => line_end(buf@.skip(consumed as int), 0, eof) is None,
        },
{
    let ghost tail = buf@.skip(consumed as int);
    let mut i: usize = consumed;
    let n: usize = buf.len();
    while i < n
        invariant
            consumed <= i <= n,
            n == buf@.len(),
            tail == buf@.skip(consumed as int),
            line_end(tail, 0, eof) == line_end(tail, i - consumed, eof),
        decreases n - i,
    {
        let b: u8 = buf[i];
        assert(tail[i - consumed] == b);
        if b == 10 {
            return Some((i, i + 1));
        }
        if b == 13 {
            if i + 1 < n {
                assert(tail[i + 1 - consumed] == buf@[i + 1]);
                return if buf[i + 1] == 10 {
                    Some((i, i + 2))
                } else {
                    Some((i, i + 1))
                };
            }
            if eof {
                return Some((i, i + 1));
            }
        }
        i = i + 1;
    }
    None
}

fn add_event(events: &mut Vec<SseEvent>, event: SseEvent)
    ensures
        sse_view(final(events)@) == sse_view(old(events)@).push(event@),
{
    let ghost before = events@;
    events.push(event);
    assert(sse_view(events@) =~= sse_view(before).push(event@));
}

fn copy_range(line: &Vec<u8>, from: usize, to: usize) -> (r: Vec<u8>)
    requires
        from <= to <= line@.len(),
    ensures
        r@ == line@.subrange(from as int, to as int),
{
    let mut out: Vec<u8> = Vec::new();
    append_range(&mut out, line, from, to);
    assert(out@ =~= line@.subrange(from as int, to as int));
    out
}

impl SseDecoder {
    /// Take the next line of the buffer, where there is one.
    fn take_line(&mut self, consumed: usize, eof: bool, events: &mut Vec<SseEvent>) -> (r: Result<
        Option<usize>,
        String,
    >)
        requires
            consumed <= old(self).buffer@.len(),
        ensures
            final(self).buffer == old(self).buffer,
            ({
                let tail = old(self).buffer@.skip(consumed as int);
                let run = run_lines(tail, old(self)@.lines, eof);
                match r {
                    Err(e) => run.fault == Some(e@) && final(self)@.lines == run.lines,
                    Ok(None) => run == (LineRun {
                        rest: tail,
                        lines: old(self)@.lines,
                        events: seq![],
                        fault: None,
                    }) && final(self)@ == old(self)@ && final(events)@ == old(events)@,
                    Ok(Some(next)) => {
                        let more = run_lines(
                            old(self).buffer@.skip(next as int),
                            final(self)@.lines,
                            eof,
                        );
                        &&& consumed < next <= old(self).buffer@.len()
                        &&& run.fault == more.fault
                        &&& run.lines == more.lines
                        &&& run.fault is None ==> run.rest == more.rest
                        &&& sse_view(old(events)@) + run.events == sse_view(final(events)@)
                            + more.events
                    },
                }
            }),
    {
        let ghost buffer = self.buffer@;
        let ghost tail = buffer.skip(consumed as int);
        let ghost st = self@.lines;
        let (end, next): (usize, usize) = match find_line_end(&self.buffer, consumed, eof) {
            Some((end, next)) => (end, next),
            None => {
                if !(eof && consumed < self.buffer.len()) {
                    return Ok(None);
                }
                (self.buffer.len(), self.buffer.len())
            },
        };
        let line = copy_range(&self.buffer, consumed, end);
        assert(line@ =~= tail.take(end - consumed));
        assert(tail.take(tail.len() as int) =~= tail);
        assert(tail.skip(next - consumed) =~= buffer.skip(next as int));
        let ghost before = sse_view(events@);
        match self.process_sse_line(line) {
            Err(e) => Err(e),
            Ok(None) => Ok(Some(next)),
            Ok(Some(event)) => {
                let ghost shown = event@;
                add_event(events, event);
                let ghost more = run_lines(buffer.skip(next as int), self@.lines, eof);
                assert(run_lines(tail, st, eof).events =~= seq![shown] + more.events);
                assert(before + (seq![shown] + more.events) =~= before.push(shown)
                    + more.events);
                Ok(Some(next))
            },
        }
    }

    /// Read what the decoder holds.
    pub fn parse(&mut self, eof: bool) -> (r: Result<Vec<SseEvent>, String>)
        ensures
            ({
                let (after, expected) = parse_spec(old(self)@, eof);
                final(self)@ == after && sse_result(r, expected)
            }),
    {
        let ghost start = self@;
        let ghost whole = run_lines(start.buffer, start.lines, eof);
        let mut events: Vec<SseEvent> = Vec::new();
        let mut consumed: usize = 0;
        assert(start.buffer.skip(0) =~= start.buffer);
        assert(sse_view(events@) + whole.events =~= whole.events);
        let mut more = true;
        while more
            invariant
                start == old(self)@,
                consumed <= self.buffer@.len(),
                self.buffer@ == start.buffer,
                whole == run_lines(start.buffer, start.lines, eof),
                ({
                    let left = run_lines(start.buffer.skip(consumed as int), self@.lines, eof);
                    &&& whole.fault == left.fault
                    &&& whole.lines == left.lines
                    &&& whole.fault is None ==> whole.rest == left.rest
                    &&& whole.events == sse_view(events@) + left.events
                    &&& !more ==> left == (LineRun {
                        rest: start.buffer.skip(consumed as int),
                        lines: self@.lines,
                        events: seq![],
                        fault: None,
                    })
                }),
            decreases
                    if more {
                        self.buffer@.len() - consumed + 1
                    } else {
                        0
                    },
        {
            match self.take_line(consumed, eof, &mut events) {
                Err(e) => {
                    return Err(e);
                },
                Ok(None) => {
                    more = false;
                },
                Ok(Some(next)) => {
                    consumed = next;
                },
            }
        }
        assert(whole.events =~= sse_view(events@));
        let kept = copy_range(&self.buffer, consumed, self.buffer.len());
        assert(kept@ =~= start.buffer.skip(consumed as int));
        self.buffer = kept;
        if eof && self.has_data {
            match dispatch_sse_data(&mut self.data, &mut self.has_data) {
                Ok(event) => {
                    add_event(&mut events, event);
                },
                Err(e) => {
                    return Err(e);
                },
            }
        }
        Ok(events)
    }

    /// Take a chunk and hand out the events that it completes.
    pub fn push(&mut self, chunk: &[u8]) -> (r: Result<Vec<SseEvent>, String>)
        ensures
            ({
                let (after, expected) = push_spec(old(self)@, chunk@);
                final(self)@ == after && sse_result(r, expected)
            }),
    {
        let ghost before = self.buffer@;
        let mut i: usize = 0;
        let ghost lines = self@.lines;
        assert(before + chunk@.take(0) =~= before);
        while i < chunk.len()
            invariant
                i <= chunk@.len(),
                self.buffer@ == before + chunk@.take(i as int),
                self@.lines == lines,
            decreases chunk@.len() - i,
        {
            self.buffer.push(chunk[i]);
            assert(before + chunk@.take(i + 1) =~= (before + chunk@.take(i as int)).push(
                chunk@[i as int],
            ));
            i = i + 1;
        }
        assert(chunk@.take(chunk@.len() as int) =~= chunk@);
        self.parse(false)
    }

    /// End the stream and hand out what is left.
    pub fn finish(&mut self) -> (r: Result<Vec<SseEvent>, String>)
        ensures
            ({
                let (after, expected) = parse_spec(old(self)@, true);
                final(self)@ == after && sse_result(r, expected)
            }),
    {
        self.parse(true)
    }
}

// ---------------------------------------------------------------------------
// Fragmentation
// ---------------------------------------------------------------------------

proof fn lemma_line_end_stays(a: Seq<u8>, b: Seq<u8>, from: int)
    requires
        0 <= from,
        line_end(a, from, false) is Some,
    ensures
        line_end(a + b, from, false) == line_end(a, from, false),
    decreases a.len() - from,
{
    if from < a.len() {
        assert((a + b)[from] == a[from]);
        if a[from] == 10 {
        } else if a[from] == 13 && from + 1 < a.len() {
            assert((a + b)[from + 1] == a[from + 1]);
        } else {
            lemma_line_end_stays(a, b, from + 1);
            if a[from] == 13 {
                assert(from + 1 >= a.len());
            }
        }
    }
}

proof fn lemma_run_splits(a: Seq<u8>, b: Seq<u8>, st: LineState)
    requires
        run_lines(a, st, false).fault is None,
    ensures
        ({
            let first = run_lines(a, st, false);
            let second = run_lines(first.rest + b, first.lines, false);
            let whole = run_lines(a + b, st, false);
            &&& whole.lines == second.lines
            &&& whole.fault == second.fault
            &&& whole.fault is None ==> whole.rest == second.rest
            &&& whole.events == first.events + second.events
        }),
    decreases a.len(),
{
    let first = run_lines(a, st, false);
    match line_end(a, 0, false) {
        Some((end, next)) => {
            lemma_line_end(a, 0, false);
            lemma_line_end_stays(a, b, 0);
            assert((a + b).take(end) =~= a.take(end));
            assert((a + b).skip(next) =~= a.skip(next) + b);
            let after = line_state(st, a.take(end));
            lemma_run_splits(a.skip(next), b, after);
            let more = run_lines(a.skip(next), after, false);
            let second = run_lines(more.rest + b, more.lines, false);
            match line_event(st, a.take(end)) {
                Some(Ok(event)) => {
                    assert(seq![event] + (more.events + second.events) =~= (seq![event]
                        + more.events) + second.events);
                },
                _ => {},
            }
        },
        None => {
            assert(first.events + run_lines(a + b, st, false).events =~= run_lines(
                a + b,
                st,
                false,
            ).events);
        },
    }
}

/// It does not matter how a stream is cut into chunks: two chunks, one after
/// the other, hand out what they would as one, and leave the decoder in the
/// same state.
pub proof fn law_chunks_may_be_cut_anywhere(d: DecoderView, a: Seq<u8>, b: Seq<u8>)
    requires
        push_spec(d, a).1 is Ok,
        push_spec(push_spec(d, a).0, b).1 is Ok,
    ensures
        push_spec(d, a + b).0 == push_spec(push_spec(d, a).0, b).0,
        push_spec(d, a + b).1 == Ok::<Seq<SseView>, Seq<char>>(
            push_spec(d, a).1->Ok_0 + push_spec(push_spec(d, a).0, b).1->Ok_0,
        ),
{
    lemma_run_splits(d.buffer + a, b, d.lines);
    assert((d.buffer + a) + b =~= d.buffer + (a + b));
}

/// A fault is found wherever the stream is cut: where two chunks are taken
/// without the second one failing, neither fails as one, and the other way
/// round.
pub proof fn law_faults_do_not_depend_on_cuts(d: DecoderView, a: Seq<u8>, b: Seq<u8>)
    requires
        push_spec(d, a).1 is Ok,
        push_spec(push_spec(d, a).0, b).1 is Err,
    ensures
        push_spec(d, a + b).1 == push_spec(push_spec(d, a).0, b).1,
{
    lemma_run_splits(d.buffer + a, b, d.lines);
    assert((d.buffer + a) + b =~= d.buffer + (a + b));
}

} // verus!

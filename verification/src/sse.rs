//! Server-sent event lines from a byte stream that may split anywhere, even
//! inside a multi-byte character: only complete lines are decoded.
use vstd::prelude::*;
use vstd::utf8::{decode_utf8, valid_utf8};
use crate::execution_graph::types::strs_view;
use crate::execution_graph::types::opt_view;
use crate::streaming::{finished_view, keys_distinct, merge_streamed_name, merged_name, StreamToolCall, ToolCallAccum};
use crate::text::{blank, has_prefix, is_blank, string_of, trim, trimmed};

verus! {

/// `std::str::from_utf8`: the text the bytes encode, when they are valid
/// UTF-8, and nothing otherwise.
#[verifier::external_body]
fn utf8_text(bytes: &[u8]) -> (r: Option<String>)
    ensures
        r is Some <==> valid_utf8(bytes@),
        r matches Some(s) ==> s@ == decode_utf8(bytes@),
{
    std::str::from_utf8(bytes).ok().map(|s| s.to_owned())
}

pub open spec fn data_prefix() -> Seq<char> {
    seq!['d', 'a', 't', 'a', ':']
}

/// The payload of one line: its text, trimmed, after a `data:` field name,
/// trimmed again; nothing for other lines, empty payloads or invalid UTF-8.
pub open spec fn sse_data(line: Seq<u8>) -> Option<Seq<char>> {
    if !valid_utf8(line) {
        None
    } else {
        let t = trimmed(decode_utf8(line));
        if has_prefix(t, data_prefix()) {
            let d = trimmed(t.skip(5));
            if d.len() > 0 {
                Some(d)
            } else {
                None
            }
        } else {
            None
        }
    }
}

pub fn decode_sse_line(line: &[u8]) -> (r: Option<String>)
    ensures
        crate::execution_graph::types::opt_view(r) == sse_data(line@),
{
    let text = match utf8_text(line) {
        Some(t) => t,
        None => {
            return None;
        },
    };
    let t = trim(text.as_str());
    let cs = crate::text::chars_of(t.as_str());
    if cs.len() < 5 || cs[0] != 'd' || cs[1] != 'a' || cs[2] != 't' || cs[3] != 'a' || cs[4] != ':' {
        proof {
            if has_prefix(t@, data_prefix()) {
                assert(t@[0] == data_prefix()[0]);
                assert(t@[1] == data_prefix()[1]);
                assert(t@[2] == data_prefix()[2]);
                assert(t@[3] == data_prefix()[3]);
                assert(t@[4] == data_prefix()[4]);
            }
        }
        return None;
    }
    proof {
        assert(t@.subrange(0, 5) =~= data_prefix());
    }
    let mut rest: Vec<char> = Vec::new();
    let mut i: usize = 5;
    while i < cs.len()
        invariant
            5 <= i <= cs.len(),
            cs@ == t@,
            rest@ =~= t@.subrange(5, i as int),
        decreases cs.len() - i,
    {
        rest.push(cs[i]);
        i += 1;
    }
    proof {
        assert(t@.skip(5) =~= rest@);
    }
    let rest_text = string_of(&rest);
    let d = trim(rest_text.as_str());
    if d.as_str().is_empty() {
        None
    } else {
        Some(d)
    }
}

/// The text read so far: complete lines, each with its `\n`, and the
/// unfinished rest.
pub open spec fn split_lines(bytes: Seq<u8>) -> (Seq<Seq<u8>>, Seq<u8>)
    decreases bytes.len(),
{
    if bytes.len() == 0 {
        (Seq::empty(), Seq::empty())
    } else {
        let (lines, cur) = split_lines(bytes.drop_last());
        if bytes.last() == 10u8 {
            (lines.push(cur.push(10u8)), Seq::empty())
        } else {
            (lines, cur.push(bytes.last()))
        }
    }
}

/// The payloads of the lines, in order, skipping lines without one.
pub open spec fn payloads(lines: Seq<Seq<u8>>) -> Seq<Seq<char>>
    decreases lines.len(),
{
    if lines.len() == 0 {
        Seq::empty()
    } else {
        match sse_data(lines.last()) {
            Some(d) => payloads(lines.drop_last()).push(d),
            None => payloads(lines.drop_last()),
        }
    }
}

/// Buffers bytes until a line is complete.
#[derive(Debug)]
pub struct SseLineDecoder {
    buffer: Vec<u8>,
}

impl SseLineDecoder {
    /// The bytes of the unfinished line.
    pub closed spec fn pending(&self) -> Seq<u8> {
        self.buffer@
    }

    pub fn new() -> (d: Self)
        ensures
            d.pending().len() == 0,
    {
        SseLineDecoder { buffer: Vec::new() }
    }

    /// Adds a chunk and returns the payloads of the lines it completed; the
    /// rest stays buffered.
    pub fn push(&mut self, chunk: &[u8]) -> (data: Vec<String>)
        ensures
            ({
                let all = old(self).pending() + chunk@;
                &&& strs_view(data@) == payloads(split_lines(all).0)
                &&& final(self).pending() == split_lines(all).1
            }),
    {
        let ghost start = self.buffer@;
        let ghost all = start + chunk@;
        let mut cur: Vec<u8> = Vec::new();
        let mut out: Vec<String> = Vec::new();
        proof {
            assert(all.take(0) =~= Seq::<u8>::empty());
            assert(strs_view(out@) =~= payloads(Seq::<Seq<u8>>::empty()));
        }
        let mut k: usize = 0;
        while k < self.buffer.len()
            invariant
                k <= self.buffer.len(),
                self.buffer@ == start,
                all == start + chunk@,
                split_lines(all.take(k as int)).1 == cur@,
                strs_view(out@) == payloads(split_lines(all.take(k as int)).0),
            decreases self.buffer.len() - k,
        {
            let b = self.buffer[k];
            proof {
                assert(all[k as int] == b);
            }
            feed(&mut cur, &mut out, b, Ghost(all), Ghost(k as int));
            k += 1;
        }
        let n0 = self.buffer.len();
        let mut j: usize = 0;
        while j < chunk.len()
            invariant
                j <= chunk.len(),
                n0 == start.len(),
                all == start + chunk@,
                split_lines(all.take(n0 + j)).1 == cur@,
                strs_view(out@) == payloads(split_lines(all.take(n0 + j)).0),
            decreases chunk.len() - j,
        {
            let b = chunk[j];
            proof {
                assert(all[n0 + j] == b);
            }
            feed(&mut cur, &mut out, b, Ghost(all), Ghost(n0 + j));
            j += 1;
        }
        proof {
            assert(all.take(n0 + chunk.len()) =~= all);
        }
        self.buffer = cur;
        out
    }

    /// At the end of the stream, the payload of the unfinished line, if any.
    pub fn finish(&mut self) -> (data: Vec<String>)
        ensures
            final(self).pending().len() == 0,
            strs_view(data@) == (match sse_data(old(self).pending()) {
                Some(d) => if old(self).pending().len() == 0 {
                    Seq::empty()
                } else {
                    seq![d]
                },
                None => Seq::empty(),
            }),
    {
        if self.buffer.len() == 0 {
            let v: Vec<String> = Vec::new();
            proof {
                assert(strs_view(v@) =~= Seq::<Seq<char>>::empty());
            }
            return v;
        }
        let mut line: Vec<u8> = Vec::new();
        std::mem::swap(&mut line, &mut self.buffer);
        let mut v: Vec<String> = Vec::new();
        match decode_sse_line(line.as_slice()) {
            Some(d) => {
                v.push(d);
                proof {
                    assert(strs_view(v@) =~= seq![v@[0]@]);
                }
            },
            None => {
                proof {
                    assert(strs_view(v@) =~= Seq::<Seq<char>>::empty());
                }
            },
        }
        v
    }
}

/// One more byte: a newline completes the line and decodes it.
fn feed(cur: &mut Vec<u8>, out: &mut Vec<String>, b: u8, Ghost(all): Ghost<Seq<u8>>, Ghost(k): Ghost<int>)
    requires
        0 <= k < all.len(),
        all[k] == b,
        split_lines(all.take(k)).1 == old(cur)@,
        strs_view(old(out)@) == payloads(split_lines(all.take(k)).0),
    ensures
        split_lines(all.take(k + 1)).1 == final(cur)@,
        strs_view(final(out)@) == payloads(split_lines(all.take(k + 1)).0),
{
    proof {
        let t1 = all.take(k + 1);
        assert(t1.drop_last() =~= all.take(k));
        assert(t1.last() == b);
    }
    if b == 10u8 {
        cur.push(b);
        let ghost lines = split_lines(all.take(k)).0;
        proof {
            assert(split_lines(all.take(k + 1)).0 == lines.push(cur@));
            assert(lines.push(cur@).drop_last() =~= lines);
            assert(lines.push(cur@).last() == cur@);
        }
        match decode_sse_line(cur.as_slice()) {
            Some(d) => {
                out.push(d);
                proof {
                    assert(strs_view(out@) =~= payloads(lines).push(d@));
                }
            },
            None => {},
        }
        *cur = Vec::new();
    } else {
        cur.push(b);
    }
}

// ----- parsed chunks -----

/// One streamed piece of a function call.
#[derive(Debug, Default, PartialEq, Eq)]
pub struct SseFunctionDelta {
    pub name: Option<String>,
    pub arguments: Option<String>,
}

/// One streamed piece of a tool call.
#[derive(Debug, Default, PartialEq, Eq)]
pub struct SseToolCallDelta {
    pub index: Option<u32>,
    pub id: Option<String>,
    pub function: Option<SseFunctionDelta>,
}

#[derive(Debug, Default, PartialEq, Eq)]
pub struct SseDelta {
    pub content: Option<String>,
    pub tool_calls: Option<Vec<SseToolCallDelta>>,
}

#[derive(Debug, Default, PartialEq, Eq)]
pub struct SseChoice {
    pub delta: SseDelta,
    pub finish_reason: Option<String>,
}

/// One parsed `data:` payload of a chat completion stream.
#[derive(Debug, Default, PartialEq, Eq)]
pub struct SseChunk {
    pub choices: Vec<SseChoice>,
}

/// What a stream consumer is told as pieces arrive.
#[derive(Debug, PartialEq, Eq)]
pub enum StreamEvent {
    TextDelta(String),
    ToolCallDelta { index: u32, id: Option<String>, name: Option<String>, arguments: Option<String> },
    Finished { finish_reason: String, content: String, tool_calls: Vec<StreamToolCall> },
}

pub enum EventView {
    Text(Seq<char>),
    Tool { index: u32, id: Option<Seq<char>>, name: Option<Seq<char>>, arguments: Option<Seq<char>> },
    Finished { finish_reason: Seq<char>, content: Seq<char>, tool_calls: Seq<(Seq<char>, Seq<char>, Seq<char>)> },
}

pub open spec fn event_view(e: StreamEvent) -> EventView {
    match e {
        StreamEvent::TextDelta(t) => EventView::Text(t@),
        StreamEvent::ToolCallDelta { index, id, name, arguments } => EventView::Tool {
            index,
            id: opt_view(id),
            name: opt_view(name),
            arguments: opt_view(arguments),
        },
        StreamEvent::Finished { finish_reason, content, tool_calls } => EventView::Finished {
            finish_reason: finish_reason@,
            content: content@,
            tool_calls: tool_calls@.map_values(|c: StreamToolCall| finished_view(c)),
        },
    }
}

pub open spec fn events_view(v: Seq<StreamEvent>) -> Seq<EventView> {
    v.map_values(|e: StreamEvent| event_view(e))
}

/// A tool call so far: id, name, arguments.
pub type AccumView = (Option<Seq<char>>, Option<Seq<char>>, Seq<char>);

pub open spec fn accum_view(a: ToolCallAccum) -> AccumView {
    (opt_view(a.id), opt_view(a.name), a.args@)
}

pub open spec fn accums_view(v: Seq<(u32, ToolCallAccum)>) -> Seq<(u32, AccumView)> {
    v.map_values(|e: (u32, ToolCallAccum)| (e.0, accum_view(e.1)))
}

/// The stream so far: text, tool calls by index, finish reason, events.
pub struct StreamView {
    pub content: Seq<char>,
    pub tools: Seq<(u32, AccumView)>,
    pub finish: Seq<char>,
    pub events: Seq<EventView>,
}

pub open spec fn slot_of(tools: Seq<(u32, AccumView)>, index: u32) -> Option<int> {
    if exists|j: int| 0 <= j < tools.len() && #[trigger] tools[j].0 == index {
        Some(choose|j: int| 0 <= j < tools.len() && #[trigger] tools[j].0 == index)
    } else {
        None
    }
}

/// The tool calls with an entry for the index, added empty at the end when
/// it is new.
pub open spec fn with_slot(tools: Seq<(u32, AccumView)>, index: u32) -> Seq<(u32, AccumView)> {
    if slot_of(tools, index) is Some {
        tools
    } else {
        tools.push((index, (None, None, Seq::empty())))
    }
}

pub open spec fn slot_after(tools: Seq<(u32, AccumView)>, index: u32) -> int {
    match slot_of(tools, index) {
        Some(j) => j,
        None => tools.len() as int,
    }
}

/// One tool-call piece: a non-blank id is kept only when none was seen; a
/// non-blank name fragment is merged and announced; argument text is
/// appended and announced.
pub open spec fn step_tool(s: StreamView, d: SseToolCallDelta) -> StreamView {
    let index = match d.index {
        Some(i) => i,
        None => 0u32,
    };
    let tools = with_slot(s.tools, index);
    let j = slot_after(s.tools, index);
    let a = tools[j].1;
    let id = if (d.id matches Some(x) && !blank(x@)) && a.0 is None {
        Some(d.id->0@)
    } else {
        a.0
    };
    let (name, named) = match d.function {
        Some(f) => if f.name matches Some(n) && !blank(n@) {
            (merged_name(a.1, f.name->0@), true)
        } else {
            (a.1, false)
        },
        None => (a.1, false),
    };
    let ev1 = if named {
        seq![EventView::Tool { index, id, name, arguments: None }]
    } else {
        Seq::empty()
    };
    let (args, ev2) = match d.function {
        Some(f) => match f.arguments {
            Some(x) => (a.2 + x@, seq![EventView::Tool { index, id, name: None, arguments: Some(x@) }]),
            None => (a.2, Seq::empty()),
        },
        None => (a.2, Seq::empty()),
    };
    StreamView { tools: tools.update(j, (index, (id, name, args))), events: s.events + ev1 + ev2, ..s }
}

pub open spec fn step_tools(s: StreamView, ds: Seq<SseToolCallDelta>, n: int) -> StreamView
    decreases n,
{
    if n <= 0 {
        s
    } else {
        step_tool(step_tools(s, ds, n - 1), ds[n - 1])
    }
}

/// One choice: its text, then its finish reason, then its tool pieces.
pub open spec fn step_choice(s: StreamView, c: SseChoice) -> StreamView {
    let s1 = match c.delta.content {
        Some(t) => StreamView { content: s.content + t@, events: s.events.push(EventView::Text(t@)), ..s },
        None => s,
    };
    let s2 = match c.finish_reason {
        Some(r) => StreamView { finish: r@, ..s1 },
        None => s1,
    };
    match c.delta.tool_calls {
        Some(ds) => step_tools(s2, ds@, ds@.len() as int),
        None => s2,
    }
}

pub open spec fn step_choices(s: StreamView, cs: Seq<SseChoice>, n: int) -> StreamView
    decreases n,
{
    if n <= 0 {
        s
    } else {
        step_choice(step_choices(s, cs, n - 1), cs[n - 1])
    }
}

pub open spec fn keys_unique(t: Seq<(u32, AccumView)>) -> bool {
    forall|i: int, j: int| 0 <= i < j < t.len() ==> (#[trigger] t[i]).0 != (#[trigger] t[j]).0
}

pub open spec fn stream_view(
    content: &String,
    tools: &Vec<(u32, ToolCallAccum)>,
    finish: &String,
    events: &Vec<StreamEvent>,
) -> StreamView {
    StreamView {
        content: content@,
        tools: accums_view(tools@),
        finish: finish@,
        events: events_view(events@),
    }
}

fn find_slot(tools: &Vec<(u32, ToolCallAccum)>, index: u32) -> (r: Option<usize>)
    requires
        keys_distinct(tools@),
    ensures
        match r {
            Some(j) => slot_of(accums_view(tools@), index) == Some(j as int) && j < tools.len(),
            None => slot_of(accums_view(tools@), index) is None,
        },
{
    let ghost t = accums_view(tools@);
    let mut j: usize = 0;
    while j < tools.len()
        invariant
            j <= tools.len(),
            t == accums_view(tools@),
            keys_distinct(tools@),
            forall|q: int| 0 <= q < j ==> t[q].0 != index,
        decreases tools.len() - j,
    {
        if tools[j].0 == index {
            proof {
                assert(t[j as int].0 == index);
                let c = choose|c: int| 0 <= c < t.len() && #[trigger] t[c].0 == index;
                assert(t[c].0 == tools@[c].0);
                assert(t[j as int].0 == tools@[j as int].0);
                if c < j {
                    assert(tools@[c].0 != tools@[j as int].0);
                } else if c > j {
                    assert(tools@[j as int].0 != tools@[c].0);
                }
            }
            return Some(j);
        }
        j += 1;
    }
    None
}

fn clone_opt(o: &Option<String>) -> (r: Option<String>)
    ensures
        opt_view(r) == opt_view(*o),
{
    match o {
        Some(s) => Some(s.clone()),
        None => None,
    }
}

fn apply_tool_delta(
    d: &SseToolCallDelta,
    tools: &mut Vec<(u32, ToolCallAccum)>,
    events: &mut Vec<StreamEvent>,
    Ghost(s): Ghost<StreamView>,
)
    requires
        keys_distinct(old(tools)@),
        s.tools == accums_view(old(tools)@),
        s.events == events_view(old(events)@),
    ensures
        keys_distinct(final(tools)@),
        accums_view(final(tools)@) == step_tool(s, *d).tools,
        events_view(final(events)@) == step_tool(s, *d).events,
{
    let index: u32 = match d.index {
        Some(i) => i,
        None => 0u32,
    };
    let j = match find_slot(tools, index) {
        Some(j) => j,
        None => {
            tools.push((index, ToolCallAccum { id: None, name: None, args: String::new() }));
            proof {
                assert(accums_view(tools@) =~= s.tools.push((index, (None, None, Seq::<char>::empty()))));
                assert forall|a: int, b: int| 0 <= a < b < tools@.len() implies (#[trigger] tools@[a]).0
                    != (#[trigger] tools@[b]).0 by {
                    if b == tools@.len() - 1 {
                        assert(tools@[b].0 == index);
                        assert(s.tools[a].0 == tools@[a].0);
                        assert(s.tools[a].0 != index);
                    }
                }
            }
            tools.len() - 1
        },
    };
    let ghost full = accums_view(tools@);
    let ghost before = tools@;
    proof {
        assert(full == with_slot(s.tools, index));
        assert(j as int == slot_after(s.tools, index));
    }
    let (key, mut entry) = tools.remove(j);
    proof {
        assert(key == index);
        assert(accum_view(entry) == full[j as int].1);
    }
    let has_id = match &d.id {
        Some(x) => !is_blank(x.as_str()),
        None => false,
    };
    if has_id && entry.id.is_none() {
        entry.id = clone_opt(&d.id);
    }
    match &d.function {
        Some(f) => {
            match &f.name {
                Some(n) => {
                    if !is_blank(n.as_str()) {
                        merge_streamed_name(&mut entry.name, n.as_str());
                        events.push(
                            StreamEvent::ToolCallDelta {
                                index,
                                id: clone_opt(&entry.id),
                                name: clone_opt(&entry.name),
                                arguments: None,
                            },
                        );
                    }
                },
                None => {},
            }
            match &f.arguments {
                Some(x) => {
                    entry.args.append(x.as_str());
                    events.push(
                        StreamEvent::ToolCallDelta {
                            index,
                            id: clone_opt(&entry.id),
                            name: None,
                            arguments: Some(x.clone()),
                        },
                    );
                },
                None => {},
            }
        },
        None => {},
    }
    tools.insert(j, (key, entry));
    proof {
        let st = step_tool(s, *d);
        assert(tools@ =~= before.update(j as int, (key, entry)));
        assert(accums_view(tools@) =~= full.update(j as int, (key, accum_view(entry))));
        assert(accums_view(tools@) =~= st.tools);
        assert(events_view(events@) =~= st.events);
        assert forall|a: int, b: int| 0 <= a < b < tools@.len() implies (#[trigger] tools@[a]).0 != (
        #[trigger] tools@[b]).0 by {
            assert(accums_view(tools@)[a].0 == full[a].0);
            assert(accums_view(tools@)[b].0 == full[b].0);
        }
    }
}

/// Applies one parsed payload: text is appended and announced, the last
/// finish reason wins, and tool-call pieces are merged by index.
pub fn apply_sse_chunk(
    chunk: &SseChunk,
    content: &mut String,
    tools: &mut Vec<(u32, ToolCallAccum)>,
    finish_reason: &mut String,
) -> (events: Vec<StreamEvent>)
    requires
        keys_distinct(old(tools)@),
    ensures
        keys_distinct(final(tools)@),
        ({
            let s = step_choices(
                StreamView {
                    content: old(content)@,
                    tools: accums_view(old(tools)@),
                    finish: old(finish_reason)@,
                    events: Seq::empty(),
                },
                chunk.choices@,
                chunk.choices@.len() as int,
            );
            &&& final(content)@ == s.content
            &&& accums_view(final(tools)@) == s.tools
            &&& final(finish_reason)@ == s.finish
            &&& events_view(events@) == s.events
        }),
{
    let ghost s0 = StreamView {
        content: content@,
        tools: accums_view(tools@),
        finish: finish_reason@,
        events: Seq::empty(),
    };
    let mut events: Vec<StreamEvent> = Vec::new();
    proof {
        assert(events_view(events@) =~= Seq::<EventView>::empty());
    }
    let mut i: usize = 0;
    while i < chunk.choices.len()
        invariant
            i <= chunk.choices.len(),
            keys_distinct(tools@),
            stream_view(content, tools, finish_reason, &events) == step_choices(s0, chunk.choices@, i as int),
        decreases chunk.choices.len() - i,
    {
        let c = &chunk.choices[i];
        let ghost before = stream_view(content, tools, finish_reason, &events);
        match &c.delta.content {
            Some(t) => {
                content.append(t.as_str());
                events.push(StreamEvent::TextDelta(t.clone()));
                proof {
                    assert(events_view(events@) =~= before.events.push(EventView::Text(t@)));
                }
            },
            None => {},
        }
        match &c.finish_reason {
            Some(r) => {
                *finish_reason = r.clone();
            },
            None => {},
        }
        let ghost s2 = stream_view(content, tools, finish_reason, &events);
        match &c.delta.tool_calls {
            Some(ds) => {
                let mut k: usize = 0;
                while k < ds.len()
                    invariant
                        k <= ds.len(),
                        keys_distinct(tools@),
                        stream_view(content, tools, finish_reason, &events) == step_tools(s2, ds@, k as int),
                    decreases ds.len() - k,
                {
                    let ghost cur = stream_view(content, tools, finish_reason, &events);
                    apply_tool_delta(&ds[k], tools, &mut events, Ghost(cur));
                    proof {
                        let nx = step_tool(cur, ds@[k as int]);
                        assert(stream_view(content, tools, finish_reason, &events) == nx);
                    }
                    k += 1;
                }
            },
            None => {},
        }
        proof {
            assert(chunk.choices@[i as int] == *c);
        }
        i += 1;
    }
    events
}

} // verus!

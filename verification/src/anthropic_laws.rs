//! What holds of replies that stream in as events of blocks.

use vstd::prelude::*;
use vstd::string::*;

use crate::anthropic;
use crate::json;
use crate::model;
use crate::openai;
use crate::text;

verus! {

/// Whether an object's field holds a text.
pub open spec fn says(value: json::JsonView, name: Seq<char>, content: Seq<char>) -> bool {
    value.field(name) == Some(json::JsonView::Text(content))
}

/// Whether an object's field holds a count.
pub open spec fn counts(value: json::JsonView, name: Seq<char>, n: u64) -> bool {
    value.field(name) == Some(json::JsonView::Number(json::NumberView::Unsigned(n)))
}

proof fn lemma_kinds_differ()
    ensures
        "message_start"@ != "content_block_start"@,
        "message_start"@ != "content_block_delta"@,
        "message_start"@ != "content_block_stop"@,
        "message_start"@ != "message_delta"@,
        "message_start"@ != "message_stop"@,
        "content_block_start"@ != "content_block_delta"@,
        "content_block_start"@ != "content_block_stop"@,
        "content_block_start"@ != "message_delta"@,
        "content_block_start"@ != "message_stop"@,
        "content_block_delta"@ != "content_block_stop"@,
        "content_block_delta"@ != "message_delta"@,
        "content_block_delta"@ != "message_stop"@,
        "content_block_stop"@ != "message_delta"@,
        "content_block_stop"@ != "message_stop"@,
        "message_delta"@ != "message_stop"@,
        "text_delta"@ != "input_json_delta"@,
        "text_delta"@ != "thinking_delta"@,
        "text_delta"@ != "signature_delta"@,
        "input_json_delta"@ != "thinking_delta"@,
        "input_json_delta"@ != "signature_delta"@,
        "thinking_delta"@ != "signature_delta"@,
        "text"@ != "tool_use"@,
        "text"@ != "thinking"@,
        "text"@ != "redacted_thinking"@,
        "tool_use"@ != "thinking"@,
        "tool_use"@ != "redacted_thinking"@,
        "thinking"@ != "redacted_thinking"@,
{
    reveal_strlit("message_start");
    reveal_strlit("content_block_start");
    reveal_strlit("content_block_delta");
    reveal_strlit("content_block_stop");
    reveal_strlit("message_delta");
    reveal_strlit("message_stop");
    reveal_strlit("text_delta");
    reveal_strlit("input_json_delta");
    reveal_strlit("thinking_delta");
    reveal_strlit("signature_delta");
    reveal_strlit("text");
    reveal_strlit("tool_use");
    reveal_strlit("thinking");
    reveal_strlit("redacted_thinking");
    assert("content_block_delta"@[14] == 'd');
    assert("content_block_start"@[14] == 's');
    assert("message_start"@[8] == 's');
    assert("message_start"@.len() == 13);
    assert("message_stop"@.len() == 12);
    assert("content_block_start"@.len() == 19);
    assert("content_block_stop"@.len() == 18);
    assert("message_delta"@[8] == 'd');
    assert("tool_use"@[1] == 'o');
    assert("thinking"@[1] == 'h');
    assert("input_json_delta"@.len() == 16);
    assert("signature_delta"@.len() == 15);
    assert("thinking_delta"@.len() == 14);
    assert("text_delta"@.len() == 10);
    assert("text"@.len() == 4);
    assert("tool_use"@.len() == 8);
    assert("thinking"@.len() == 8);
    assert("redacted_thinking"@.len() == 17);
}

/// The first open block with a number stands at a place.
pub open spec fn first_open(blocks: Seq<(u64, anthropic::BlockView)>, number: u64, at: int) -> bool {
    &&& 0 <= at < blocks.len()
    &&& blocks[at].0 == number
    &&& forall|j: int| 0 <= j < at ==> (#[trigger] blocks[j]).0 != number
}

proof fn lemma_position(blocks: Seq<(u64, anthropic::BlockView)>, number: u64, from: int, at: int)
    requires
        0 <= from <= at,
        first_open(blocks, number, at),
    ensures
        anthropic::position_from(blocks, number, from) == Some(at),
    decreases at - from,
{
    if from < at {
        assert(blocks[from].0 != number);
        lemma_position(blocks, number, from + 1, at);
    }
}

/// A block that begins is opened behind the others, under its number and
/// without content: a tool call with its id and name, reasoning, or reasoning
/// that comes whole. Nothing else changes.
pub proof fn law_blocks_begin_empty(
    s: anthropic::StreamView,
    event: json::JsonView,
    block: json::JsonView,
    number: u64,
    id: Seq<char>,
    name: Seq<char>,
)
    requires
        says(event, "type"@, "content_block_start"@),
        counts(event, "index"@, number),
        event.field("content_block"@) == Some(block),
    ensures
        anthropic::stepped(s, event).blocks.len() == s.blocks.len() + 1,
        anthropic::stepped(s, event).blocks.take(s.blocks.len() as int) == s.blocks,
        anthropic::stepped(s, event).blocks.last().0 == number,
        anthropic::stepped(s, event) == (anthropic::StreamView {
            blocks: anthropic::stepped(s, event).blocks,
            ..s
        }),
        says(block, "type"@, "tool_use"@) && says(block, "id"@, id) && says(block, "name"@, name)
            ==> anthropic::stepped(s, event).blocks.last().1 == (anthropic::BlockView::ToolUse {
            id,
            name,
            json: seq![],
        }),
        says(block, "type"@, "thinking"@) ==> anthropic::stepped(s, event).blocks.last().1 == (
        anthropic::BlockView::Thinking { thinking: seq![], signature: seq![] }),
        says(block, "type"@, "redacted_thinking"@) ==> anthropic::stepped(s, event).blocks.last().1
            == anthropic::BlockView::Redacted(block),
        says(block, "type"@, "text"@) ==> anthropic::stepped(s, event).blocks.last().1
            == anthropic::BlockView::Text,
{
    lemma_kinds_differ();
    assert(anthropic::stepped(s, event).blocks.take(s.blocks.len() as int) =~= s.blocks);
}

/// A fragment is added to the end of what came before: a text to the answer,
/// and a piece of a tool's input, of reasoning or of its signature to the open
/// block with its number. The other blocks, and what was closed, stay as they
/// are.
pub proof fn law_fragments_are_joined_in_order(
    s: anthropic::StreamView,
    event: json::JsonView,
    delta: json::JsonView,
    number: u64,
    at: int,
    part: Seq<char>,
)
    requires
        says(event, "type"@, "content_block_delta"@),
        counts(event, "index"@, number),
        event.field("delta"@) == Some(delta),
        first_open(s.blocks, number, at),
    ensures
        ({
            let t = anthropic::stepped(s, event);
            &&& t == (anthropic::StreamView { content: t.content, blocks: t.blocks, ..s })
            &&& t.blocks == s.blocks.update(at, t.blocks[at])
            &&& t.blocks[at].0 == number
            &&& says(delta, "type"@, "text_delta"@) && says(delta, "text"@, part) ==> t.content
                == s.content + part
            &&& !says(delta, "type"@, "text_delta"@) ==> t.content == s.content
            &&& s.blocks[at].1 matches anthropic::BlockView::ToolUse { id, name, json } ==> t.blocks[
            at].1 == (anthropic::BlockView::ToolUse {
                id,
                name,
                json: t.blocks[at].1->json,
            }) && (says(delta, "type"@, "input_json_delta"@) && says(delta, "partial_json"@, part)
                ==> t.blocks[at].1->json == json + part) && (!says(
                delta,
                "type"@,
                "input_json_delta"@,
            ) ==> t.blocks[at].1->json == json)
            &&& s.blocks[at].1 matches anthropic::BlockView::Thinking { thinking, signature } ==> (
            says(delta, "type"@, "thinking_delta"@) && says(delta, "thinking"@, part) ==> t.blocks[
            at].1 == (anthropic::BlockView::Thinking { thinking: thinking + part, signature })) && (
            says(delta, "type"@, "signature_delta"@) && says(delta, "signature"@, part)
                ==> t.blocks[at].1 == (anthropic::BlockView::Thinking {
                thinking,
                signature: signature + part,
            }))
        }),
{
    lemma_kinds_differ();
    lemma_position(s.blocks, number, 0, at);
    assert(s.content + Seq::<char>::empty() =~= s.content);
    let t = anthropic::stepped(s, event);
    assert(t.blocks =~= s.blocks.update(at, t.blocks[at]));
    if says(delta, "type"@, "input_json_delta"@) {
        assert(s.content + anthropic::shown_text(event) =~= s.content);
    }
}

/// What a tool's input stands for: the JSON that its text is, none where the
/// text is blank, and the text itself where it is no JSON.
pub open spec fn input_of(raw: Seq<char>, value: json::JsonView) -> bool {
    if text::trim_spec(raw).len() == 0 {
        value is Null
    } else {
        match json::parsed(raw) {
            Ok(v) => value == v,
            Err(_) => value == json::JsonView::Text(raw),
        }
    }
}

/// A block that ends is closed: a tool call becomes one more call behind those
/// that were there, with its id, its name and the JSON that its fragments make
/// up, and reasoning one more block of reasoning. Nothing else changes.
pub proof fn law_ended_blocks_are_kept(
    s: anthropic::StreamView,
    event: json::JsonView,
    number: u64,
    at: int,
)
    requires
        says(event, "type"@, "content_block_stop"@),
        counts(event, "index"@, number),
        first_open(s.blocks, number, at),
    ensures
        ({
            let t = anthropic::stepped(s, event);
            &&& t == (anthropic::StreamView {
                blocks: t.blocks,
                tool_calls: t.tool_calls,
                reasoning: t.reasoning,
                ..s
            })
            &&& t.blocks == s.blocks.remove(at)
            &&& match s.blocks[at].1 {
                anthropic::BlockView::ToolUse { id, name, json } => {
                    &&& t.tool_calls.len() == s.tool_calls.len() + 1
                    &&& t.tool_calls.take(s.tool_calls.len() as int) == s.tool_calls
                    &&& t.tool_calls.last().id == id
                    &&& t.tool_calls.last().name == name
                    &&& input_of(json, t.tool_calls.last().arguments)
                    &&& t.reasoning == s.reasoning
                },
                anthropic::BlockView::Thinking { thinking, signature } => {
                    &&& t.tool_calls == s.tool_calls
                    &&& t.reasoning.len() == s.reasoning.len() + 1
                    &&& t.reasoning.take(s.reasoning.len() as int) == s.reasoning
                    &&& says(t.reasoning.last(), "type"@, "thinking"@)
                    &&& says(t.reasoning.last(), "thinking"@, thinking)
                    &&& says(t.reasoning.last(), "signature"@, signature)
                },
                anthropic::BlockView::Redacted(block) => {
                    &&& t.tool_calls == s.tool_calls
                    &&& t.reasoning == s.reasoning.push(block)
                },
                _ => t.tool_calls == s.tool_calls && t.reasoning == s.reasoning,
            }
        }),
{
    lemma_kinds_differ();
    lemma_position(s.blocks, number, 0, at);
    lemma_ended(s, number, at);
}

proof fn lemma_ended(s: anthropic::StreamView, number: u64, at: int)
    requires
        first_open(s.blocks, number, at),
    ensures
        ({
            let t = anthropic::closed_block(s, number);
            &&& t.blocks == s.blocks.remove(at)
            &&& match s.blocks[at].1 {
                anthropic::BlockView::ToolUse { id, name, json } => {
                    &&& t.tool_calls == s.tool_calls.push(
                        model::CallView { id, name, arguments: openai::decoded(json) },
                    )
                    &&& t.tool_calls.take(s.tool_calls.len() as int) == s.tool_calls
                    &&& input_of(json, t.tool_calls.last().arguments)
                    &&& t.reasoning == s.reasoning
                },
                anthropic::BlockView::Thinking { thinking, signature } => {
                    &&& t.tool_calls == s.tool_calls
                    &&& t.reasoning.len() == s.reasoning.len() + 1
                    &&& t.reasoning.take(s.reasoning.len() as int) == s.reasoning
                    &&& says(t.reasoning.last(), "type"@, "thinking"@)
                    &&& says(t.reasoning.last(), "thinking"@, thinking)
                    &&& says(t.reasoning.last(), "signature"@, signature)
                },
                anthropic::BlockView::Redacted(block) => {
                    &&& t.tool_calls == s.tool_calls
                    &&& t.reasoning == s.reasoning.push(block)
                },
                _ => t.tool_calls == s.tool_calls && t.reasoning == s.reasoning,
            }
        }),
{
    lemma_position(s.blocks, number, 0, at);
    let t = anthropic::closed_block(s, number);
    match s.blocks[at].1 {
        anthropic::BlockView::ToolUse { id, name, json } => {
            assert(t.tool_calls.take(s.tool_calls.len() as int) =~= s.tool_calls);
        },
        anthropic::BlockView::Thinking { thinking, signature } => {
            assert(t.reasoning.take(s.reasoning.len() as int) =~= s.reasoning);
            reveal_strlit("type");
            reveal_strlit("thinking");
            reveal_strlit("signature");
            assert("type"@.len() == 4);
            assert("thinking"@.len() == 8);
            assert("signature"@.len() == 9);
            reveal_with_fuel(json::JsonView::field_from, 4);
        },
        _ => {},
    }
}

/// The fragments of a tool's input that events carry for a block.
pub open spec fn carries(events: Seq<json::JsonView>, number: u64, parts: Seq<Seq<char>>) -> bool {
    &&& events.len() == parts.len()
    &&& forall|i: int|
        0 <= i < events.len() ==> says(#[trigger] events[i], "type"@, "content_block_delta"@)
            && counts(events[i], "index"@, number) && (events[i].field("delta"@) matches Some(delta)
            && says(delta, "type"@, "input_json_delta"@) && says(
            delta,
            "partial_json"@,
            parts[i],
        ))
}

proof fn lemma_input_grows(
    s: anthropic::StreamView,
    events: Seq<json::JsonView>,
    number: u64,
    parts: Seq<Seq<char>>,
    at: int,
)
    requires
        carries(events, number, parts),
        first_open(s.blocks, number, at),
        s.blocks[at].1 is ToolUse,
    ensures
        anthropic::streamed(s, events) == (anthropic::StreamView {
            blocks: s.blocks.update(
                at,
                (
                    number,
                    anthropic::BlockView::ToolUse {
                        id: s.blocks[at].1->id,
                        name: s.blocks[at].1->name,
                        json: s.blocks[at].1->json + parts.flatten(),
                    },
                ),
            ),
            ..s
        }),
    decreases events.len(),
{
    let block = s.blocks[at].1;
    if events.len() == 0 {
        assert(parts =~= seq![]);
        parts.lemma_flatten_and_flatten_alt_are_equivalent();
        assert(block->json + parts.flatten() =~= block->json);
        assert(s.blocks.update(
            at,
            (
                number,
                anthropic::BlockView::ToolUse {
                    id: block->id,
                    name: block->name,
                    json: block->json + parts.flatten(),
                },
            ),
        ) =~= s.blocks);
    } else {
        let earlier = events.drop_last();
        let fewer = parts.drop_last();
        assert forall|i: int| 0 <= i < earlier.len() implies says(
            #[trigger] earlier[i],
            "type"@,
            "content_block_delta"@,
        ) && counts(earlier[i], "index"@, number) && (earlier[i].field("delta"@) matches Some(delta)
            && says(delta, "type"@, "input_json_delta"@) && says(
            delta,
            "partial_json"@,
            fewer[i],
        )) by {
            assert(earlier[i] == events[i]);
        }
        lemma_input_grows(s, earlier, number, fewer, at);
        let mid = anthropic::streamed(s, earlier);
        assert forall|j: int| 0 <= j < at implies (#[trigger] mid.blocks[j]).0 != number by {
            assert(mid.blocks[j] == s.blocks[j]);
        }
        let last = events[events.len() - 1];
        let part = parts[parts.len() - 1];
        law_fragments_are_joined_in_order(mid, last, last.field("delta"@)->0, number, at, part);
        lemma_kinds_differ();
        parts.lemma_flatten_and_flatten_alt_are_equivalent();
        fewer.lemma_flatten_and_flatten_alt_are_equivalent();
        assert(parts.flatten() =~= fewer.flatten() + part);
        assert(block->json + fewer.flatten() + part =~= block->json + parts.flatten());
        let after = anthropic::streamed(s, events);
        assert(after == anthropic::stepped(mid, last));
        assert(after.blocks =~= s.blocks.update(
            at,
            (
                number,
                anthropic::BlockView::ToolUse {
                    id: block->id,
                    name: block->name,
                    json: block->json + parts.flatten(),
                },
            ),
        ));
    }
}

proof fn lemma_streamed_more(
    s: anthropic::StreamView,
    first: Seq<json::JsonView>,
    second: Seq<json::JsonView>,
)
    ensures
        anthropic::streamed(s, first + second) == anthropic::streamed(
            anthropic::streamed(s, first),
            second,
        ),
    decreases second.len(),
{
    if second.len() == 0 {
        assert(first + second =~= first);
    } else {
        lemma_streamed_more(s, first, second.drop_last());
        assert((first + second).drop_last() =~= first + second.drop_last());
    }
}

/// A tool block that begins, gets its input in any number of fragments and
/// ends, adds exactly one call to the reply, behind those that were there: so
/// that of a stream each tool block becomes a call, in the order in which the
/// blocks end.
pub proof fn law_each_tool_block_becomes_a_call(
    s: anthropic::StreamView,
    start: json::JsonView,
    block: json::JsonView,
    events: Seq<json::JsonView>,
    parts: Seq<Seq<char>>,
    stop: json::JsonView,
    number: u64,
    id: Seq<char>,
    name: Seq<char>,
)
    requires
        forall|j: int| 0 <= j < s.blocks.len() ==> (#[trigger] s.blocks[j]).0 != number,
        says(start, "type"@, "content_block_start"@),
        counts(start, "index"@, number),
        start.field("content_block"@) == Some(block),
        says(block, "type"@, "tool_use"@),
        says(block, "id"@, id),
        says(block, "name"@, name),
        carries(events, number, parts),
        says(stop, "type"@, "content_block_stop"@),
        counts(stop, "index"@, number),
    ensures
        ({
            let t = anthropic::streamed(s, seq![start] + events + seq![stop]);
            &&& t == (anthropic::StreamView { tool_calls: t.tool_calls, ..s })
            &&& t.tool_calls.len() == s.tool_calls.len() + 1
            &&& t.tool_calls.take(s.tool_calls.len() as int) == s.tool_calls
            &&& t.tool_calls.last().id == id
            &&& t.tool_calls.last().name == name
            &&& input_of(parts.flatten(), t.tool_calls.last().arguments)
        }),
{
    let n = s.blocks.len() as int;
    law_blocks_begin_empty(s, start, block, number, id, name);
    let opened = anthropic::stepped(s, start);
    assert(seq![start].drop_last() =~= seq![]);
    assert(anthropic::streamed(s, seq![start].drop_last()) == s);
    assert(anthropic::streamed(s, seq![start]) == opened);
    assert forall|j: int| 0 <= j < n implies (#[trigger] opened.blocks[j]).0 != number by {
        assert(opened.blocks.take(n)[j] == s.blocks[j]);
    }
    lemma_input_grows(opened, events, number, parts, n);
    lemma_streamed_more(s, seq![start], events);
    let filled = anthropic::streamed(opened, events);
    assert(Seq::<char>::empty() + parts.flatten() =~= parts.flatten());
    assert forall|j: int| 0 <= j < n implies (#[trigger] filled.blocks[j]).0 != number by {
        assert(filled.blocks[j] == opened.blocks[j]);
    }
    law_ended_blocks_are_kept(filled, stop, number, n);
    lemma_streamed_more(s, seq![start] + events, seq![stop]);
    assert(seq![stop].drop_last() =~= seq![]);
    assert(anthropic::streamed(filled, seq![stop].drop_last()) == filled);
    let t = anthropic::stepped(filled, stop);
    assert(anthropic::streamed(filled, seq![stop]) == t);
    assert(t.blocks =~= s.blocks) by {
        assert forall|j: int| 0 <= j < n implies t.blocks[j] == s.blocks[j] by {
            assert(filled.blocks[j] == opened.blocks[j]);
            assert(opened.blocks.take(n)[j] == s.blocks[j]);
        }
    }
    assert(t.reasoning == s.reasoning);
    assert(filled.tool_calls == s.tool_calls);
}

/// The calls that blocks make when they end.
pub open spec fn calls_in(blocks: Seq<(u64, anthropic::BlockView)>) -> Seq<
    (Seq<char>, Seq<char>, Seq<char>),
> {
    blocks.filter(|b: (u64, anthropic::BlockView)| b.1 is ToolUse).map_values(
        |b: (u64, anthropic::BlockView)| (b.1->id, b.1->name, b.1->json),
    )
}

/// Blocks that a stream left open are not lost: each tool call among them
/// becomes a call when the reply is finished, in their order, behind those
/// that had ended.
pub proof fn law_open_calls_are_not_lost(s: anthropic::StreamView)
    ensures
        ({
            let t = anthropic::closed_blocks(s, anthropic::open_indices(s));
            let kept = s.tool_calls.len();
            let open = calls_in(s.blocks);
            &&& t.content == s.content
            &&& t.usage == s.usage
            &&& t.saw_usage == s.saw_usage
            &&& t.stop_reason == s.stop_reason
            &&& t.tool_calls.len() == kept + open.len()
            &&& t.tool_calls.take(kept as int) == s.tool_calls
            &&& forall|i: int|
                0 <= i < open.len() ==> t.tool_calls[kept + i].id == (#[trigger] open[i]).0
                    && t.tool_calls[kept + i].name == open[i].1 && input_of(
                    open[i].2,
                    t.tool_calls[kept + i].arguments,
                )
        }),
{
    lemma_closed_upto(s, s.blocks.len() as int);
    assert(anthropic::open_indices(s).take(s.blocks.len() as int) =~= anthropic::open_indices(s));
    assert(s.blocks.take(s.blocks.len() as int) =~= s.blocks);
}

proof fn lemma_closed_upto(s: anthropic::StreamView, n: int)
    requires
        0 <= n <= s.blocks.len(),
    ensures
        ({
            let t = anthropic::closed_blocks(s, anthropic::open_indices(s).take(n));
            let kept = s.tool_calls.len();
            let open = calls_in(s.blocks.take(n));
            &&& t == (anthropic::StreamView {
                blocks: t.blocks,
                tool_calls: t.tool_calls,
                reasoning: t.reasoning,
                ..s
            })
            &&& t.blocks == s.blocks.skip(n)
            &&& t.tool_calls.len() == kept + open.len()
            &&& t.tool_calls.take(kept as int) == s.tool_calls
            &&& forall|i: int|
                0 <= i < open.len() ==> t.tool_calls[kept + i].id == (#[trigger] open[i]).0
                    && t.tool_calls[kept + i].name == open[i].1 && input_of(
                    open[i].2,
                    t.tool_calls[kept + i].arguments,
                )
        }),
    decreases n,
{
    reveal(Seq::filter);
    let all = anthropic::open_indices(s);
    let kept = s.tool_calls.len() as int;
    if n == 0 {
        assert(all.take(0) =~= seq![]);
        assert(s.blocks.skip(0) =~= s.blocks);
        assert(s.blocks.take(0) =~= seq![]);
        assert(calls_in(s.blocks.take(0)) =~= seq![]);
        assert(s.tool_calls.take(kept) =~= s.tool_calls);
    } else {
        lemma_closed_upto(s, n - 1);
        assert(all.take(n).drop_last() =~= all.take(n - 1));
        assert(s.blocks.take(n).drop_last() =~= s.blocks.take(n - 1));
        let mid = anthropic::closed_blocks(s, all.take(n - 1));
        let number = s.blocks[n - 1].0;
        assert(all.take(n).last() == number);
        assert(mid.blocks[0] == s.blocks[n - 1]);
        assert(first_open(mid.blocks, number, 0));
        lemma_ended(mid, number, 0);
        let t = anthropic::closed_block(mid, number);
        assert(s.blocks.skip(n - 1).remove(0) =~= s.blocks.skip(n));
        let before = calls_in(s.blocks.take(n - 1));
        let after = calls_in(s.blocks.take(n));
        let b = s.blocks[n - 1];
        let show = |b: (u64, anthropic::BlockView)| (b.1->id, b.1->name, b.1->json);
        if b.1 is ToolUse {
            assert(after =~= before.push(show(b)));
        } else {
            assert(after =~= before);
        }
        assert(t.tool_calls.take(kept) =~= s.tool_calls) by {
            assert forall|k: int| 0 <= k < kept implies t.tool_calls[k] == s.tool_calls[k] by {
                assert(mid.tool_calls.take(kept)[k] == s.tool_calls[k]);
            }
        }
        assert forall|i: int| 0 <= i < after.len() implies t.tool_calls[kept + i].id == (
        #[trigger] after[i]).0 && t.tool_calls[kept + i].name == after[i].1 && input_of(
            after[i].2,
            t.tool_calls[kept + i].arguments,
        ) by {
            if i < before.len() {
                assert(after[i] == before[i]);
                assert(t.tool_calls[kept + i] == mid.tool_calls[kept + i]);
            }
        }
    }
}

/// The reply's own reports are taken as they come: the counts of the beginning
/// make up the prompt, the last count of the answer and the last reason to
/// stop stand, and only the closing event ends the stream.
pub proof fn law_reports_are_taken_as_they_come(
    s: anthropic::StreamView,
    event: json::JsonView,
    message: json::JsonView,
    usage: json::JsonView,
    input: u64,
    read: u64,
    created: u64,
    output: u64,
    reason: Seq<char>,
)
    ensures
        says(event, "type"@, "message_start"@) && event.field("message"@) == Some(message)
            && message.field("usage"@) == Some(usage) && usage is Object && counts(
            usage,
            "input_tokens"@,
            input,
        ) && counts(usage, "cache_read_input_tokens"@, read) && counts(
            usage,
            "cache_creation_input_tokens"@,
            created,
        ) && counts(usage, "output_tokens"@, output) && input + read + created <= u64::MAX ==> {
            let t = anthropic::stepped(s, event);
            &&& t.usage.prompt_tokens == input + read + created
            &&& t.usage.cache_read_tokens == read
            &&& t.usage.completion_tokens == s.usage.completion_tokens
            &&& t.saw_usage
            &&& t == (anthropic::StreamView { usage: t.usage, saw_usage: true, ..s })
        },
        says(event, "type"@, "message_delta"@) && event.field("delta"@) == Some(message) && says(
            message,
            "stop_reason"@,
            reason,
        ) && event.field("usage"@) == Some(usage) && counts(usage, "output_tokens"@, output) ==> {
            let t = anthropic::stepped(s, event);
            &&& t.stop_reason == Some(reason)
            &&& t.usage.completion_tokens == output
            &&& t.usage.prompt_tokens == s.usage.prompt_tokens
            &&& t.usage.cache_read_tokens == s.usage.cache_read_tokens
            &&& t.saw_usage
            &&& t == (anthropic::StreamView {
                usage: t.usage,
                saw_usage: true,
                stop_reason: t.stop_reason,
                ..s
            })
        },
        says(event, "type"@, "message_delta"@) && event.field("usage"@) is None && event.field(
            "delta"@,
        ) == Some(message) && says(message, "stop_reason"@, reason) ==> anthropic::stepped(s, event)
            == (anthropic::StreamView { stop_reason: Some(reason), ..s }),
        says(event, "type"@, "message_stop"@) ==> anthropic::stepped(s, event) == (
        anthropic::StreamView { finished: true, ..s }),
        !says(event, "type"@, "message_stop"@) ==> anthropic::stepped(s, event).finished
            == s.finished,
        says(event, "type"@, "ping"@) ==> anthropic::stepped(s, event) == s,
{
    lemma_kinds_differ();
    reveal_strlit("ping");
    reveal_strlit("message_start");
    reveal_strlit("content_block_start");
    reveal_strlit("content_block_delta");
    reveal_strlit("content_block_stop");
    reveal_strlit("message_delta");
    reveal_strlit("message_stop");
    assert("ping"@.len() == 4);
    match event.field("type"@) {
        Some(json::JsonView::Text(kind)) => {},
        _ => {},
    }
}

/// Of a whole reply every block is read: text blocks make up the content in
/// their order, each tool block is a call with its id, name and input, and
/// each block of reasoning is kept as it came.
pub proof fn law_every_block_of_a_reply_is_read(
    blocks: Seq<json::JsonView>,
    block: json::JsonView,
    id: Seq<char>,
    name: Seq<char>,
    content: Seq<char>,
    input: json::JsonView,
)
    ensures
        anthropic::reply_text(seq![]) == Seq::<char>::empty(),
        anthropic::reply_calls(seq![]) == Seq::<model::CallView>::empty(),
        anthropic::reply_reasoning(seq![]) == Seq::<json::JsonView>::empty(),
        says(block, "type"@, "text"@) && says(block, "text"@, content) ==> {
            &&& anthropic::reply_text(blocks.push(block)) == anthropic::reply_text(blocks) + content
            &&& anthropic::reply_calls(blocks.push(block)) == anthropic::reply_calls(blocks)
            &&& anthropic::reply_reasoning(blocks.push(block)) == anthropic::reply_reasoning(blocks)
        },
        says(block, "type"@, "tool_use"@) && says(block, "id"@, id) && says(block, "name"@, name)
            && block.field("input"@) == Some(input) ==> {
            &&& anthropic::reply_text(blocks.push(block)) == anthropic::reply_text(blocks)
            &&& anthropic::reply_calls(blocks.push(block)) == anthropic::reply_calls(blocks).push(
                model::CallView { id, name, arguments: input },
            )
            &&& anthropic::reply_reasoning(blocks.push(block)) == anthropic::reply_reasoning(blocks)
        },
        says(block, "type"@, "thinking"@) || says(block, "type"@, "redacted_thinking"@) ==> {
            &&& anthropic::reply_text(blocks.push(block)) == anthropic::reply_text(blocks)
            &&& anthropic::reply_calls(blocks.push(block)) == anthropic::reply_calls(blocks)
            &&& anthropic::reply_reasoning(blocks.push(block)) == anthropic::reply_reasoning(
                blocks,
            ).push(block)
        },
{
    lemma_kinds_differ();
    assert(blocks.push(block).drop_last() =~= blocks);
    assert(blocks.push(block).last() == block);
}

/// A reply counts as cut short exactly where the provider gave a reason to
/// stop other than the end of the turn, a tool call or a stop sequence.
pub proof fn law_other_reasons_to_stop_cut_a_reply_short(reason: Seq<char>)
    ensures
        anthropic::truncation_spec(None) is None,
        anthropic::truncation_spec(Some("end_turn"@)) is None,
        anthropic::truncation_spec(Some("tool_use"@)) is None,
        anthropic::truncation_spec(Some("stop_sequence"@)) is None,
        reason != "end_turn"@ && reason != "tool_use"@ && reason != "stop_sequence"@
            ==> anthropic::truncation_spec(Some(reason)) == Some(reason),
{
}

} // verus!

//! Whether two values of the conversation stand for the same.

use vstd::prelude::*;
use vstd::string::*;

use crate::agent_loop::{AgentLoopEvent, StageOutcome};
use crate::json;
use crate::json::{Json, Number};
use crate::model;
use crate::model::{Message, ToolCall, Usage};
use crate::text;

verus! {

fn same_number(a: &Number, b: &Number) -> (r: bool)
    ensures
        r == (a@ == b@),
{
    match (a, b) {
        (Number::Unsigned(x), Number::Unsigned(y)) => *x == *y,
        (Number::Negative(x), Number::Negative(y)) => *x == *y,
        (Number::Decimal(x), Number::Decimal(y)) => text::same(x.as_str(), y.as_str()),
        _ => false,
    }
}

/// Whether two JSON values are equal.
pub fn same_json(a: &Json, b: &Json) -> (r: bool)
    ensures
        r == (a@ == b@),
    decreases *a,
{
    match (a, b) {
        (Json::Null, Json::Null) => true,
        (Json::Bool(x), Json::Bool(y)) => *x == *y,
        (Json::Number(x), Json::Number(y)) => same_number(x, y),
        (Json::Text(x), Json::Text(y)) => text::same(x.as_str(), y.as_str()),
        (Json::Array(x), Json::Array(y)) => {
            let ghost u = a@->Array_0;
            let ghost v = b@->Array_0;
            assert(u.len() == x@.len() && v.len() == y@.len());
            if x.len() != y.len() {
                return false;
            }
            let mut i: usize = 0;
            while i < x.len()
                invariant
                    i <= x@.len(),
                    x@.len() == y@.len(),
                    *a == Json::Array(*x),
                    *b == Json::Array(*y),
                    u == a@->Array_0,
                    v == b@->Array_0,
                    u.len() == x@.len(),
                    v.len() == y@.len(),
                    forall|k: int| 0 <= k < i ==> u[k] == v[k],
                decreases x@.len() - i,
            {
                assert(decreases_to!(a->Array_0@ => a->Array_0@[i as int]));
                assert(decreases_to!(*a => a->Array_0@[i as int]));
                assert(u[i as int] == json::json_view(x@[i as int]));
                assert(v[i as int] == json::json_view(y@[i as int]));
                if !same_json(&x[i], &y[i]) {
                    assert(u[i as int] != v[i as int]);
                    return false;
                }
                i = i + 1;
            }
            assert(u =~= v);
            true
        },
        (Json::Object(x), Json::Object(y)) => {
            let ghost u = a@->Object_0;
            let ghost v = b@->Object_0;
            assert(u.len() == x@.len() && v.len() == y@.len());
            if x.len() != y.len() {
                return false;
            }
            let mut i: usize = 0;
            while i < x.len()
                invariant
                    i <= x@.len(),
                    x@.len() == y@.len(),
                    *a == Json::Object(*x),
                    *b == Json::Object(*y),
                    u == a@->Object_0,
                    v == b@->Object_0,
                    u.len() == x@.len(),
                    v.len() == y@.len(),
                    forall|k: int| 0 <= k < i ==> u[k] == v[k],
                decreases x@.len() - i,
            {
                assert(decreases_to!(a->Object_0@ => a->Object_0@[i as int]));
                assert(decreases_to!(a->Object_0@ => a->Object_0@[i as int].1));
                assert(decreases_to!(*a => a->Object_0@[i as int].1));
                assert(u[i as int] == (x@[i as int].0@, json::json_view(x@[i as int].1)));
                assert(v[i as int] == (y@[i as int].0@, json::json_view(y@[i as int].1)));
                if !text::same(x[i].0.as_str(), y[i].0.as_str()) || !same_json(&x[i].1, &y[i].1) {
                    assert(u[i as int] != v[i as int]);
                    return false;
                }
                i = i + 1;
            }
            assert(u =~= v);
            true
        },
        _ => false,
    }
}

fn same_optional(a: &Option<String>, b: &Option<String>) -> (r: bool)
    ensures
        r == (model::option_text(*a) == model::option_text(*b)),
{
    match (a, b) {
        (Some(x), Some(y)) => text::same(x.as_str(), y.as_str()),
        (None, None) => true,
        _ => false,
    }
}

/// Whether two tool calls are equal.
pub fn same_call(a: &ToolCall, b: &ToolCall) -> (r: bool)
    ensures
        r == (a@ == b@),
{
    text::same(a.id.as_str(), b.id.as_str()) && text::same(
        a.function.name.as_str(),
        b.function.name.as_str(),
    ) && same_json(&a.function.arguments, &b.function.arguments)
}

fn same_calls(a: &Vec<ToolCall>, b: &Vec<ToolCall>) -> (r: bool)
    ensures
        r == (model::calls_view(a@) == model::calls_view(b@)),
{
    let ghost u = model::calls_view(a@);
    let ghost v = model::calls_view(b@);
    assert(u.len() == a@.len() && v.len() == b@.len());
    if a.len() != b.len() {
        return false;
    }
    let mut i: usize = 0;
    while i < a.len()
        invariant
            i <= a@.len() == b@.len(),
            u == model::calls_view(a@),
            v == model::calls_view(b@),
            forall|k: int| 0 <= k < i ==> u[k] == v[k],
        decreases a@.len() - i,
    {
        assert(u[i as int] == a@[i as int]@ && v[i as int] == b@[i as int]@);
        if !same_call(&a[i], &b[i]) {
            assert(u[i as int] != v[i as int]);
            return false;
        }
        i = i + 1;
    }
    assert(u =~= v);
    true
}

/// Whether two messages are equal.
pub fn same_message(a: &Message, b: &Message) -> (r: bool)
    ensures
        r == (a@ == b@),
{
    match (a, b) {
        (Message::System { content: x }, Message::System { content: y }) => text::same(
            x.as_str(),
            y.as_str(),
        ),
        (Message::User { content: x }, Message::User { content: y }) => text::same(
            x.as_str(),
            y.as_str(),
        ),
        (
            Message::Assistant { content: x, tool_calls: c, reasoning: p },
            Message::Assistant { content: y, tool_calls: d, reasoning: q },
        ) => {
            let calls = match (c, d) {
                (Some(c), Some(d)) => same_calls(c, d),
                (None, None) => true,
                _ => false,
            };
            let thoughts = match (p, q) {
                (Some(p), Some(q)) => same_json(p, q),
                (None, None) => true,
                _ => false,
            };
            same_optional(x, y) && calls && thoughts
        },
        (
            Message::Tool { content: x, tool_call_id: i },
            Message::Tool { content: y, tool_call_id: j },
        ) => text::same(x.as_str(), y.as_str()) && text::same(i.as_str(), j.as_str()),
        _ => false,
    }
}

fn same_messages(a: &Vec<Message>, b: &Vec<Message>) -> (r: bool)
    ensures
        r == (model::messages_view(a@) == model::messages_view(b@)),
{
    let ghost u = model::messages_view(a@);
    let ghost v = model::messages_view(b@);
    assert(u.len() == a@.len() && v.len() == b@.len());
    if a.len() != b.len() {
        return false;
    }
    let mut i: usize = 0;
    while i < a.len()
        invariant
            i <= a@.len() == b@.len(),
            u == model::messages_view(a@),
            v == model::messages_view(b@),
            forall|k: int| 0 <= k < i ==> u[k] == v[k],
        decreases a@.len() - i,
    {
        assert(u[i as int] == a@[i as int]@ && v[i as int] == b@[i as int]@);
        if !same_message(&a[i], &b[i]) {
            assert(u[i as int] != v[i as int]);
            return false;
        }
        i = i + 1;
    }
    assert(u =~= v);
    true
}

fn same_usage(a: &Option<Usage>, b: &Option<Usage>) -> (r: bool)
    ensures
        r == (*a == *b),
{
    match (a, b) {
        (Some(x), Some(y)) => *x == *y,
        (None, None) => true,
        _ => false,
    }
}

/// Whether two outcomes are equal.
pub fn same_outcome(a: &StageOutcome, b: &StageOutcome) -> (r: bool)
    ensures
        r == (a@ == b@),
{
    match (a, b) {
        (StageOutcome::Final(x), StageOutcome::Final(y)) => text::same(x.as_str(), y.as_str()),
        (
            StageOutcome::Reprompt { target: x, instructions: p },
            StageOutcome::Reprompt { target: y, instructions: q },
        ) => text::same(x.as_str(), y.as_str()) && text::same(p.as_str(), q.as_str()),
        _ => false,
    }
}

/// Whether two events of a log are equal.
pub fn same_event(a: &AgentLoopEvent, b: &AgentLoopEvent) -> (r: bool)
    ensures
        r == (a@ == b@),
{
    match (a, b) {
        (
            AgentLoopEvent::Started { system: s, messages: m },
            AgentLoopEvent::Started { system: t, messages: n },
        ) => same_optional(s, t) && same_messages(m, n),
        (
            AgentLoopEvent::ContextShed { keep_recent: x },
            AgentLoopEvent::ContextShed { keep_recent: y },
        ) => *x == *y,
        (
            AgentLoopEvent::Assistant { content: x, tool_calls: c, usage: p },
            AgentLoopEvent::Assistant { content: y, tool_calls: d, usage: q },
        ) => same_optional(x, y) && same_calls(c, d) && same_usage(p, q),
        (
            AgentLoopEvent::ToolStarted { call_index: x },
            AgentLoopEvent::ToolStarted { call_index: y },
        ) => *x == *y,
        (
            AgentLoopEvent::ToolResult { call_index: i, content: x },
            AgentLoopEvent::ToolResult { call_index: j, content: y },
        ) => *i == *j && text::same(x.as_str(), y.as_str()),
        (
            AgentLoopEvent::UserMessage { content: x },
            AgentLoopEvent::UserMessage { content: y },
        ) => text::same(x.as_str(), y.as_str()),
        (
            AgentLoopEvent::Finished { outcome: x, usage: p },
            AgentLoopEvent::Finished { outcome: y, usage: q },
        ) => same_outcome(x, y) && same_usage(p, q),
        _ => false,
    }
}

} // verus!

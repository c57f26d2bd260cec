//! What holds of requests to providers and of what streams back.

use vstd::prelude::*;
use vstd::string::*;

use crate::anthropic;
use crate::anthropic_laws;
use crate::json;
use crate::model;
use crate::numbers;
use crate::openai;
use crate::request;
use crate::schema;
use crate::sse;
use crate::stream;
use crate::text;

verus! {

proof fn lemma_field_from(fields: Seq<(Seq<char>, json::JsonView)>, name: Seq<char>, from: int)
    requires
        0 <= from <= fields.len(),
    ensures
        match json::JsonView::field_from(fields, name, from) {
            Some(i) => from <= i < fields.len() && fields[i].0 == name && (forall|j: int|
                from <= j < i ==> (#[trigger] fields[j]).0 != name),
            None => forall|j: int| from <= j < fields.len() ==> (#[trigger] fields[j]).0 != name,
        },
    decreases fields.len() - from,
{
    if from < fields.len() && fields[from].0 != name {
        lemma_field_from(fields, name, from + 1);
    }
}

/// A field of the first of two rows of fields comes before one of the second.
proof fn lemma_field_of_both(
    a: Seq<(Seq<char>, json::JsonView)>,
    b: Seq<(Seq<char>, json::JsonView)>,
    name: Seq<char>,
)
    ensures
        json::JsonView::Object(a + b).field(name) == match json::JsonView::Object(a).field(name) {
            Some(v) => Some(v),
            None => json::JsonView::Object(b).field(name),
        },
{
    let both = a + b;
    lemma_field_from(a, name, 0);
    lemma_field_from(b, name, 0);
    lemma_field_from(both, name, 0);
    match json::JsonView::field_from(a, name, 0) {
        Some(i) => {
            let k = json::JsonView::field_from(both, name, 0);
            assert(both[i].0 == name);
            assert(k is Some);
            if k->0 < i {
                assert(a[k->0].0 == name);
            }
            if k->0 > i {
                assert(both[i].0 != name);
            }
        },
        None => {
            match json::JsonView::field_from(b, name, 0) {
                Some(i) => {
                    let n = a.len() as int;
                    assert(both[n + i].0 == name);
                    let k = json::JsonView::field_from(both, name, 0);
                    assert(k is Some);
                    if k->0 < n {
                        assert(a[k->0].0 == name);
                    } else if k->0 < n + i {
                        assert(b[k->0 - n].0 == name);
                    } else if k->0 > n + i {
                        assert(both[n + i].0 != name);
                    }
                },
                None => {
                    if json::JsonView::field_from(both, name, 0) is Some {
                        let k = json::JsonView::field_from(both, name, 0)->0;
                        if k < a.len() {
                            assert(a[k].0 == name);
                        } else {
                            assert(b[k - a.len()].0 == name);
                        }
                    }
                },
            }
        },
    }
}

proof fn lemma_optional(key: Seq<char>, value: Option<json::JsonView>, name: Seq<char>)
    ensures
        json::JsonView::Object(schema::optional_field(key, value)).field(name) == if key == name {
            value
        } else {
            None
        },
{
    let fields = schema::optional_field(key, value);
    lemma_field_from(fields, name, 0);
    if value is Some && key == name {
        assert(fields[0].0 == name);
    }
}

/// A message is sent with its role, its text, the call that it answers where
/// it answers one, and the calls that it makes where it makes any.
pub proof fn law_messages_are_sent_with_their_role(
    content: Seq<char>,
    id: Seq<char>,
    calls: Seq<model::CallView>,
    k: int,
)
    requires
        0 <= k < calls.len(),
    ensures
        ({
            let m = openai::message_wire(model::MessageView::System { content });
            anthropic_laws::says(m, "role"@, "system"@) && anthropic_laws::says(
                m,
                "content"@,
                content,
            )
        }),
        ({
            let m = openai::message_wire(model::MessageView::User { content });
            anthropic_laws::says(m, "role"@, "user"@) && anthropic_laws::says(
                m,
                "content"@,
                content,
            )
        }),
        ({
            let m = openai::message_wire(model::MessageView::Tool { content, tool_call_id: id });
            anthropic_laws::says(m, "role"@, "tool"@) && anthropic_laws::says(
                m,
                "content"@,
                content,
            ) && anthropic_laws::says(m, "tool_call_id"@, id)
        }),
        ({
            let m = openai::message_wire(
                model::MessageView::Assistant {
                    content: Some(content),
                    tool_calls: Some(calls),
                    reasoning: None,
                },
            );
            &&& anthropic_laws::says(m, "role"@, "assistant"@)
            &&& anthropic_laws::says(m, "content"@, content)
            &&& m.field("tool_calls"@) matches Some(json::JsonView::Array(sent)) && sent.len()
                == calls.len() && anthropic_laws::says(sent[k], "id"@, calls[k].id) && (
            sent[k].field("function"@) matches Some(f) && anthropic_laws::says(
                f,
                "name"@,
                calls[k].name,
            ) && (f.field("arguments"@) matches Some(json::JsonView::Text(raw)) && (
            calls[k].arguments matches json::JsonView::Text(own) ==> raw == own) && (
            calls[k].arguments is Object ==> raw == json::printed(calls[k].arguments))))
        }),
{
    reveal_strlit("role");
    reveal_strlit("content");
    reveal_strlit("tool_call_id");
    reveal_strlit("tool_calls");
    reveal_strlit("id");
    reveal_strlit("type");
    reveal_strlit("function");
    reveal_strlit("name");
    reveal_strlit("arguments");
    assert("role"@.len() == 4);
    assert("content"@.len() == 7);
    assert("tool_call_id"@.len() == 12);
    assert("tool_calls"@.len() == 10);
    assert("id"@.len() == 2);
    assert("type"@.len() == 4);
    assert("function"@.len() == 8);
    assert("name"@.len() == 4);
    assert("arguments"@.len() == 9);
    reveal_with_fuel(json::JsonView::field_from, 4);
    let wire = openai::calls_wire(calls);
    let head = openai::assistant_head(Some(content));
    lemma_field_of_both(
        head,
        schema::optional_field("tool_calls"@, Some(wire)),
        "tool_calls"@,
    );
    lemma_field_of_both(head, schema::optional_field("tool_calls"@, Some(wire)), "role"@);
    lemma_field_of_both(head, schema::optional_field("tool_calls"@, Some(wire)), "content"@);
    lemma_optional("tool_calls"@, Some(wire), "tool_calls"@);
    assert(openai::calls_wire(calls)->Array_0[k] == openai::call_wire(calls[k]));
}

proof fn lemma_request_names()
    ensures
        "model"@ != "messages"@,
        "model"@ != "temperature"@,
        "model"@ != "top_p"@,
        "model"@ != "max_tokens"@,
        "model"@ != "tools"@,
        "model"@ != "tool_choice"@,
        "model"@ != "response_format"@,
        "model"@ != "stream"@,
        "model"@ != "stream_options"@,
        "model"@ != "system"@,
        "model"@ != "output_config"@,
        "messages"@ != "temperature"@,
        "messages"@ != "top_p"@,
        "messages"@ != "max_tokens"@,
        "messages"@ != "tools"@,
        "messages"@ != "tool_choice"@,
        "messages"@ != "response_format"@,
        "messages"@ != "stream"@,
        "messages"@ != "stream_options"@,
        "messages"@ != "system"@,
        "messages"@ != "output_config"@,
        "temperature"@ != "top_p"@,
        "temperature"@ != "max_tokens"@,
        "temperature"@ != "tools"@,
        "temperature"@ != "tool_choice"@,
        "temperature"@ != "response_format"@,
        "temperature"@ != "stream"@,
        "temperature"@ != "stream_options"@,
        "temperature"@ != "system"@,
        "temperature"@ != "output_config"@,
        "top_p"@ != "max_tokens"@,
        "top_p"@ != "tools"@,
        "top_p"@ != "tool_choice"@,
        "top_p"@ != "response_format"@,
        "top_p"@ != "stream"@,
        "top_p"@ != "stream_options"@,
        "top_p"@ != "system"@,
        "top_p"@ != "output_config"@,
        "max_tokens"@ != "tools"@,
        "max_tokens"@ != "tool_choice"@,
        "max_tokens"@ != "response_format"@,
        "max_tokens"@ != "stream"@,
        "max_tokens"@ != "stream_options"@,
        "max_tokens"@ != "system"@,
        "max_tokens"@ != "output_config"@,
        "tools"@ != "tool_choice"@,
        "tools"@ != "response_format"@,
        "tools"@ != "stream"@,
        "tools"@ != "stream_options"@,
        "tools"@ != "system"@,
        "tools"@ != "output_config"@,
        "tool_choice"@ != "response_format"@,
        "tool_choice"@ != "stream"@,
        "tool_choice"@ != "stream_options"@,
        "tool_choice"@ != "system"@,
        "tool_choice"@ != "output_config"@,
        "response_format"@ != "stream"@,
        "response_format"@ != "stream_options"@,
        "response_format"@ != "system"@,
        "response_format"@ != "output_config"@,
        "stream"@ != "stream_options"@,
        "stream"@ != "system"@,
        "stream"@ != "output_config"@,
        "system"@ != "output_config"@,
{
    reveal_strlit("model");
    reveal_strlit("messages");
    reveal_strlit("temperature");
    reveal_strlit("top_p");
    reveal_strlit("max_tokens");
    reveal_strlit("tools");
    reveal_strlit("tool_choice");
    reveal_strlit("response_format");
    reveal_strlit("stream");
    reveal_strlit("stream_options");
    reveal_strlit("system");
    reveal_strlit("output_config");
    assert("model"@.len() == 5);
    assert("messages"@.len() == 8);
    assert("temperature"@.len() == 11);
    assert("top_p"@.len() == 5);
    assert("max_tokens"@.len() == 10);
    assert("tools"@.len() == 5);
    assert("tool_choice"@.len() == 11);
    assert("response_format"@.len() == 15);
    assert("stream"@.len() == 6);
    assert("stream_options"@.len() == 14);
    assert("system"@.len() == 6);
    assert("output_config"@.len() == 13);
    assert("model"@[0] == 'm');
    assert("top_p"@[2] == 'p');
    assert("tools"@[2] == 'o');
    assert("tools"@[0] == 't');
    assert("top_p"@[0] == 't');
    assert("temperature"@[1] == 'e');
    assert("tool_choice"@[1] == 'o');
    assert("stream"@[1] == 't');
    assert("system"@[1] == 'y');
}

/// A request names the model, holds every message in its place, each tool with
/// its name, description and parameters, and the limits and wishes that were
/// given; what was not given is left out.
pub proof fn law_requests_hold_what_was_asked(r: request::RequestView, name: Seq<char>)
    ensures
        ({
            let sent = openai::request_wire(r);
            &&& anthropic_laws::says(sent, "model"@, r.model)
            &&& sent.field("messages"@) matches Some(json::JsonView::Array(messages))
                && messages.len() == r.messages.len() && (forall|i: int|
                0 <= i < r.messages.len() ==> #[trigger] messages[i] == openai::message_wire(
                    r.messages[i],
                ))
            &&& sent.field("max_tokens"@) == match r.max_tokens {
                Some(n) => Some(json::JsonView::Number(json::NumberView::Unsigned(n as u64))),
                None => None,
            }
            &&& sent.field("temperature"@) == match r.temperature {
                Some(s) => Some(json::JsonView::Number(json::NumberView::Decimal(s))),
                None => None,
            }
            &&& sent.field("top_p"@) == match r.top_p {
                Some(s) => Some(json::JsonView::Number(json::NumberView::Decimal(s))),
                None => None,
            }
            &&& r.tools.len() == 0 ==> sent.field("tools"@) is None
            &&& r.tools.len() > 0 ==> (sent.field("tools"@) matches Some(
                json::JsonView::Array(tools),
            ) && tools.len() == r.tools.len() && (forall|i: int|
                0 <= i < r.tools.len() ==> ((#[trigger] tools[i]).field("function"@) matches Some(
                    f,
                ) && anthropic_laws::says(f, "name"@, r.tools[i].name) && anthropic_laws::says(
                    f,
                    "description"@,
                    r.tools[i].description,
                ) && f.field("parameters"@) == Some(r.tools[i].parameters))))
            &&& sent.field("stream"@) == if r.stream {
                Some(json::JsonView::Bool(true))
            } else {
                None
            }
            &&& sent.field("tool_choice"@) is Some <==> r.tool_choice is Some
            &&& r.tool_choice == Some(request::ChoiceView::Any) ==> anthropic_laws::says(
                sent,
                "tool_choice"@,
                "required"@,
            )
            &&& r.tool_choice == Some(request::ChoiceView::Tool(name)) ==> (sent.field(
                "tool_choice"@,
            ) matches Some(choice) && (choice.field("function"@) matches Some(f)
                && anthropic_laws::says(f, "name"@, name)))
            &&& sent.field("response_format"@) is Some <==> r.output_schema is Some
            &&& r.output_schema matches Some(shape) ==> (sent.field("response_format"@) matches Some(
                format,
            ) && (format.field("json_schema"@) matches Some(inner) && inner.field("schema"@) == Some(
                shape,
            )))
        }),
{
    lemma_request_names();
    let head = seq![
        ("model"@, json::JsonView::Text(r.model)),
        ("messages"@, openai::messages_wire(r.messages)),
    ];
    let a = schema::optional_field("temperature"@, request::decimal_value(r.temperature));
    let b = schema::optional_field("top_p"@, request::decimal_value(r.top_p));
    let limit = match r.max_tokens {
        Some(n) => Some(json::JsonView::Number(json::NumberView::Unsigned(n as u64))),
        None => None,
    };
    let c = schema::optional_field("max_tokens"@, limit);
    let d = schema::optional_field("tools"@, openai::tools_wire(r.tools));
    let choice = match r.tool_choice {
        Some(c) => Some(openai::choice_wire(c)),
        None => None,
    };
    let e = schema::optional_field("tool_choice"@, choice);
    let format = match r.output_schema {
        Some(s) => Some(openai::format_wire(s)),
        None => None,
    };
    let f = schema::optional_field("response_format"@, format);
    let flag = if r.stream {
        Some(json::JsonView::Bool(true))
    } else {
        None
    };
    let g = schema::optional_field("stream"@, flag);
    let more = if r.stream {
        Some(json::JsonView::Object(seq![("include_usage"@, json::JsonView::Bool(true))]))
    } else {
        None
    };
    let h = schema::optional_field("stream_options"@, more);
    assert(openai::request_wire(r) == json::JsonView::Object(
        head + a + b + c + d + e + f + g + h,
    ));
    assert forall|key: Seq<char>|
        #![trigger json::JsonView::Object(head + a + b + c + d + e + f + g + h).field(key)]
        json::JsonView::Object(head + a + b + c + d + e + f + g + h).field(key) == match (
        json::JsonView::Object(head).field(key)) {
            Some(v) => Some(v),
            None => if key == "temperature"@ {
                request::decimal_value(r.temperature)
            } else if key == "top_p"@ {
                request::decimal_value(r.top_p)
            } else if key == "max_tokens"@ {
                limit
            } else if key == "tools"@ {
                openai::tools_wire(r.tools)
            } else if key == "tool_choice"@ {
                choice
            } else if key == "response_format"@ {
                format
            } else if key == "stream"@ {
                flag
            } else if key == "stream_options"@ {
                more
            } else {
                None
            },
        } by {
        lemma_field_of_both(head + a + b + c + d + e + f + g, h, key);
        lemma_field_of_both(head + a + b + c + d + e + f, g, key);
        lemma_field_of_both(head + a + b + c + d + e, f, key);
        lemma_field_of_both(head + a + b + c + d, e, key);
        lemma_field_of_both(head + a + b + c, d, key);
        lemma_field_of_both(head + a + b, c, key);
        lemma_field_of_both(head + a, b, key);
        lemma_field_of_both(head, a, key);
        lemma_optional("temperature"@, request::decimal_value(r.temperature), key);
        lemma_optional("top_p"@, request::decimal_value(r.top_p), key);
        lemma_optional("max_tokens"@, limit, key);
        lemma_optional("tools"@, openai::tools_wire(r.tools), key);
        lemma_optional("tool_choice"@, choice, key);
        lemma_optional("response_format"@, format, key);
        lemma_optional("stream"@, flag, key);
        lemma_optional("stream_options"@, more, key);
    }
    assert forall|key: Seq<char>| #[trigger]
        json::JsonView::Object(head).field(key) == if key == "model"@ {
            Some(json::JsonView::Text(r.model))
        } else if key == "messages"@ {
            Some(openai::messages_wire(r.messages))
        } else {
            None
        } by {
        lemma_field_from(head, key, 0);
        assert(head[0].0 == "model"@);
        assert(head[1].0 == "messages"@);
    }
    assert forall|i: int| 0 <= i < r.tools.len() implies ((#[trigger] openai::tool_wire(
        r.tools[i],
    )).field("function"@) matches Some(f) && anthropic_laws::says(f, "name"@, r.tools[i].name)
        && anthropic_laws::says(f, "description"@, r.tools[i].description) && f.field("parameters"@)
        == Some(r.tools[i].parameters)) by {
        lemma_tool_fields(r.tools[i]);
    }
    lemma_choice_fields(name);
    if r.output_schema is Some {
        lemma_format_fields(r.output_schema->0);
    }
}

proof fn lemma_tool_fields(t: model::DefinitionView)
    ensures
        openai::tool_wire(t).field("function"@) matches Some(f) && anthropic_laws::says(
            f,
            "name"@,
            t.name,
        ) && anthropic_laws::says(f, "description"@, t.description) && f.field("parameters"@)
            == Some(t.parameters),
{
    reveal_strlit("type");
    reveal_strlit("function");
    reveal_strlit("name");
    reveal_strlit("description");
    reveal_strlit("parameters");
    assert("type"@.len() == 4);
    assert("function"@.len() == 8);
    assert("name"@.len() == 4);
    assert("description"@.len() == 11);
    assert("parameters"@.len() == 10);
    reveal_with_fuel(json::JsonView::field_from, 4);
}

proof fn lemma_choice_fields(name: Seq<char>)
    ensures
        openai::choice_wire(request::ChoiceView::Tool(name)).field("function"@) matches Some(f)
            && anthropic_laws::says(f, "name"@, name),
{
    reveal_strlit("type");
    reveal_strlit("function");
    assert("type"@.len() == 4);
    assert("function"@.len() == 8);
    reveal_with_fuel(json::JsonView::field_from, 4);
}

proof fn lemma_format_fields(shape: json::JsonView)
    ensures
        openai::format_wire(shape).field("json_schema"@) matches Some(inner) && inner.field(
            "schema"@,
        ) == Some(shape),
{
    reveal_strlit("type");
    reveal_strlit("json_schema");
    reveal_strlit("name");
    reveal_strlit("schema");
    reveal_strlit("strict");
    assert("type"@.len() == 4);
    assert("json_schema"@.len() == 11);
    assert("name"@.len() == 4);
    assert("schema"@.len() == 6);
    assert("strict"@.len() == 6);
    reveal_with_fuel(json::JsonView::field_from, 4);
}

/// A fragment of a call goes to the call with its number, which is made where
/// it is new: the id is set, name and arguments grow by what came. The other
/// calls stay.
pub proof fn law_call_fragments_go_to_their_call(
    slots: Seq<stream::SlotView>,
    d: stream::ToolCallDelta,
)
    ensures
        ({
            let after = stream::with_delta(slots, d);
            let i = d.index as int;
            let own = if i < slots.len() {
                slots[i]
            } else {
                stream::SlotView { id: seq![], name: seq![], arguments: seq![] }
            };
            &&& after.len() == if slots.len() > i {
                slots.len() as int
            } else {
                i + 1
            }
            &&& forall|j: int| 0 <= j < slots.len() && j != i ==> #[trigger] after[j] == slots[j]
            &&& d.id matches Some(id) ==> (id@.len() > 0 ==> after[i].id == id@)
            &&& d.id is None ==> after[i].id == own.id
            &&& d.function matches Some(f) ==> {
                &&& f.arguments matches Some(part) ==> after[i].arguments == own.arguments + part@
                &&& f.arguments is None ==> after[i].arguments == own.arguments
                &&& f.name matches Some(part) ==> after[i].name == own.name + part@
                &&& f.name is None ==> after[i].name == own.name
            }
            &&& d.function is None ==> after[i].name == own.name && after[i].arguments
                == own.arguments
        }),
{
    let i = d.index as int;
    let grown = stream::padded(slots, (d.index + 1) as nat);
    let own = if i < slots.len() {
        slots[i]
    } else {
        stream::SlotView { id: seq![], name: seq![], arguments: seq![] }
    };
    assert(grown[i] == own);
    assert(own.name + Seq::<char>::empty() =~= own.name);
    assert(own.arguments + Seq::<char>::empty() =~= own.arguments);
}

/// A choice adds its text to the answer, its fragments to the calls one after
/// the other, and gives the reason to stop where it has one, which ends the
/// generation.
pub proof fn law_choices_are_taken_in_order(
    r: stream::PartialView,
    choices: Seq<stream::StreamChoice>,
    choice: stream::StreamChoice,
    deltas: Seq<stream::ToolCallDelta>,
    d: stream::ToolCallDelta,
)
    ensures
        stream::with_choices(r, seq![]) == r,
        stream::with_choices(r, choices.push(choice)) == stream::with_choice(
            stream::with_choices(r, choices),
            choice,
        ),
        stream::with_deltas(r.tool_calls, seq![]) == r.tool_calls,
        stream::with_deltas(r.tool_calls, deltas.push(d)) == stream::with_delta(
            stream::with_deltas(r.tool_calls, deltas),
            d,
        ),
        ({
            let after = stream::with_choice(r, choice);
            &&& choice.delta.content matches Some(part) ==> after.content == r.content + part@
            &&& choice.delta.content is None ==> after.content == r.content
            &&& choice.delta.tool_calls matches Some(parts) ==> after.tool_calls
                == stream::with_deltas(r.tool_calls, parts@)
            &&& choice.delta.tool_calls is None ==> after.tool_calls == r.tool_calls
            &&& choice.finish_reason matches Some(reason) ==> after.finished
                && after.finish_reason == Some(reason@)
            &&& choice.finish_reason is None ==> after.finished == r.finished
                && after.finish_reason == r.finish_reason
        }),
{
    assert(choices.push(choice).drop_last() =~= choices);
    assert(choices.push(choice).last() == choice);
    assert(deltas.push(d).drop_last() =~= deltas);
    assert(deltas.push(d).last() == d);
    assert(r.content + Seq::<char>::empty() =~= r.content);
}

/// Every call that came in becomes a call of the reply, in order, with its id,
/// its name and the JSON that its arguments are.
pub proof fn law_every_streamed_call_is_kept(slots: Seq<stream::SlotView>)
    ensures
        openai::slot_calls(slots).len() == slots.len(),
        forall|i: int|
            0 <= i < slots.len() ==> (#[trigger] openai::slot_calls(slots)[i]).id == slots[i].id
                && openai::slot_calls(slots)[i].name == slots[i].name
                && anthropic_laws::input_of(
                slots[i].arguments,
                openai::slot_calls(slots)[i].arguments,
            ),
{
}

/// A reply counts as cut short exactly where a reason to stop was given that
/// is neither an end nor a call.
pub proof fn law_other_ends_cut_a_reply_short(reason: Seq<char>)
    ensures
        openai::truncation_spec(None) is None,
        openai::truncation_spec(Some("stop"@)) is None,
        openai::truncation_spec(Some("tool_calls"@)) is None,
        openai::truncation_spec(Some("function_call"@)) is None,
        reason != "stop"@ && reason != "tool_calls"@ && reason != "function_call"@
            ==> openai::truncation_spec(Some(reason)) == Some(reason),
{
}

/// A pause that a provider asks for in whole seconds is kept, up to thirty.
pub proof fn law_asked_pauses_are_bounded(n: nat)
    requires
        n <= u64::MAX,
    ensures
        request::retry_after_spec(numbers::decimal_spec(n)) == Some(
            if n < 30 {
                n
            } else {
                30
            },
        ),
{
    let digits = numbers::decimal_spec(n);
    numbers::lemma_decimal_reads_back(n);
    assert('0' <= digits[0] <= '9');
    assert('0' <= digits[digits.len() - 1] <= '9');
    crate::text_laws::lemma_trim_padded(seq![], digits, seq![]);
    assert(seq![] + digits + seq![] =~= digits);
    crate::splitting_laws::law_digits_stand_for_numbers(n, 0, u64::MAX as nat, seq![], '!');
}

/// A base address has no slash at its end, however many were given.
pub proof fn law_base_addresses_have_no_slash_at_the_end(url: Seq<char>)
    ensures
        request::base_spec(url.push('/')) == request::base_spec(url),
        !(url.len() > 0 && url.last() == '/') ==> request::base_spec(url) == url,
{
    assert(url.push('/').drop_last() =~= url);
}

/// The messages of a conversation become turns in order: the user's text a
/// turn of the user, the model's reasoning, text and calls one turn of the
/// model, and system messages none.
pub proof fn law_turns_follow_the_conversation(
    messages: Seq<model::MessageView>,
    content: Seq<char>,
    saved: Seq<json::JsonView>,
    calls: Seq<model::CallView>,
    id: Seq<char>,
)
    requires
        content.len() > 0,
    ensures
        anthropic::turns_spec(seq![]) == Seq::<anthropic::TurnView>::empty(),
        anthropic::turns_spec(messages.push(model::MessageView::System { content }))
            == anthropic::turns_spec(messages),
        anthropic::turns_spec(messages.push(model::MessageView::User { content }))
            == anthropic::turns_spec(messages).push(
            anthropic::TurnView { user: true, content: json::JsonView::Text(content) },
        ),
        ({
            let before = anthropic::turns_spec(messages);
            let after = anthropic::turns_spec(
                messages.push(
                    model::MessageView::Assistant {
                        content: Some(content),
                        tool_calls: Some(calls),
                        reasoning: Some(json::JsonView::Array(saved)),
                    },
                ),
            );
            &&& after.len() == before.len() + 1
            &&& after.take(before.len() as int) == before
            &&& !after.last().user
            &&& after.last().content matches json::JsonView::Array(blocks) && blocks.len()
                == saved.len() + 1 + calls.len() && blocks.take(saved.len() as int) == saved
                && anthropic_laws::says(blocks[saved.len() as int], "type"@, "text"@)
                && anthropic_laws::says(blocks[saved.len() as int], "text"@, content) && (forall|
                k: int,
            |
                0 <= k < calls.len() ==> {
                    let b = #[trigger] blocks[saved.len() + 1 + k];
                    &&& anthropic_laws::says(b, "type"@, "tool_use"@)
                    &&& anthropic_laws::says(b, "id"@, calls[k].id)
                    &&& anthropic_laws::says(b, "name"@, calls[k].name)
                    &&& calls[k].arguments is Object ==> b.field("input"@) == Some(
                        calls[k].arguments,
                    )
                })
        }),
        ({
            let before = anthropic::turns_spec(messages);
            let after = anthropic::turns_spec(
                messages.push(model::MessageView::Tool { content, tool_call_id: id }),
            );
            &&& after.len() > 0 && after.last().user
            &&& after.last().content matches json::JsonView::Array(blocks) && blocks.len() > 0
                && anthropic_laws::says(blocks.last(), "type"@, "tool_result"@)
                && anthropic_laws::says(blocks.last(), "tool_use_id"@, id)
                && anthropic_laws::says(blocks.last(), "content"@, content)
            &&& before.len() > 0 && before.last().user && before.last().content is Array
                ==> after.len() == before.len() && after.drop_last() == before.drop_last()
                && after.last().content->Array_0.drop_last() == before.last().content->Array_0
            &&& !(before.len() > 0 && before.last().user && before.last().content is Array)
                ==> after.drop_last() == before && after.last().content->Array_0.len() == 1
        }),
{
    lemma_block_fields(content, id);
    let sys = model::MessageView::System { content };
    let usr = model::MessageView::User { content };
    let own = model::MessageView::Assistant {
        content: Some(content),
        tool_calls: Some(calls),
        reasoning: Some(json::JsonView::Array(saved)),
    };
    let res = model::MessageView::Tool { content, tool_call_id: id };
    assert(messages.push(sys).drop_last() =~= messages);
    assert(messages.push(usr).drop_last() =~= messages);
    assert(messages.push(own).drop_last() =~= messages);
    assert(messages.push(res).drop_last() =~= messages);
    let before = anthropic::turns_spec(messages);
    let after = anthropic::turns_spec(messages.push(own));
    assert(after.take(before.len() as int) =~= before);
    let blocks = after.last().content->Array_0;
    assert(blocks =~= saved + seq![anthropic::text_block(content)] + anthropic::call_blocks(
        Some(calls),
    ));
    assert(blocks.take(saved.len() as int) =~= saved);
    assert(blocks[saved.len() as int] == anthropic::text_block(content));
    assert forall|k: int| 0 <= k < calls.len() implies {
        let b = #[trigger] blocks[saved.len() + 1 + k];
        &&& anthropic_laws::says(b, "type"@, "tool_use"@)
        &&& anthropic_laws::says(b, "id"@, calls[k].id)
        &&& anthropic_laws::says(b, "name"@, calls[k].name)
        &&& calls[k].arguments is Object ==> b.field("input"@) == Some(calls[k].arguments)
    } by {
        assert(blocks[saved.len() + 1 + k] == anthropic::call_block(calls[k]));
        lemma_call_block(calls[k]);
    }
    let block = anthropic::result_block(content, id);
    let after_result = anthropic::turns_spec(messages.push(res));
    if before.len() > 0 && before.last().user && before.last().content is Array {
        assert(after_result.drop_last() =~= before.drop_last());
        assert(after_result.last().content->Array_0.drop_last()
            =~= before.last().content->Array_0);
    } else {
        assert(after_result.drop_last() =~= before);
    }
}

proof fn lemma_call_block(c: model::CallView)
    ensures
        ({
            let b = anthropic::call_block(c);
            &&& anthropic_laws::says(b, "type"@, "tool_use"@)
            &&& anthropic_laws::says(b, "id"@, c.id)
            &&& anthropic_laws::says(b, "name"@, c.name)
            &&& c.arguments is Object ==> b.field("input"@) == Some(c.arguments)
        }),
{
    reveal_strlit("type");
    reveal_strlit("id");
    reveal_strlit("name");
    reveal_strlit("input");
    assert("type"@[0] == 't');
    assert("type"@.len() == 4);
    assert("id"@.len() == 2);
    assert("name"@[0] == 'n');
    assert("name"@.len() == 4);
    assert("input"@.len() == 5);
    reveal_with_fuel(json::JsonView::field_from, 5);
}

proof fn lemma_block_fields(content: Seq<char>, id: Seq<char>)
    ensures
        anthropic_laws::says(anthropic::text_block(content), "type"@, "text"@),
        anthropic_laws::says(anthropic::text_block(content), "text"@, content),
        anthropic_laws::says(anthropic::result_block(content, id), "type"@, "tool_result"@),
        anthropic_laws::says(anthropic::result_block(content, id), "tool_use_id"@, id),
        anthropic_laws::says(anthropic::result_block(content, id), "content"@, content),
{
    reveal_strlit("type");
    reveal_strlit("text");
    reveal_strlit("tool_use_id");
    reveal_strlit("content");
    assert("type"@[1] == 'y');
    assert("text"@[1] == 'e');
    assert("type"@.len() == 4);
    assert("tool_use_id"@.len() == 11);
    assert("content"@.len() == 7);
    reveal_with_fuel(json::JsonView::field_from, 5);
}

/// A request to this provider names the model and how much it may say, which
/// is 64000 tokens where nothing else was asked; holds the system messages in
/// a field of their own, the turns, each tool, and the wishes that were given.
pub proof fn law_block_requests_hold_what_was_asked(r: request::RequestView)
    ensures
        ({
            let sent = anthropic::request_wire(r);
            &&& anthropic_laws::says(sent, "model"@, r.model)
            &&& anthropic_laws::counts(
                sent,
                "max_tokens"@,
                match r.max_tokens {
                    Some(n) => n as u64,
                    None => 64_000,
                },
            )
            &&& anthropic::system_parts(r.messages).len() == 0 ==> sent.field("system"@) is None
            &&& anthropic::system_parts(r.messages).len() > 0 ==> anthropic_laws::says(
                sent,
                "system"@,
                text::join_spec(anthropic::system_parts(r.messages), seq!['\n', '\n']),
            )
            &&& sent.field("messages"@) matches Some(json::JsonView::Array(turns)) && turns.len()
                == anthropic::turns_spec(r.messages).len() && (forall|i: int|
                0 <= i < turns.len() ==> {
                    let turn = anthropic::turns_spec(r.messages)[i];
                    &&& (#[trigger] turns[i]).field("content"@) == Some(turn.content)
                    &&& anthropic_laws::says(
                        turns[i],
                        "role"@,
                        if turn.user {
                            "user"@
                        } else {
                            "assistant"@
                        },
                    )
                })
            &&& r.tools.len() == 0 ==> sent.field("tools"@) is None
            &&& r.tools.len() > 0 ==> (sent.field("tools"@) matches Some(
                json::JsonView::Array(tools),
            ) && tools.len() == r.tools.len() && (forall|i: int|
                0 <= i < r.tools.len() ==> anthropic_laws::says(
                    #[trigger] tools[i],
                    "name"@,
                    r.tools[i].name,
                ) && anthropic_laws::says(tools[i], "description"@, r.tools[i].description)
                    && tools[i].field("input_schema"@) == Some(r.tools[i].parameters)))
            &&& sent.field("temperature"@) == match r.temperature {
                Some(s) => Some(json::JsonView::Number(json::NumberView::Decimal(s))),
                None => None,
            }
            &&& sent.field("top_p"@) == match r.top_p {
                Some(s) => Some(json::JsonView::Number(json::NumberView::Decimal(s))),
                None => None,
            }
            &&& sent.field("tool_choice"@) is Some <==> r.tool_choice is Some
            &&& sent.field("output_config"@) is Some <==> r.output_schema is Some
            &&& sent.field("stream"@) == if r.stream {
                Some(json::JsonView::Bool(true))
            } else {
                None
            }
        }),
{
    lemma_request_names();
    reveal_strlit("\n\n");
    assert("\n\n"@ =~= seq!['\n', '\n']);
    let limit = json::JsonView::Number(
        json::NumberView::Unsigned(anthropic::limit_spec(r.max_tokens)),
    );
    let head = seq![("model"@, json::JsonView::Text(r.model)), ("max_tokens"@, limit)];
    let a = schema::optional_field("system"@, anthropic::system_wire(r.messages));
    let turns = anthropic::turns_wire(anthropic::turns_spec(r.messages));
    let b = seq![("messages"@, turns)];
    let c = schema::optional_field("tools"@, anthropic::tools_wire(r.tools));
    let d = schema::optional_field("temperature"@, request::decimal_value(r.temperature));
    let e = schema::optional_field("top_p"@, request::decimal_value(r.top_p));
    let choice = match r.tool_choice {
        Some(c) => Some(anthropic::choice_wire(c)),
        None => None,
    };
    let f = schema::optional_field("tool_choice"@, choice);
    let format = match r.output_schema {
        Some(s) => Some(anthropic::format_wire(s)),
        None => None,
    };
    let g = schema::optional_field("output_config"@, format);
    let flag = if r.stream {
        Some(json::JsonView::Bool(true))
    } else {
        None
    };
    let h = schema::optional_field("stream"@, flag);
    assert(anthropic::request_wire(r) == json::JsonView::Object(
        head + a + b + c + d + e + f + g + h,
    ));
    assert(b =~= schema::optional_field("messages"@, Some(turns)));
    assert forall|key: Seq<char>|
        #![trigger json::JsonView::Object(head + a + b + c + d + e + f + g + h).field(key)]
        json::JsonView::Object(head + a + b + c + d + e + f + g + h).field(key) == match (
        json::JsonView::Object(head).field(key)) {
            Some(v) => Some(v),
            None => if key == "system"@ {
                anthropic::system_wire(r.messages)
            } else if key == "messages"@ {
                Some(turns)
            } else if key == "tools"@ {
                anthropic::tools_wire(r.tools)
            } else if key == "temperature"@ {
                request::decimal_value(r.temperature)
            } else if key == "top_p"@ {
                request::decimal_value(r.top_p)
            } else if key == "tool_choice"@ {
                choice
            } else if key == "output_config"@ {
                format
            } else if key == "stream"@ {
                flag
            } else {
                None
            },
        } by {
        lemma_field_of_both(head + a + b + c + d + e + f + g, h, key);
        lemma_field_of_both(head + a + b + c + d + e + f, g, key);
        lemma_field_of_both(head + a + b + c + d + e, f, key);
        lemma_field_of_both(head + a + b + c + d, e, key);
        lemma_field_of_both(head + a + b + c, d, key);
        lemma_field_of_both(head + a + b, c, key);
        lemma_field_of_both(head + a, b, key);
        lemma_field_of_both(head, a, key);
        lemma_optional("system"@, anthropic::system_wire(r.messages), key);
        lemma_optional("messages"@, Some(turns), key);
        lemma_optional("tools"@, anthropic::tools_wire(r.tools), key);
        lemma_optional("temperature"@, request::decimal_value(r.temperature), key);
        lemma_optional("top_p"@, request::decimal_value(r.top_p), key);
        lemma_optional("tool_choice"@, choice, key);
        lemma_optional("output_config"@, format, key);
        lemma_optional("stream"@, flag, key);
    }
    assert forall|key: Seq<char>| #[trigger]
        json::JsonView::Object(head).field(key) == if key == "model"@ {
            Some(json::JsonView::Text(r.model))
        } else if key == "max_tokens"@ {
            Some(limit)
        } else {
            None
        } by {
        lemma_field_from(head, key, 0);
        assert(head[0].0 == "model"@);
        assert(head[1].0 == "max_tokens"@);
    }
    assert forall|t: anthropic::TurnView| (#[trigger] anthropic::turn_wire(t)).field("content"@)
        == Some(t.content) && anthropic_laws::says(
        anthropic::turn_wire(t),
        "role"@,
        if t.user {
            "user"@
        } else {
            "assistant"@
        },
    ) by {
        lemma_turn_fields(t);
    }
    assert forall|t: model::DefinitionView|
        anthropic_laws::says(#[trigger] anthropic::tool_wire(t), "name"@, t.name)
            && anthropic_laws::says(anthropic::tool_wire(t), "description"@, t.description)
            && anthropic::tool_wire(t).field("input_schema"@) == Some(t.parameters) by {
        lemma_own_tool_fields(t);
    }
}

proof fn lemma_turn_fields(t: anthropic::TurnView)
    ensures
        anthropic::turn_wire(t).field("content"@) == Some(t.content),
        anthropic_laws::says(
            anthropic::turn_wire(t),
            "role"@,
            if t.user {
                "user"@
            } else {
                "assistant"@
            },
        ),
{
    reveal_strlit("role");
    reveal_strlit("content");
    assert("role"@.len() == 4);
    assert("content"@.len() == 7);
    reveal_with_fuel(json::JsonView::field_from, 4);
}

proof fn lemma_own_tool_fields(t: model::DefinitionView)
    ensures
        anthropic_laws::says(anthropic::tool_wire(t), "name"@, t.name),
        anthropic_laws::says(anthropic::tool_wire(t), "description"@, t.description),
        anthropic::tool_wire(t).field("input_schema"@) == Some(t.parameters),
{
    reveal_strlit("name");
    reveal_strlit("description");
    reveal_strlit("input_schema");
    assert("name"@.len() == 4);
    assert("description"@.len() == 11);
    assert("input_schema"@.len() == 12);
    reveal_with_fuel(json::JsonView::field_from, 4);
}

/// The system messages are gathered in order, and no other message with them.
pub proof fn law_system_messages_are_gathered(
    messages: Seq<model::MessageView>,
    m: model::MessageView,
)
    ensures
        anthropic::system_parts(seq![]) == Seq::<Seq<char>>::empty(),
        anthropic::system_parts(messages.push(m)) == match m {
            model::MessageView::System { content } => anthropic::system_parts(messages).push(
                content,
            ),
            _ => anthropic::system_parts(messages),
        },
{
    assert(messages.push(m).drop_last() =~= messages);
}

proof fn lemma_line_feed(buf: Seq<u8>, from: int, at: int)
    requires
        0 <= from <= at < buf.len(),
        buf[at] == 10,
        forall|i: int| from <= i < at ==> #[trigger] buf[i] != 10 && buf[i] != 13,
    ensures
        sse::line_end(buf, from, false) == Some((at, at + 1)),
    decreases at - from,
{
    if from < at {
        assert(buf[from] != 10 && buf[from] != 13);
        lemma_line_feed(buf, from + 1, at);
    }
}

/// The bytes of `data: `.
pub open spec fn data_head() -> Seq<u8> {
    seq![100u8, 97u8, 116u8, 97u8, 58u8, 32u8]
}

/// A line with data adds its text to the event, on a line of its own where
/// the event has one already; an empty line ends the event; a line with
/// another field, or a remark, says nothing.
pub proof fn law_data_lines_make_up_an_event(st: sse::LineState, payload: Seq<u8>, other: Seq<u8>)
    requires
        st.first_line,
        other.len() > 0,
        other[0] != 100,
    ensures
        sse::line_state(st, data_head() + payload) == (sse::LineState {
            data: if st.has_data {
                st.data + seq![10u8] + payload
            } else {
                st.data + payload
            },
            has_data: true,
            first_line: true,
        }),
        sse::line_event(st, data_head() + payload) is None,
        sse::line_state(st, other) == st,
        sse::line_event(st, other) is None,
        st.has_data ==> sse::line_event(st, seq![]) == Some(sse::payload_event(st.data)),
        !st.has_data ==> sse::line_event(st, seq![]) is None && sse::line_state(st, seq![]) == st,
        st.has_data && sse::payload_event(st.data) is Ok ==> !sse::line_state(
            st,
            seq![],
        ).has_data && sse::line_state(st, seq![]).data.len() == 0,
{
    let line = data_head() + payload;
    reveal_with_fuel(sse::colon_from, 6);
    assert(line[0] == 100 && line[1] == 97 && line[2] == 116 && line[3] == 97 && line[4] == 58
        && line[5] == 32);
    assert(sse::colon_from(line, 0) == 4);
    assert(line.skip(5)[0] == 32);
    assert(sse::data_value(line) =~= payload);
    assert(st.data.push(10) + payload =~= st.data + seq![10u8] + payload);
    assert(sse::is_data(other) == false);
}

/// An event that arrives whole is handed out at once with its text, and the
/// word that ends a stream as its end.
pub proof fn law_whole_events_are_handed_out(d: sse::DecoderView, payload: Seq<u8>)
    requires
        d.buffer.len() == 0,
        d.lines.first_line,
        !d.lines.has_data,
        d.lines.data.len() == 0,
        vstd::utf8::valid_utf8(payload),
        forall|i: int| 0 <= i < payload.len() ==> #[trigger] payload[i] != 10 && payload[i] != 13,
    ensures
        ({
            let r = sse::push_spec(d, data_head() + payload + seq![10u8, 10u8]);
            let s = vstd::utf8::decode_utf8(payload);
            &&& r.0 == d
            &&& r.1 matches Ok(events) && events.len() == 1 && events[0] == if s == "[DONE]"@ {
                sse::SseView::Done
            } else {
                sse::SseView::Data(s)
            }
        }),
{
    let line = data_head() + payload;
    let buf = d.buffer + (line + seq![10u8, 10u8]);
    let n = line.len() as int;
    assert(buf =~= line + seq![10u8, 10u8]);
    assert forall|i: int| 0 <= i < n implies #[trigger] buf[i] != 10 && buf[i] != 13 by {
        if i >= 6 {
            assert(buf[i] == payload[i - 6]);
        }
    }
    lemma_line_feed(buf, 0, n);
    assert(buf.take(n) =~= line);
    let rest = buf.skip(n + 1);
    assert(rest =~= seq![10u8]);
    law_data_lines_make_up_an_event(d.lines, payload, seq![58u8]);
    let after = sse::line_state(d.lines, line);
    assert(d.lines.data + payload =~= payload);
    lemma_line_feed(rest, 0, 0);
    assert(rest.take(0) =~= seq![]);
    assert(rest.skip(1) =~= seq![]);
    law_data_lines_make_up_an_event(after, seq![], seq![58u8]);
    let last = sse::line_state(after, seq![]);
    assert(sse::line_end(rest.skip(1), 0, false) is None);
    assert(last.data =~= d.lines.data);
    assert(last == d.lines);
    let end = sse::run_lines(rest.skip(1), last, false);
    assert(end.events =~= seq![]);
    assert(end.rest =~= d.buffer);
    let mid = sse::run_lines(rest, after, false);
    assert(sse::payload_event(payload) is Ok);
    assert(mid.events =~= seq![sse::payload_event(payload)->Ok_0]);
    assert(sse::run_lines(buf, d.lines, false) == mid);
}

} // verus!

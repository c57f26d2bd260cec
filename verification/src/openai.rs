//! The chat-completions form of requests and replies.

use vstd::prelude::*;
use vstd::string::*;

use crate::json;
use crate::json::Json;
use crate::model;
use crate::model::{AdapterError, FunctionCall, Message, ModelResponse, ToolCall, ToolDefinition};
use crate::model::Usage;
use crate::request;
use crate::request::{ModelRequest, ToolChoice};
use crate::schema;
use crate::sse::SseEvent;
use crate::stream;
use crate::stream::{PartialReply, PartialToolCall, StreamChoice};
use crate::text;

verus! {

// ---------------------------------------------------------------------------
// Arguments
// ---------------------------------------------------------------------------

/// The text that carries a call's arguments.
pub open spec fn encoded(arguments: json::JsonView) -> Seq<char> {
    match arguments {
        json::JsonView::Null => "{}"@,
        json::JsonView::Text(raw) => raw,
        _ => json::printed(arguments),
    }
}

/// The text that carries a call's arguments. Text that was no JSON when it
/// came is sent back as it stands.
pub fn encode_arguments(arguments: &Json) -> (r: String)
    ensures
        r@ == encoded(arguments@),
{
    match arguments {
        Json::Null => "{}".to_owned(),
        Json::Text(raw) => raw.clone(),
        _ => json::print(arguments),
    }
}

/// The arguments that a text carries.
pub open spec fn decoded(raw: Seq<char>) -> json::JsonView {
    if text::trim_spec(raw).len() == 0 {
        json::JsonView::Null
    } else {
        match json::parsed(raw) {
            Ok(v) => v,
            Err(_) => json::JsonView::Text(raw),
        }
    }
}

/// The arguments that a text carries: none where it is blank, and the text
/// itself where it is no JSON, so that the model can be told. Plain arguments
/// come back as they were encoded.
pub fn decode_arguments(raw: &str) -> (r: Json)
    ensures
        r@ == decoded(raw@),
        forall|v: json::JsonView|
            json::plain(v, json::PLAIN_DEPTH as nat) && v is Object && raw@ == #[trigger] encoded(v)
                ==> r@ == v,
{
    let result = json::parse(raw);
    let trimmed = text::trim(raw);
    let r = match result {
        Ok(v) => v,
        Err(_) => if trimmed.as_str().is_empty() {
            Json::Null
        } else {
            Json::Text(raw.to_owned())
        },
    };
    proof {
        assert forall|v: json::JsonView|
            json::plain(v, json::PLAIN_DEPTH as nat) && v is Object && raw@ == #[trigger] encoded(
                v,
            ) implies r@ == v by {
            assert(encoded(v) == json::printed(v));
        }
    }
    r
}

// ---------------------------------------------------------------------------
// Requests
// ---------------------------------------------------------------------------

/// A tool call in its wire form.
pub open spec fn call_wire(c: model::CallView) -> json::JsonView {
    json::JsonView::Object(
        seq![
            ("id"@, json::JsonView::Text(c.id)),
            ("type"@, json::JsonView::Text("function"@)),
            (
                "function"@,
                json::JsonView::Object(
                    seq![
                        ("name"@, json::JsonView::Text(c.name)),
                        ("arguments"@, json::JsonView::Text(encoded(c.arguments))),
                    ],
                ),
            ),
        ],
    )
}

/// Tool calls in their wire form.
pub open spec fn calls_wire(calls: Seq<model::CallView>) -> json::JsonView {
    json::JsonView::Array(Seq::new(calls.len(), |i: int| call_wire(calls[i])))
}

/// The fields that every assistant message has.
pub open spec fn assistant_head(content: Option<Seq<char>>) -> Seq<(Seq<char>, json::JsonView)> {
    seq![
        ("role"@, json::JsonView::Text("assistant"@)),
        (
            "content"@,
            match content {
                Some(s) => json::JsonView::Text(s),
                None => json::JsonView::Null,
            },
        ),
    ]
}

/// A message in its wire form. Reasoning is not replayed.
pub open spec fn message_wire(m: model::MessageView) -> json::JsonView {
    match m {
        model::MessageView::System { content } => json::JsonView::Object(
            seq![
                ("role"@, json::JsonView::Text("system"@)),
                ("content"@, json::JsonView::Text(content)),
            ],
        ),
        model::MessageView::User { content } => json::JsonView::Object(
            seq![
                ("role"@, json::JsonView::Text("user"@)),
                ("content"@, json::JsonView::Text(content)),
            ],
        ),
        model::MessageView::Assistant { content, tool_calls, .. } => json::JsonView::Object(
            assistant_head(content) + schema::optional_field(
                "tool_calls"@,
                match tool_calls {
                    Some(calls) => Some(calls_wire(calls)),
                    None => None,
                },
            ),
        ),
        model::MessageView::Tool { content, tool_call_id } => json::JsonView::Object(
            seq![
                ("role"@, json::JsonView::Text("tool"@)),
                ("content"@, json::JsonView::Text(content)),
                ("tool_call_id"@, json::JsonView::Text(tool_call_id)),
            ],
        ),
    }
}

/// A tool in its wire form.
pub open spec fn tool_wire(t: model::DefinitionView) -> json::JsonView {
    json::JsonView::Object(
        seq![
            ("type"@, json::JsonView::Text("function"@)),
            (
                "function"@,
                json::JsonView::Object(
                    seq![
                        ("name"@, json::JsonView::Text(t.name)),
                        ("description"@, json::JsonView::Text(t.description)),
                        ("parameters"@, t.parameters),
                    ],
                ),
            ),
        ],
    )
}

/// A tool choice in its wire form.
pub open spec fn choice_wire(c: request::ChoiceView) -> json::JsonView {
    match c {
        request::ChoiceView::Any => json::JsonView::Text("required"@),
        request::ChoiceView::Tool(name) => json::JsonView::Object(
            seq![
                ("type"@, json::JsonView::Text("function"@)),
                (
                    "function"@,
                    json::JsonView::Object(seq![("name"@, json::JsonView::Text(name))]),
                ),
            ],
        ),
    }
}

/// A demand on the form of the reply, in its wire form.
pub open spec fn format_wire(schema_json: json::JsonView) -> json::JsonView {
    json::JsonView::Object(
        seq![
            ("type"@, json::JsonView::Text("json_schema"@)),
            (
                "json_schema"@,
                json::JsonView::Object(
                    seq![
                        ("name"@, json::JsonView::Text("response"@)),
                        ("schema"@, schema_json),
                        ("strict"@, json::JsonView::Bool(true)),
                    ],
                ),
            ),
        ],
    )
}

/// The messages in their wire form.
pub open spec fn messages_wire(messages: Seq<model::MessageView>) -> json::JsonView {
    json::JsonView::Array(Seq::new(messages.len(), |i: int| message_wire(messages[i])))
}

/// The tools in their wire form; an empty list is left out, for some servers
/// reject it.
pub open spec fn tools_wire(tools: Seq<model::DefinitionView>) -> Option<json::JsonView> {
    if tools.len() == 0 {
        None
    } else {
        Some(json::JsonView::Array(Seq::new(tools.len(), |i: int| tool_wire(tools[i]))))
    }
}

/// A request in its wire form.
pub open spec fn request_wire(r: request::RequestView) -> json::JsonView {
    json::JsonView::Object(
        seq![
            ("model"@, json::JsonView::Text(r.model)),
            ("messages"@, messages_wire(r.messages)),
        ] + schema::optional_field("temperature"@, request::decimal_value(r.temperature))
            + schema::optional_field("top_p"@, request::decimal_value(r.top_p))
            + schema::optional_field(
            "max_tokens"@,
            match r.max_tokens {
                Some(n) => Some(
                    json::JsonView::Number(json::NumberView::Unsigned(n as u64)),
                ),
                None => None,
            },
        ) + schema::optional_field("tools"@, tools_wire(r.tools)) + schema::optional_field(
            "tool_choice"@,
            match r.tool_choice {
                Some(c) => Some(choice_wire(c)),
                None => None,
            },
        ) + schema::optional_field(
            "response_format"@,
            match r.output_schema {
                Some(s) => Some(format_wire(s)),
                None => None,
            },
        ) + schema::optional_field(
            "stream"@,
            if r.stream {
                Some(json::JsonView::Bool(true))
            } else {
                None
            },
        ) + schema::optional_field(
            "stream_options"@,
            if r.stream {
                Some(
                    json::JsonView::Object(seq![("include_usage"@, json::JsonView::Bool(true))]),
                )
            } else {
                None
            },
        ),
    )
}

fn call_json(call: &ToolCall) -> (r: Json)
    ensures
        r@ == call_wire(call@),
{
    let function = schema::pair(
        "name",
        schema::text_value(call.function.name.as_str()),
        "arguments",
        schema::text_value(encode_arguments(&call.function.arguments).as_str()),
    );
    schema::triple(
        "id",
        schema::text_value(call.id.as_str()),
        "type",
        schema::text_value("function"),
        "function",
        function,
    )
}

fn calls_json(calls: &Vec<ToolCall>) -> (r: Json)
    ensures
        r@ == calls_wire(model::calls_view(calls@)),
{
    let ghost views = model::calls_view(calls@);
    let mut items: Vec<Json> = Vec::new();
    let mut i: usize = 0;
    while i < calls.len()
        invariant
            i <= calls@.len(),
            views == model::calls_view(calls@),
            items@.len() == i,
            forall|k: int| 0 <= k < i ==> (#[trigger] items@[k])@ == call_wire(views[k]),
        decreases calls@.len() - i,
    {
        items.push(call_json(&calls[i]));
        i = i + 1;
    }
    assert(schema::items_view(items@) =~= Seq::new(views.len(), |i: int| call_wire(views[i])));
    schema::array(items)
}

fn message_json(message: &Message) -> (r: Json)
    ensures
        r@ == message_wire(message@),
{
    match message {
        Message::System { content } => schema::pair(
            "role",
            schema::text_value("system"),
            "content",
            schema::text_value(content.as_str()),
        ),
        Message::User { content } => schema::pair(
            "role",
            schema::text_value("user"),
            "content",
            schema::text_value(content.as_str()),
        ),
        Message::Assistant { content, tool_calls, .. } => {
            let shown: Option<&str> = match content {
                Some(s) => Some(s.as_str()),
                None => None,
            };
            let mut fields: Vec<(String, Json)> = Vec::new();
            schema::add_field(&mut fields, "role", schema::text_value("assistant"));
            schema::add_field(&mut fields, "content", schema::optional_text(shown));
            assert(schema::fields_view(fields@) =~= assistant_head(model::option_text(*content)));
            let calls: Option<Json> = match tool_calls {
                Some(calls) => Some(calls_json(calls)),
                None => None,
            };
            schema::add_optional(&mut fields, "tool_calls", calls);
            schema::object(fields)
        },
        Message::Tool { content, tool_call_id } => schema::triple(
            "role",
            schema::text_value("tool"),
            "content",
            schema::text_value(content.as_str()),
            "tool_call_id",
            schema::text_value(tool_call_id.as_str()),
        ),
    }
}

fn messages_json(messages: &Vec<Message>) -> (r: Json)
    ensures
        r@ == messages_wire(model::messages_view(messages@)),
{
    let ghost views = model::messages_view(messages@);
    let mut items: Vec<Json> = Vec::new();
    let mut i: usize = 0;
    while i < messages.len()
        invariant
            i <= messages@.len(),
            views == model::messages_view(messages@),
            items@.len() == i,
            forall|k: int| 0 <= k < i ==> (#[trigger] items@[k])@ == message_wire(views[k]),
        decreases messages@.len() - i,
    {
        items.push(message_json(&messages[i]));
        i = i + 1;
    }
    assert(schema::items_view(items@) =~= Seq::new(
        views.len(),
        |i: int| message_wire(views[i]),
    ));
    schema::array(items)
}

fn tool_json(tool: &ToolDefinition) -> (r: Json)
    ensures
        r@ == tool_wire(tool@),
{
    let function = schema::triple(
        "name",
        schema::text_value(tool.name.as_str()),
        "description",
        schema::text_value(tool.description.as_str()),
        "parameters",
        tool.parameters.clone(),
    );
    schema::pair("type", schema::text_value("function"), "function", function)
}

fn tools_json(tools: &Vec<ToolDefinition>) -> (r: Option<Json>)
    ensures
        model::option_json(r) == tools_wire(Seq::new(tools@.len(), |i: int| tools@[i]@)),
{
    if tools.len() == 0 {
        return None;
    }
    let ghost views = Seq::new(tools@.len(), |i: int| tools@[i]@);
    let mut items: Vec<Json> = Vec::new();
    let mut i: usize = 0;
    while i < tools.len()
        invariant
            i <= tools@.len(),
            views == Seq::new(tools@.len(), |i: int| tools@[i]@),
            items@.len() == i,
            forall|k: int| 0 <= k < i ==> (#[trigger] items@[k])@ == tool_wire(views[k]),
        decreases tools@.len() - i,
    {
        items.push(tool_json(&tools[i]));
        i = i + 1;
    }
    assert(schema::items_view(items@) =~= Seq::new(views.len(), |i: int| tool_wire(views[i])));
    Some(schema::array(items))
}

fn choice_json(choice: &ToolChoice) -> (r: Json)
    ensures
        r@ == choice_wire(choice@),
{
    match choice {
        ToolChoice::Any => schema::text_value("required"),
        ToolChoice::Tool(name) => schema::pair(
            "type",
            schema::text_value("function"),
            "function",
            schema::single("name", schema::text_value(name.as_str())),
        ),
    }
}

fn format_json(wanted: &Json) -> (r: Json)
    ensures
        r@ == format_wire(wanted@),
{
    let inner = schema::triple(
        "name",
        schema::text_value("response"),
        "schema",
        wanted.clone(),
        "strict",
        schema::flag(true),
    );
    schema::pair("type", schema::text_value("json_schema"), "json_schema", inner)
}

/// A request in its wire form.
pub fn chat_request(request: &ModelRequest) -> (r: Json)
    ensures
        r@ == request_wire(request@),
{
    let mut fields: Vec<(String, Json)> = Vec::new();
    schema::add_field(&mut fields, "model", schema::text_value(request.model));
    schema::add_field(&mut fields, "messages", messages_json(request.messages));
    let ghost head = seq![
        ("model"@, json::JsonView::Text(request.model@)),
        ("messages"@, messages_wire(model::messages_view(request.messages@))),
    ];
    assert(schema::fields_view(fields@) =~= head);
    schema::add_optional(
        &mut fields,
        "temperature",
        request::decimal_json(&request.sampling.temperature),
    );
    schema::add_optional(&mut fields, "top_p", request::decimal_json(&request.sampling.top_p));
    let limit: Option<Json> = match request.sampling.max_tokens {
        Some(n) => Some(schema::count(n as u64)),
        None => None,
    };
    schema::add_optional(&mut fields, "max_tokens", limit);
    schema::add_optional(&mut fields, "tools", tools_json(request.tools));
    let choice: Option<Json> = match &request.constraints.tool_choice {
        Some(c) => Some(choice_json(c)),
        None => None,
    };
    schema::add_optional(&mut fields, "tool_choice", choice);
    let wanted: Option<Json> = match &request.constraints.output_schema {
        Some(s) => Some(format_json(s)),
        None => None,
    };
    schema::add_optional(&mut fields, "response_format", wanted);
    let streamed: Option<Json> = if request.stream {
        Some(schema::flag(true))
    } else {
        None
    };
    schema::add_optional(&mut fields, "stream", streamed);
    let options: Option<Json> = if request.stream {
        Some(schema::single("include_usage", schema::flag(true)))
    } else {
        None
    };
    schema::add_optional(&mut fields, "stream_options", options);
    schema::object(fields)
}

// ---------------------------------------------------------------------------
// Replies
// ---------------------------------------------------------------------------

/// Whether a generation ended by intent.
pub open spec fn deliberate(reason: Seq<char>) -> bool {
    reason == "stop"@ || reason == "tool_calls"@ || reason == "function_call"@
}

/// The reason for which a generation was cut short, if it was.
pub open spec fn truncation_spec(reason: Option<Seq<char>>) -> Option<Seq<char>> {
    match reason {
        Some(r) => if deliberate(r) {
            None
        } else {
            Some(r)
        },
        None => None,
    }
}

/// The reason for which a generation was cut short, if it was: a finish
/// reason other than the model's own stop.
pub fn truncation_reason(finish_reason: Option<String>) -> (r: Option<String>)
    ensures
        model::option_text(r) == truncation_spec(model::option_text(finish_reason)),
{
    match finish_reason {
        Some(reason) => {
            let s = reason.as_str();
            if text::same(s, "stop") || text::same(s, "tool_calls") || text::same(
                s,
                "function_call",
            ) {
                None
            } else {
                Some(reason)
            }
        },
        None => None,
    }
}

/// Token counts in their wire form.
pub struct UsageWire {
    pub prompt_tokens: u64,
    pub completion_tokens: u64,
    pub cached_tokens: Option<u64>,
    pub reasoning_tokens: Option<u64>,
}

/// A number, or zero.
pub open spec fn or_zero(n: Option<u64>) -> u64 {
    match n {
        Some(n) => n,
        None => 0,
    }
}

/// The counts that were reported, if any were.
pub open spec fn usage_value(usage: Option<UsageWire>) -> Option<Usage> {
    match usage {
        Some(u) => Some(
            Usage {
                prompt_tokens: u.prompt_tokens,
                completion_tokens: u.completion_tokens,
                cache_read_tokens: or_zero(u.cached_tokens),
                reasoning_tokens: or_zero(u.reasoning_tokens),
            },
        ),
        None => None,
    }
}

impl UsageWire {
    /// The counts; details that were not reported are zero.
    pub fn into_canonical(&self) -> (r: Usage)
        ensures
            r == (Usage {
                prompt_tokens: self.prompt_tokens,
                completion_tokens: self.completion_tokens,
                cache_read_tokens: or_zero(self.cached_tokens),
                reasoning_tokens: or_zero(self.reasoning_tokens),
            }),
    {
        Usage {
            prompt_tokens: self.prompt_tokens,
            completion_tokens: self.completion_tokens,
            cache_read_tokens: match self.cached_tokens {
                Some(n) => n,
                None => 0,
            },
            reasoning_tokens: match self.reasoning_tokens {
                Some(n) => n,
                None => 0,
            },
        }
    }
}

/// The call that a finished slot stands for.
pub open spec fn slot_call(slot: stream::SlotView) -> model::CallView {
    model::CallView { id: slot.id, name: slot.name, arguments: decoded(slot.arguments) }
}

/// The calls that finished slots stand for.
pub open spec fn slot_calls(slots: Seq<stream::SlotView>) -> Seq<model::CallView> {
    Seq::new(slots.len(), |i: int| slot_call(slots[i]))
}

fn calls_of(slots: &Vec<PartialToolCall>) -> (r: Vec<ToolCall>)
    ensures
        model::calls_view(r@) == slot_calls(stream::slots_view(slots@)),
{
    let ghost views = stream::slots_view(slots@);
    let mut out: Vec<ToolCall> = Vec::new();
    let mut i: usize = 0;
    while i < slots.len()
        invariant
            i <= slots@.len(),
            views == stream::slots_view(slots@),
            out@.len() == i,
            forall|k: int| 0 <= k < i ==> (#[trigger] out@[k])@ == slot_call(views[k]),
        decreases slots@.len() - i,
    {
        let slot = &slots[i];
        out.push(
            ToolCall {
                id: slot.id.clone(),
                function: FunctionCall {
                    name: slot.name.clone(),
                    arguments: decode_arguments(slot.arguments.as_str()),
                },
            },
        );
        i = i + 1;
    }
    assert(model::calls_view(out@) =~= slot_calls(views));
    out
}

/// A whole reply in its wire form; the arguments of its calls are text.
pub struct ResponseMessage {
    pub content: Option<String>,
    pub tool_calls: Vec<PartialToolCall>,
}

impl ResponseMessage {
    /// The reply.
    pub fn into_canonical(self, usage: Option<Usage>, finish_reason: Option<String>) -> (r:
        ModelResponse)
        ensures
            r.content == self.content,
            model::calls_view(r.tool_calls@) == slot_calls(stream::slots_view(self.tool_calls@)),
            r.reasoning is None,
            r.usage == usage,
            model::option_text(r.truncation) == truncation_spec(
                model::option_text(finish_reason),
            ),
    {
        let tool_calls = calls_of(&self.tool_calls);
        ModelResponse {
            content: self.content,
            tool_calls,
            reasoning: None,
            usage,
            truncation: truncation_reason(finish_reason),
        }
    }
}

// ---------------------------------------------------------------------------
// Errors inside a reply
// ---------------------------------------------------------------------------

/// A text, or an empty one.
pub open spec fn code_text(error: json::JsonView) -> Seq<char> {
    match error.field("code"@) {
        Some(json::JsonView::Text(s)) => s,
        Some(v) => json::printed(v),
        None => seq![],
    }
}

/// The message of an error, or all of it.
pub open spec fn message_text(error: json::JsonView) -> Seq<char> {
    match error.text_field("message"@) {
        Some(s) => s,
        None => json::printed(error),
    }
}

/// Words of an error that is worth another attempt.
pub open spec fn transient_markers() -> Seq<Seq<char>> {
    seq![
        "rate_limit"@,
        "rate limit"@,
        "overloaded"@,
        "server_error"@,
        "timeout"@,
        "temporar"@,
    ]
}

/// Codes of an error that is worth another attempt.
pub open spec fn transient_code(code: Seq<char>) -> bool {
    code == "408"@ || code == "429"@ || code == "500"@ || code == "502"@ || code == "503"@ || code
        == "504"@
}

/// Whether an error is worth another attempt.
pub open spec fn transient_error(error: json::JsonView) -> bool {
    transient_code(code_text(error)) || request::holds_marker(
        error.text_or_empty("type"@),
        transient_markers(),
    ) || request::holds_marker(code_text(error), transient_markers()) || request::holds_marker(
        message_text(error),
        transient_markers(),
    )
}

/// The words for an error.
pub open spec fn error_text(error: json::JsonView, url: Seq<char>) -> Seq<char> {
    let code = code_text(error);
    let kind = error.text_or_empty("type"@);
    "provider error from "@ + url + ": "@ + (if code.len() == 0 && kind.len() == 0 {
        message_text(error)
    } else {
        message_text(error) + " (code: "@ + code + ", type: "@ + kind + ")"@
    })
}

fn marker_list() -> (r: Vec<String>)
    ensures
        text::views(r@) == transient_markers(),
{
    let mut r: Vec<String> = Vec::new();
    r.push("rate_limit".to_owned());
    r.push("rate limit".to_owned());
    r.push("overloaded".to_owned());
    r.push("server_error".to_owned());
    r.push("timeout".to_owned());
    r.push("temporar".to_owned());
    assert(text::views(r@) =~= transient_markers());
    r
}

/// Classify an error that came inside a reply. Rate limits, overload and
/// failures of the server are worth another attempt, all else is not.
pub fn in_band_error(error: &Json, url: &str) -> (r: AdapterError)
    ensures
        r.source@ == error_text(error@, url@),
        r.retryable == transient_error(error@),
        r.retry_after_ms is None,
{
    let code = match error.get("code") {
        Some(v) => match v {
            Json::Text(s) => s.clone(),
            _ => json::print(v),
        },
        None => {
            let none = String::new();
            assert(none@ =~= seq![]);
            none
        },
    };
    assert(code@ == code_text(error@));
    let kind = error.text_or_empty("type");
    let message = match error.text_field("message") {
        Some(s) => s.to_owned(),
        None => json::print(error),
    };
    let markers = marker_list();
    let c = code.as_str();
    let by_code = text::same(c, "408") || text::same(c, "429") || text::same(c, "500")
        || text::same(c, "502") || text::same(c, "503") || text::same(c, "504");
    let retryable = by_code || request::has_marker(kind.as_str(), &markers) || request::has_marker(
        c,
        &markers,
    ) || request::has_marker(message.as_str(), &markers);
    let detail = if c.is_empty() && kind.as_str().is_empty() {
        message
    } else {
        let mut d = text::cat5(message.as_str(), " (code: ", c, ", type: ", kind.as_str());
        d.append(")");
        d
    };
    let source = text::cat4("provider error from ", url, ": ", detail.as_str());
    AdapterError::classified(source, retryable, None)
}

// ---------------------------------------------------------------------------
// Whole replies
// ---------------------------------------------------------------------------

/// One choice of a whole reply.
pub struct Choice {
    pub message: ResponseMessage,
    pub finish_reason: Option<String>,
}

/// A whole reply in its wire form.
pub struct ChatResponse {
    pub choices: Vec<Choice>,
    pub usage: Option<UsageWire>,
    /// Some gateways report failures with a status of success.
    pub error: Option<Json>,
}

/// The words for a reply without choices.
pub open spec fn no_choices_text(url: Seq<char>) -> Seq<char> {
    "provider returned no choices from "@ + url
}

impl ChatResponse {
    /// The reply of the first choice, or the failure that the reply reports.
    pub fn into_reply(self, url: &str) -> (r: Result<ModelResponse, AdapterError>)
        ensures
            match self.error {
                Some(error) => r matches Err(e) && e.source@ == error_text(error@, url@)
                    && e.retryable == transient_error(error@) && e.retry_after_ms is None,
                None => if self.choices@.len() == 0 {
                    r matches Err(e) && e.source@ == no_choices_text(url@) && !e.retryable
                        && e.retry_after_ms is None
                } else {
                    let choice = self.choices@[0];
                    r matches Ok(m) && m.content == choice.message.content && model::calls_view(
                        m.tool_calls@,
                    ) == slot_calls(stream::slots_view(choice.message.tool_calls@))
                        && m.reasoning is None && m.usage == usage_value(self.usage)
                        && model::option_text(m.truncation) == truncation_spec(
                        model::option_text(choice.finish_reason),
                    )
                },
            },
    {
        let ChatResponse { choices, usage, error } = self;
        match error {
            Some(error) => {
                return Err(in_band_error(&error, url));
            },
            None => {},
        }
        let mut choices = choices;
        if choices.len() == 0 {
            return Err(
                AdapterError::fatal(text::cat2("provider returned no choices from ", url)),
            );
        }
        let Choice { message, finish_reason } = choices.remove(0);
        let counted: Option<Usage> = match usage {
            Some(u) => Some(u.into_canonical()),
            None => None,
        };
        Ok(message.into_canonical(counted, finish_reason))
    }
}

// ---------------------------------------------------------------------------
// Streams
// ---------------------------------------------------------------------------

/// A chunk of a streamed reply.
pub struct StreamChunk {
    pub choices: Vec<StreamChoice>,
    pub usage: Option<UsageWire>,
    /// Some gateways report failures inside a stream.
    pub error: Option<Json>,
}

/// A streamed reply that is being assembled.
pub struct StreamAccumulator {
    pub reply: PartialReply,
    pub usage: Option<Usage>,
}

/// The tokens after a chunk: the last report counts.
pub open spec fn usage_after(before: Option<Usage>, chunk: StreamChunk) -> Option<Usage> {
    match chunk.usage {
        Some(_) => usage_value(chunk.usage),
        None => before,
    }
}

/// What an event of a stream asks for.
pub enum StreamStep {
    /// The stream is over.
    Done,
    /// Nothing.
    Skip,
    /// The payload is a chunk to be read.
    Read(String),
}

/// Decide on an event of a stream.
pub fn stream_step(event: SseEvent) -> (r: StreamStep)
    ensures
        match r {
            StreamStep::Done => event is Done,
            StreamStep::Skip => event matches SseEvent::Data(s) && s@.len() == 0,
            StreamStep::Read(data) => event matches SseEvent::Data(s) && s@ == data@ && s@.len()
                > 0,
        },
{
    match event {
        SseEvent::Done => StreamStep::Done,
        SseEvent::Data(data) => if data.as_str().is_empty() {
            StreamStep::Skip
        } else {
            StreamStep::Read(data)
        },
    }
}

impl StreamAccumulator {
    /// A reply of which nothing came yet.
    pub fn new() -> (r: StreamAccumulator)
        ensures
            r.reply@ == (stream::PartialView {
                content: seq![],
                tool_calls: seq![],
                finished: false,
                finish_reason: None,
            }),
            r.usage is None,
    {
        StreamAccumulator { reply: PartialReply::new(), usage: None }
    }

    /// Take a chunk; its texts are handed back for display. An error inside
    /// it ends the stream.
    pub fn apply(&mut self, chunk: &StreamChunk, url: &str) -> (r: Result<Vec<String>, AdapterError>)
        requires
            stream::choices_fit(chunk.choices@),
        ensures
            match chunk.error {
                Some(error) => {
                    &&& r matches Err(e) && e.source@ == error_text(error@, url@) && e.retryable
                        == transient_error(error@) && e.retry_after_ms is None
                    &&& *final(self) == *old(self)
                },
                None => {
                    &&& r matches Ok(shown) && text::views(shown@) == stream::fragments(
                        chunk.choices@,
                    )
                    &&& final(self).reply@ == stream::with_choices(
                        old(self).reply@,
                        chunk.choices@,
                    )
                    &&& final(self).usage == usage_after(old(self).usage, *chunk)
                },
            },
    {
        match &chunk.error {
            Some(error) => {
                return Err(in_band_error(error, url));
            },
            None => {},
        }
        match &chunk.usage {
            Some(u) => {
                self.usage = Some(u.into_canonical());
            },
            None => {},
        }
        Ok(self.reply.apply(&chunk.choices))
    }

    /// The reply; a stream that ended without any text has no content.
    pub fn finish(self) -> (r: ModelResponse)
        ensures
            model::option_text(r.content) == (if self.reply@.content.len() == 0 {
                None
            } else {
                Some(self.reply@.content)
            }),
            model::calls_view(r.tool_calls@) == slot_calls(self.reply@.tool_calls),
            r.reasoning is None,
            r.usage == self.usage,
            model::option_text(r.truncation) == truncation_spec(self.reply@.finish_reason),
    {
        let StreamAccumulator { reply, usage } = self;
        let PartialReply { content, tool_calls, finished: _, finish_reason } = reply;
        let calls = calls_of(&tool_calls);
        ModelResponse {
            content: if content.as_str().is_empty() {
                None
            } else {
                Some(content)
            },
            tool_calls: calls,
            reasoning: None,
            usage,
            truncation: truncation_reason(finish_reason),
        }
    }
}

} // verus!

//! A minimal chat-completions client's types and rules: messages that keep
//! arguments as text, assembly of a streamed turn, and the lines of a stream.

use vstd::prelude::*;
use vstd::string::*;

use crate::find;
use crate::json;
use crate::json::Json;
use crate::model;
use crate::request;
use crate::request::SamplingParams;
use crate::schema;
use crate::search;
use crate::stream;
use crate::stream::{PartialReply, PartialToolCall, StreamChoice};
use crate::text;

verus! {

/// A function call; its arguments are JSON text, as the model wrote them.
pub struct FunctionCall {
    pub name: String,
    pub arguments: String,
}

/// A tool call.
pub struct ToolCall {
    pub id: String,
    pub kind: String,
    pub function: FunctionCall,
}

/// What a tool call stands for.
pub struct TextCallView {
    pub id: Seq<char>,
    pub kind: Seq<char>,
    pub name: Seq<char>,
    pub arguments: Seq<char>,
}

impl View for ToolCall {
    type V = TextCallView;

    open spec fn view(&self) -> TextCallView {
        TextCallView {
            id: self.id@,
            kind: self.kind@,
            name: self.function.name@,
            arguments: self.function.arguments@,
        }
    }
}

/// The views of tool calls.
pub open spec fn text_calls_view(calls: Seq<ToolCall>) -> Seq<TextCallView> {
    Seq::new(calls.len(), |i: int| calls[i]@)
}

/// A message of a conversation.
#[allow(inconsistent_fields)]
pub enum ChatMessage {
    System { content: String },
    User { content: String },
    Assistant { content: Option<String>, tool_calls: Option<Vec<ToolCall>> },
    Tool { content: String, tool_call_id: String },
}

/// What a message stands for.
#[allow(inconsistent_fields)]
pub enum ChatView {
    System { content: Seq<char> },
    User { content: Seq<char> },
    Assistant { content: Option<Seq<char>>, tool_calls: Option<Seq<TextCallView>> },
    Tool { content: Seq<char>, tool_call_id: Seq<char> },
}

impl View for ChatMessage {
    type V = ChatView;

    open spec fn view(&self) -> ChatView {
        match self {
            ChatMessage::System { content } => ChatView::System { content: content@ },
            ChatMessage::User { content } => ChatView::User { content: content@ },
            ChatMessage::Assistant { content, tool_calls } => ChatView::Assistant {
                content: model::option_text(*content),
                tool_calls: match tool_calls {
                    Some(calls) => Some(text_calls_view(calls@)),
                    None => None,
                },
            },
            ChatMessage::Tool { content, tool_call_id } => ChatView::Tool {
                content: content@,
                tool_call_id: tool_call_id@,
            },
        }
    }
}

/// The kind of a call that names none.
pub fn function_type() -> (r: String)
    ensures
        r@ == "function"@,
{
    "function".to_owned()
}

/// A tool that the model is told of.
pub struct ToolFunction {
    pub name: String,
    pub description: String,
    /// JSON Schema of the arguments.
    pub parameters: Json,
}

/// Token counts of one request.
#[derive(Debug, Clone, Copy, PartialEq, Eq, Structural)]
pub struct Usage {
    pub prompt_tokens: u64,
    pub completion_tokens: u64,
}

impl Usage {
    /// The context that the conversation now occupies: everything sent plus
    /// everything generated.
    pub fn context_tokens(&self) -> (r: u64)
        requires
            self.prompt_tokens + self.completion_tokens <= u64::MAX,
        ensures
            r == self.prompt_tokens + self.completion_tokens,
    {
        self.prompt_tokens + self.completion_tokens
    }
}

/// What the model returned for one round-trip.
pub struct AssistantTurn {
    pub content: Option<String>,
    pub tool_calls: Vec<ToolCall>,
    pub usage: Option<Usage>,
}

/// A failed attempt, classified for the retry rule.
pub struct AttemptError {
    pub source: String,
    pub retryable: bool,
    /// The delay that the server asked for.
    pub retry_after_ms: Option<u64>,
}

impl AttemptError {
    /// A failure that no retry will mend.
    pub fn fatal(source: String) -> (r: AttemptError)
        ensures
            r.source@ == source@,
            !r.retryable,
            r.retry_after_ms is None,
    {
        AttemptError { source, retryable: false, retry_after_ms: None }
    }

    /// A failure that may pass.
    pub fn transient(source: String) -> (r: AttemptError)
        ensures
            r.source@ == source@,
            r.retryable,
            r.retry_after_ms is None,
    {
        AttemptError { source, retryable: true, retry_after_ms: None }
    }
}

// ---------------------------------------------------------------------------
// Requests
// ---------------------------------------------------------------------------

/// A tool call in its wire form.
pub open spec fn call_wire(c: TextCallView) -> json::JsonView {
    json::JsonView::Object(
        seq![
            ("id"@, json::JsonView::Text(c.id)),
            ("type"@, json::JsonView::Text(c.kind)),
            (
                "function"@,
                json::JsonView::Object(
                    seq![
                        ("name"@, json::JsonView::Text(c.name)),
                        ("arguments"@, json::JsonView::Text(c.arguments)),
                    ],
                ),
            ),
        ],
    )
}

/// Tool calls in their wire form.
pub open spec fn calls_wire(calls: Seq<TextCallView>) -> json::JsonView {
    json::JsonView::Array(Seq::new(calls.len(), |i: int| call_wire(calls[i])))
}

/// The fields of a message with a role and a text.
pub open spec fn spoken(role: Seq<char>, content: json::JsonView) -> Seq<
    (Seq<char>, json::JsonView),
> {
    seq![("role"@, json::JsonView::Text(role)), ("content"@, content)]
}

/// A message in its wire form.
pub open spec fn message_wire(m: ChatView) -> json::JsonView {
    match m {
        ChatView::System { content } => json::JsonView::Object(
            spoken("system"@, json::JsonView::Text(content)),
        ),
        ChatView::User { content } => json::JsonView::Object(
            spoken("user"@, json::JsonView::Text(content)),
        ),
        ChatView::Assistant { content, tool_calls } => json::JsonView::Object(
            spoken(
                "assistant"@,
                match content {
                    Some(s) => json::JsonView::Text(s),
                    None => json::JsonView::Null,
                },
            ) + schema::optional_field(
                "tool_calls"@,
                match tool_calls {
                    Some(calls) => Some(calls_wire(calls)),
                    None => None,
                },
            ),
        ),
        ChatView::Tool { content, tool_call_id } => json::JsonView::Object(
            spoken("tool"@, json::JsonView::Text(content)).push(
                ("tool_call_id"@, json::JsonView::Text(tool_call_id)),
            ),
        ),
    }
}

/// Messages in their wire form.
pub open spec fn messages_wire(messages: Seq<ChatMessage>) -> json::JsonView {
    json::JsonView::Array(Seq::new(messages.len(), |i: int| message_wire(messages[i]@)))
}

/// A tool in its wire form.
pub open spec fn tool_wire(t: ToolFunction) -> json::JsonView {
    json::JsonView::Object(
        seq![
            ("type"@, json::JsonView::Text("function"@)),
            (
                "function"@,
                json::JsonView::Object(
                    seq![
                        ("name"@, json::JsonView::Text(t.name@)),
                        ("description"@, json::JsonView::Text(t.description@)),
                        ("parameters"@, t.parameters@),
                    ],
                ),
            ),
        ],
    )
}

/// The tools in their wire form; an empty list is left out, for some servers
/// reject it.
pub open spec fn tools_wire(tools: Seq<ToolFunction>) -> Option<json::JsonView> {
    if tools.len() == 0 {
        None
    } else {
        Some(json::JsonView::Array(Seq::new(tools.len(), |i: int| tool_wire(tools[i]))))
    }
}

/// A request in its wire form.
pub open spec fn request_wire(
    model_id: Seq<char>,
    messages: Seq<ChatMessage>,
    tools: Seq<ToolFunction>,
    params: SamplingParams,
    streamed: bool,
) -> json::JsonView {
    json::JsonView::Object(
        seq![
            ("model"@, json::JsonView::Text(model_id)),
            ("messages"@, messages_wire(messages)),
        ] + schema::optional_field(
            "temperature"@,
            request::decimal_value(model::option_text(params.temperature)),
        ) + schema::optional_field(
            "top_p"@,
            request::decimal_value(model::option_text(params.top_p)),
        ) + schema::optional_field(
            "max_tokens"@,
            match params.max_tokens {
                Some(n) => Some(json::JsonView::Number(json::NumberView::Unsigned(n as u64))),
                None => None,
            },
        ) + schema::optional_field("tools"@, tools_wire(tools)) + schema::optional_field(
            "stream"@,
            if streamed {
                Some(json::JsonView::Bool(true))
            } else {
                None
            },
        ) + schema::optional_field(
            "stream_options"@,
            if streamed {
                Some(
                    json::JsonView::Object(seq![("include_usage"@, json::JsonView::Bool(true))]),
                )
            } else {
                None
            },
        ),
    )
}

fn call_json(call: &ToolCall) -> (r: Json)
    ensures
        r@ == call_wire(call@),
{
    let function = schema::pair(
        "name",
        schema::text_value(call.function.name.as_str()),
        "arguments",
        schema::text_value(call.function.arguments.as_str()),
    );
    schema::triple(
        "id",
        schema::text_value(call.id.as_str()),
        "type",
        schema::text_value(call.kind.as_str()),
        "function",
        function,
    )
}

fn calls_json(calls: &Vec<ToolCall>) -> (r: Json)
    ensures
        r@ == calls_wire(text_calls_view(calls@)),
{
    let ghost views = text_calls_view(calls@);
    let mut items: Vec<Json> = Vec::new();
    let mut i: usize = 0;
    while i < calls.len()
        invariant
            i <= calls@.len(),
            views == text_calls_view(calls@),
            items@.len() == i,
            forall|k: int| 0 <= k < i ==> (#[trigger] items@[k])@ == call_wire(views[k]),
        decreases calls@.len() - i,
    {
        items.push(call_json(&calls[i]));
        i = i + 1;
    }
    assert(schema::items_view(items@) =~= Seq::new(views.len(), |i: int| call_wire(views[i])));
    schema::array(items)
}

fn spoken_fields(role: &str, content: Json) -> (r: Vec<(String, Json)>)
    ensures
        schema::fields_view(r@) == spoken(role@, content@),
{
    let ghost shown = content@;
    let mut fields: Vec<(String, Json)> = Vec::new();
    schema::add_field(&mut fields, "role", schema::text_value(role));
    schema::add_field(&mut fields, "content", content);
    assert(schema::fields_view(fields@) =~= spoken(role@, shown));
    fields
}

fn message_json(message: &ChatMessage) -> (r: Json)
    ensures
        r@ == message_wire(message@),
{
    match message {
        ChatMessage::System { content } => schema::object(
            spoken_fields("system", schema::text_value(content.as_str())),
        ),
        ChatMessage::User { content } => schema::object(
            spoken_fields("user", schema::text_value(content.as_str())),
        ),
        ChatMessage::Assistant { content, tool_calls } => {
            let shown: Option<&str> = match content {
                Some(s) => Some(s.as_str()),
                None => None,
            };
            let mut fields = spoken_fields("assistant", schema::optional_text(shown));
            let calls: Option<Json> = match tool_calls {
                Some(calls) => Some(calls_json(calls)),
                None => None,
            };
            schema::add_optional(&mut fields, "tool_calls", calls);
            schema::object(fields)
        },
        ChatMessage::Tool { content, tool_call_id } => {
            let mut fields = spoken_fields("tool", schema::text_value(content.as_str()));
            schema::add_field(
                &mut fields,
                "tool_call_id",
                schema::text_value(tool_call_id.as_str()),
            );
            schema::object(fields)
        },
    }
}

fn messages_json(messages: &Vec<ChatMessage>) -> (r: Json)
    ensures
        r@ == messages_wire(messages@),
{
    let mut items: Vec<Json> = Vec::new();
    let mut i: usize = 0;
    while i < messages.len()
        invariant
            i <= messages@.len(),
            items@.len() == i,
            forall|k: int| 0 <= k < i ==> (#[trigger] items@[k])@ == message_wire(messages@[k]@),
        decreases messages@.len() - i,
    {
        items.push(message_json(&messages[i]));
        i = i + 1;
    }
    assert(schema::items_view(items@) =~= Seq::new(
        messages@.len(),
        |i: int| message_wire(messages@[i]@),
    ));
    schema::array(items)
}

fn tools_json(tools: &Vec<ToolFunction>) -> (r: Option<Json>)
    ensures
        model::option_json(r) == tools_wire(tools@),
{
    if tools.len() == 0 {
        return None;
    }
    let mut items: Vec<Json> = Vec::new();
    let mut i: usize = 0;
    while i < tools.len()
        invariant
            i <= tools@.len(),
            items@.len() == i,
            forall|k: int| 0 <= k < i ==> (#[trigger] items@[k])@ == tool_wire(tools@[k]),
        decreases tools@.len() - i,
    {
        let tool = &tools[i];
        let function = schema::triple(
            "name",
            schema::text_value(tool.name.as_str()),
            "description",
            schema::text_value(tool.description.as_str()),
            "parameters",
            json::copy(&tool.parameters),
        );
        items.push(
            schema::pair("type", schema::text_value("function"), "function", function),
        );
        i = i + 1;
    }
    assert(schema::items_view(items@) =~= Seq::new(tools@.len(), |i: int| tool_wire(tools@[i])));
    Some(schema::array(items))
}

/// A request in its wire form.
pub fn chat_request(
    model_id: &str,
    messages: &Vec<ChatMessage>,
    tools: &Vec<ToolFunction>,
    params: &SamplingParams,
    streamed: bool,
) -> (r: Json)
    ensures
        r@ == request_wire(model_id@, messages@, tools@, *params, streamed),
{
    let mut fields: Vec<(String, Json)> = Vec::new();
    schema::add_field(&mut fields, "model", schema::text_value(model_id));
    schema::add_field(&mut fields, "messages", messages_json(messages));
    let ghost head = seq![
        ("model"@, json::JsonView::Text(model_id@)),
        ("messages"@, messages_wire(messages@)),
    ];
    assert(schema::fields_view(fields@) =~= head);
    schema::add_optional(&mut fields, "temperature", request::decimal_json(&params.temperature));
    schema::add_optional(&mut fields, "top_p", request::decimal_json(&params.top_p));
    let limit: Option<Json> = match params.max_tokens {
        Some(n) => Some(schema::count(n as u64)),
        None => None,
    };
    schema::add_optional(&mut fields, "max_tokens", limit);
    schema::add_optional(&mut fields, "tools", tools_json(tools));
    let flag: Option<Json> = if streamed {
        Some(schema::flag(true))
    } else {
        None
    };
    schema::add_optional(&mut fields, "stream", flag);
    let options: Option<Json> = if streamed {
        Some(schema::single("include_usage", schema::flag(true)))
    } else {
        None
    };
    schema::add_optional(&mut fields, "stream_options", options);
    schema::object(fields)
}

// ---------------------------------------------------------------------------
// Streamed turns
// ---------------------------------------------------------------------------

/// The message of a choice that came whole.
pub struct TurnChoice {
    pub content: Option<String>,
    pub tool_calls: Option<Vec<ToolCall>>,
}

/// A turn that came whole, in its wire form.
pub struct ChatResponse {
    pub choices: Vec<TurnChoice>,
    pub usage: Option<Usage>,
}

impl ChatResponse {
    /// The turn of the first choice; a reply without choices fails for good.
    pub fn into_turn(self, url: &str) -> (r: Result<AssistantTurn, AttemptError>)
        ensures
            match r {
                Ok(turn) => {
                    &&& self.choices@.len() > 0
                    &&& turn.content == self.choices@[0].content
                    &&& turn.usage == self.usage
                    &&& turn.tool_calls@ == (match self.choices@[0].tool_calls {
                        Some(calls) => calls@,
                        None => seq![],
                    })
                },
                Err(e) => {
                    &&& self.choices@.len() == 0
                    &&& e.source@ == "provider returned no choices from "@ + url@
                    &&& !e.retryable
                    &&& e.retry_after_ms is None
                },
            },
    {
        let ChatResponse { choices, usage } = self;
        let mut choices = choices;
        if choices.len() == 0 {
            return Err(
                AttemptError::fatal(text::cat2("provider returned no choices from ", url)),
            );
        }
        let TurnChoice { content, tool_calls } = choices.remove(0);
        let tool_calls: Vec<ToolCall> = match tool_calls {
            Some(calls) => calls,
            None => Vec::new(),
        };
        Ok(AssistantTurn { content, tool_calls, usage })
    }
}

/// A chunk of a streamed turn.
pub struct StreamChunk {
    pub choices: Vec<StreamChoice>,
    /// Comes with the last chunk.
    pub usage: Option<Usage>,
}

/// A streamed turn that is being assembled.
pub struct StreamAccumulator {
    pub reply: PartialReply,
    pub usage: Option<Usage>,
}

/// The call that a slot stands for.
pub open spec fn slot_call(slot: stream::SlotView) -> TextCallView {
    TextCallView {
        id: slot.id,
        kind: "function"@,
        name: slot.name,
        arguments: slot.arguments,
    }
}

/// The calls that slots stand for.
pub open spec fn slot_calls(slots: Seq<stream::SlotView>) -> Seq<TextCallView> {
    Seq::new(slots.len(), |i: int| slot_call(slots[i]))
}

fn calls_of(slots: &Vec<PartialToolCall>) -> (r: Vec<ToolCall>)
    ensures
        text_calls_view(r@) == slot_calls(stream::slots_view(slots@)),
{
    let ghost views = stream::slots_view(slots@);
    let mut out: Vec<ToolCall> = Vec::new();
    let mut i: usize = 0;
    while i < slots.len()
        invariant
            i <= slots@.len(),
            views == stream::slots_view(slots@),
            out@.len() == i,
            forall|k: int| 0 <= k < i ==> (#[trigger] out@[k])@ == slot_call(views[k]),
        decreases slots@.len() - i,
    {
        let slot = &slots[i];
        out.push(
            ToolCall {
                id: slot.id.clone(),
                kind: function_type(),
                function: FunctionCall {
                    name: slot.name.clone(),
                    arguments: slot.arguments.clone(),
                },
            },
        );
        i = i + 1;
    }
    assert(text_calls_view(out@) =~= slot_calls(views));
    out
}

fn joined(pieces: &Vec<String>) -> (r: String)
    ensures
        r@ == stream::flat(text::views(pieces@)),
{
    let ghost all = text::views(pieces@);
    let mut out = String::new();
    let mut i: usize = 0;
    assert(out@ =~= stream::flat(all.take(0)));
    while i < pieces.len()
        invariant
            i <= pieces@.len(),
            all == text::views(pieces@),
            out@ == stream::flat(all.take(i as int)),
        decreases pieces@.len() - i,
    {
        out.append(pieces[i].as_str());
        assert(all.take(i + 1).drop_last() =~= all.take(i as int));
        i = i + 1;
    }
    assert(all.take(all.len() as int) =~= all);
    out
}

impl StreamAccumulator {
    /// A turn of which nothing came yet.
    pub fn new() -> (r: StreamAccumulator)
        ensures
            r.reply@ == (stream::PartialView {
                content: seq![],
                tool_calls: seq![],
                finished: false,
                finish_reason: None,
            }),
            r.usage is None,
    {
        StreamAccumulator { reply: PartialReply::new(), usage: None }
    }

    /// Take a chunk; its text, if it holds any, is handed back for display.
    pub fn apply(&mut self, chunk: &StreamChunk) -> (r: Option<String>)
        requires
            stream::choices_fit(chunk.choices@),
        ensures
            final(self).reply@ == stream::with_choices(old(self).reply@, chunk.choices@),
            final(self).usage == (if chunk.usage is Some {
                chunk.usage
            } else {
                old(self).usage
            }),
            match r {
                Some(fragment) => stream::fragments(chunk.choices@).len() > 0 && fragment@
                    == stream::flat(stream::fragments(chunk.choices@)),
                None => stream::fragments(chunk.choices@).len() == 0,
            },
    {
        match chunk.usage {
            Some(usage) => {
                self.usage = Some(usage);
            },
            None => {},
        }
        let shown = self.reply.apply(&chunk.choices);
        assert(text::views(shown@).len() == shown@.len());
        if shown.len() == 0 {
            None
        } else {
            Some(joined(&shown))
        }
    }

    /// The turn; one that ended without any text has no content.
    pub fn finish(self) -> (r: AssistantTurn)
        ensures
            model::option_text(r.content) == (if self.reply@.content.len() == 0 {
                None
            } else {
                Some(self.reply@.content)
            }),
            text_calls_view(r.tool_calls@) == slot_calls(self.reply@.tool_calls),
            r.usage == self.usage,
    {
        let StreamAccumulator { reply, usage } = self;
        let PartialReply { content, tool_calls, finished: _, finish_reason: _ } = reply;
        let calls = calls_of(&tool_calls);
        AssistantTurn {
            content: if content.as_str().is_empty() {
                None
            } else {
                Some(content)
            },
            tool_calls: calls,
            usage,
        }
    }
}

/// How many bytes of a reply were delivered after a fragment.
pub fn emitted_after(before: usize, fragment: &str, emitted: usize) -> (r: usize)
    requires
        before + text::byte_len(fragment@) <= usize::MAX,
    ensures
        r == (if before + text::byte_len(fragment@) > emitted {
            before + text::byte_len(fragment@)
        } else {
            emitted as int
        }),
{
    let end: usize = before + text::bytes_in(fragment);
    if end > emitted {
        end
    } else {
        emitted
    }
}

// ---------------------------------------------------------------------------
// Lines of a stream
// ---------------------------------------------------------------------------

/// What a line of a stream says.
pub enum LineStep {
    /// The stream is over.
    Done,
    /// The line carries no payload.
    Skip,
    /// A payload.
    Data(String),
}

/// What a line of a stream says.
pub enum StepView {
    Done,
    Skip,
    Data(Seq<char>),
}

impl View for LineStep {
    type V = StepView;

    open spec fn view(&self) -> StepView {
        match self {
            LineStep::Done => StepView::Done,
            LineStep::Skip => StepView::Skip,
            LineStep::Data(s) => StepView::Data(s@),
        }
    }
}

/// What a line says, its end included.
pub open spec fn line_step(line: Seq<u8>) -> StepView {
    match find::strip_prefix_spec(text::trim_end_spec(search::lossy_text(line)), "data:"@) {
        Some(rest) => {
            let data = text::trim_start_spec(rest);
            if data == "[DONE]"@ {
                StepView::Done
            } else {
                StepView::Data(data)
            }
        },
        None => StepView::Skip,
    }
}

/// The complete lines of bytes, their ends included, and what follows them.
pub open spec fn raw_lines(bytes: Seq<u8>) -> (Seq<Seq<u8>>, Seq<u8>)
    decreases bytes.len(),
{
    if bytes.len() == 0 {
        (seq![], seq![])
    } else {
        let (lines, open) = raw_lines(bytes.drop_last());
        let grown = open.push(bytes.last());
        if bytes.last() == 0x0a {
            (lines.push(grown), seq![])
        } else {
            (lines, grown)
        }
    }
}

/// What lines say.
pub open spec fn line_steps(lines: Seq<Seq<u8>>) -> Seq<StepView> {
    Seq::new(lines.len(), |i: int| line_step(lines[i]))
}

/// The views of steps.
pub open spec fn steps_view(steps: Seq<LineStep>) -> Seq<StepView> {
    Seq::new(steps.len(), |i: int| steps[i]@)
}

fn read_line(line: &Vec<u8>) -> (r: LineStep)
    ensures
        r@ == line_step(line@),
{
    let decoded = search::lossy(line.as_slice());
    let trimmed = text::trim_end(decoded.as_str());
    match find::strip_prefix(trimmed.as_str(), "data:") {
        Some(rest) => {
            let data = text::trim_start(rest.as_str());
            if text::same(data.as_str(), "[DONE]") {
                LineStep::Done
            } else {
                LineStep::Data(data)
            }
        },
        None => LineStep::Skip,
    }
}

/// The bytes of a stream behind its last complete line. Only complete lines
/// are decoded, so that a character which two chunks share comes out whole.
pub struct LineBuffer {
    pub open: Vec<u8>,
}

impl LineBuffer {
    /// The buffer's invariant: it holds no complete line.
    pub open spec fn wf(self) -> bool {
        raw_lines(self.open@) == (Seq::<Seq<u8>>::empty(), self.open@)
    }

    /// A buffer before the first chunk.
    pub fn new() -> (r: LineBuffer)
        ensures
            r.wf(),
            r.open@.len() == 0,
    {
        let r = LineBuffer { open: Vec::new() };
        assert(r.open@ =~= seq![]);
        r
    }

    /// Take a chunk; what its complete lines say is handed back.
    pub fn push(&mut self, chunk: &[u8]) -> (r: Vec<LineStep>)
        requires
            old(self).wf(),
        ensures
            final(self).wf(),
            final(self).open@ == raw_lines(old(self).open@ + chunk@).1,
            steps_view(r@) == line_steps(raw_lines(old(self).open@ + chunk@).0),
    {
        let ghost start = self.open@;
        let mut steps: Vec<LineStep> = Vec::new();
        let mut i: usize = 0;
        assert(start + chunk@.take(0) =~= start);
        assert(steps_view(steps@) =~= line_steps(seq![]));
        while i < chunk.len()
            invariant
                i <= chunk@.len(),
                self.open@ == raw_lines(start + chunk@.take(i as int)).1,
                steps_view(steps@) == line_steps(raw_lines(start + chunk@.take(i as int)).0),
            decreases chunk@.len() - i,
        {
            let b: u8 = chunk[i];
            let ghost upto = start + chunk@.take(i as int);
            let ghost lines = raw_lines(upto).0;
            assert((start + chunk@.take(i + 1)).drop_last() =~= upto);
            assert((start + chunk@.take(i + 1)).last() == b);
            self.open.push(b);
            if b == 0x0a {
                let step = read_line(&self.open);
                let ghost shown = step@;
                let ghost before = steps@;
                let ghost line = self.open@;
                steps.push(step);
                self.open = Vec::new();
                assert(self.open@ =~= seq![]);
                assert(steps_view(steps@) =~= steps_view(before).push(shown));
                assert(line_steps(lines.push(line)) =~= line_steps(lines).push(shown));
            }
            i = i + 1;
        }
        assert(chunk@.take(chunk@.len() as int) =~= chunk@);
        proof {
            lemma_open_has_no_line(start + chunk@);
        }
        steps
    }
}

proof fn lemma_open_has_no_line(bytes: Seq<u8>)
    ensures
        raw_lines(raw_lines(bytes).1) == (Seq::<Seq<u8>>::empty(), raw_lines(bytes).1),
    decreases bytes.len(),
{
    if bytes.len() > 0 {
        lemma_open_has_no_line(bytes.drop_last());
        let open = raw_lines(bytes.drop_last()).1;
        if bytes.last() != 0x0a {
            assert(open.push(bytes.last()).drop_last() =~= open);
        }
    }
}

/// Where a stream is cut into chunks makes no difference: the lines of two
/// chunks, one after the other, are the lines of both at once.
pub proof fn law_chunks_may_be_cut_anywhere(first: Seq<u8>, second: Seq<u8>)
    ensures
        ({
            let (head, open) = raw_lines(first);
            let (tail, rest) = raw_lines(open + second);
            raw_lines(first + second) == (head + tail, rest)
        }),
    decreases second.len(),
{
    let (head, open) = raw_lines(first);
    if second.len() == 0 {
        assert(first + second =~= first);
        assert(open + second =~= open);
        lemma_open_has_no_line(first);
        assert(head + Seq::<Seq<u8>>::empty() =~= head);
    } else {
        law_chunks_may_be_cut_anywhere(first, second.drop_last());
        assert((first + second).drop_last() =~= first + second.drop_last());
        assert((open + second).drop_last() =~= open + second.drop_last());
        let (tail, rest) = raw_lines(open + second.drop_last());
        let grown = rest.push(second.last());
        assert(head + tail.push(grown) =~= (head + tail).push(grown));
    }
}

} // verus!

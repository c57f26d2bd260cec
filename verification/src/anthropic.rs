//! The messages form of requests and replies: the system prompt stands beside
//! the turns, calls and results are blocks of a turn, and a stream is made of
//! typed events.

use vstd::prelude::*;
use vstd::string::*;

use crate::json;
use crate::json::{Json, Number};
use crate::model;
use crate::model::{AdapterError, FunctionCall, Message, ModelResponse, ToolCall, ToolDefinition};
use crate::model::Usage;
use crate::openai;
use crate::request;
use crate::request::{ModelRequest, ToolChoice};
use crate::schema;
use crate::sse::SseEvent;
use crate::text;

verus! {

/// Tokens of a reply where nothing sets a limit; the protocol demands one.
pub const DEFAULT_MAX_TOKENS: u32 = 64_000;

/// The protocol's version that requests name unless a header says otherwise.
pub const DEFAULT_API_VERSION: &'static str = "2023-06-01";

// ---------------------------------------------------------------------------
// Requests
// ---------------------------------------------------------------------------

/// The input of a call as the wire carries it: always an object.
pub open spec fn tool_input(arguments: json::JsonView) -> json::JsonView {
    match arguments {
        json::JsonView::Null => json::JsonView::Object(seq![]),
        json::JsonView::Object(_) => arguments,
        _ => json::JsonView::Object(seq![("input"@, arguments)]),
    }
}

/// The input of a call as the wire carries it: always an object. No arguments
/// are an empty one, and what is no object is wrapped in one.
pub fn encode_tool_input(arguments: &Json) -> (r: Json)
    ensures
        r@ == tool_input(arguments@),
{
    match arguments {
        Json::Null => {
            let fields: Vec<(String, Json)> = Vec::new();
            assert(schema::fields_view(fields@) =~= seq![]);
            schema::object(fields)
        },
        Json::Object(_) => json::copy(arguments),
        _ => schema::single("input", json::copy(arguments)),
    }
}

/// A block of text.
pub open spec fn text_block(s: Seq<char>) -> json::JsonView {
    json::JsonView::Object(
        seq![("type"@, json::JsonView::Text("text"@)), ("text"@, json::JsonView::Text(s))],
    )
}

/// A block with a call.
pub open spec fn call_block(c: model::CallView) -> json::JsonView {
    json::JsonView::Object(
        seq![
            ("type"@, json::JsonView::Text("tool_use"@)),
            ("id"@, json::JsonView::Text(c.id)),
            ("name"@, json::JsonView::Text(c.name)),
            ("input"@, tool_input(c.arguments)),
        ],
    )
}

/// A block with a result.
pub open spec fn result_block(content: Seq<char>, id: Seq<char>) -> json::JsonView {
    json::JsonView::Object(
        seq![
            ("type"@, json::JsonView::Text("tool_result"@)),
            ("tool_use_id"@, json::JsonView::Text(id)),
            ("content"@, json::JsonView::Text(content)),
        ],
    )
}

/// The blocks of saved reasoning: replayed as they came, in front.
pub open spec fn saved_blocks(reasoning: Option<json::JsonView>) -> Seq<json::JsonView> {
    match reasoning {
        Some(json::JsonView::Array(saved)) => saved,
        _ => seq![],
    }
}

/// The block of an assistant's text; empty text has none.
pub open spec fn text_blocks(content: Option<Seq<char>>) -> Seq<json::JsonView> {
    match content {
        Some(s) => if s.len() == 0 {
            seq![]
        } else {
            seq![text_block(s)]
        },
        None => seq![],
    }
}

/// The blocks of an assistant's calls.
pub open spec fn call_blocks(calls: Option<Seq<model::CallView>>) -> Seq<json::JsonView> {
    match calls {
        Some(list) => Seq::new(list.len(), |i: int| call_block(list[i])),
        None => seq![],
    }
}

/// A turn: whose it is, and what it holds.
pub struct TurnView {
    pub user: bool,
    pub content: json::JsonView,
}

/// The turns of a conversation with a result added: results of one round
/// share a turn.
pub open spec fn with_result(turns: Seq<TurnView>, block: json::JsonView) -> Seq<TurnView> {
    if turns.len() > 0 && turns.last().user && turns.last().content is Array {
        turns.drop_last().push(
            TurnView {
                user: true,
                content: json::JsonView::Array(turns.last().content->Array_0.push(block)),
            },
        )
    } else {
        turns.push(TurnView { user: true, content: json::JsonView::Array(seq![block]) })
    }
}

/// The turns of a conversation with a message added. System messages are no
/// turns.
pub open spec fn with_message(turns: Seq<TurnView>, m: model::MessageView) -> Seq<TurnView> {
    match m {
        model::MessageView::System { .. } => turns,
        model::MessageView::User { content } => turns.push(
            TurnView { user: true, content: json::JsonView::Text(content) },
        ),
        model::MessageView::Assistant { content, tool_calls, reasoning } => turns.push(
            TurnView {
                user: false,
                content: json::JsonView::Array(
                    saved_blocks(reasoning) + text_blocks(content) + call_blocks(tool_calls),
                ),
            },
        ),
        model::MessageView::Tool { content, tool_call_id } => with_result(
            turns,
            result_block(content, tool_call_id),
        ),
    }
}

/// The turns of a conversation.
pub open spec fn turns_spec(messages: Seq<model::MessageView>) -> Seq<TurnView>
    decreases messages.len(),
{
    if messages.len() == 0 {
        seq![]
    } else {
        with_message(turns_spec(messages.drop_last()), messages.last())
    }
}

/// The system messages of a conversation, wherever they stand.
pub open spec fn system_parts(messages: Seq<model::MessageView>) -> Seq<Seq<char>>
    decreases messages.len(),
{
    if messages.len() == 0 {
        seq![]
    } else {
        let before = system_parts(messages.drop_last());
        match messages.last() {
            model::MessageView::System { content } => before.push(content),
            _ => before,
        }
    }
}

/// A turn in its wire form.
pub open spec fn turn_wire(t: TurnView) -> json::JsonView {
    json::JsonView::Object(
        seq![
            (
                "role"@,
                json::JsonView::Text(
                    if t.user {
                        "user"@
                    } else {
                        "assistant"@
                    },
                ),
            ),
            ("content"@, t.content),
        ],
    )
}

/// The turns in their wire form.
pub open spec fn turns_wire(turns: Seq<TurnView>) -> json::JsonView {
    json::JsonView::Array(Seq::new(turns.len(), |i: int| turn_wire(turns[i])))
}

/// A tool in its wire form.
pub open spec fn tool_wire(t: model::DefinitionView) -> json::JsonView {
    json::JsonView::Object(
        seq![
            ("name"@, json::JsonView::Text(t.name)),
            ("description"@, json::JsonView::Text(t.description)),
            ("input_schema"@, t.parameters),
        ],
    )
}

/// The tools in their wire form; an empty list is left out.
pub open spec fn tools_wire(tools: Seq<model::DefinitionView>) -> Option<json::JsonView> {
    if tools.len() == 0 {
        None
    } else {
        Some(json::JsonView::Array(Seq::new(tools.len(), |i: int| tool_wire(tools[i]))))
    }
}

/// A tool choice in its wire form.
pub open spec fn choice_wire(c: request::ChoiceView) -> json::JsonView {
    match c {
        request::ChoiceView::Any => json::JsonView::Object(
            seq![("type"@, json::JsonView::Text("any"@))],
        ),
        request::ChoiceView::Tool(name) => json::JsonView::Object(
            seq![("type"@, json::JsonView::Text("tool"@)), ("name"@, json::JsonView::Text(name))],
        ),
    }
}

/// A demand on the form of the reply, in its wire form.
pub open spec fn format_wire(schema_json: json::JsonView) -> json::JsonView {
    json::JsonView::Object(
        seq![
            (
                "format"@,
                json::JsonView::Object(
                    seq![
                        ("type"@, json::JsonView::Text("json_schema"@)),
                        ("schema"@, schema_json),
                    ],
                ),
            ),
        ],
    )
}

/// The system prompt in its wire form.
pub open spec fn system_wire(messages: Seq<model::MessageView>) -> Option<json::JsonView> {
    let parts = system_parts(messages);
    if parts.len() == 0 {
        None
    } else {
        Some(json::JsonView::Text(text::join_spec(parts, "\n\n"@)))
    }
}

/// The limit on a reply.
pub open spec fn limit_spec(max_tokens: Option<u32>) -> u64 {
    match max_tokens {
        Some(n) => n as u64,
        None => DEFAULT_MAX_TOKENS as u64,
    }
}

/// A request in its wire form.
pub open spec fn request_wire(r: request::RequestView) -> json::JsonView {
    json::JsonView::Object(
        seq![
            ("model"@, json::JsonView::Text(r.model)),
            (
                "max_tokens"@,
                json::JsonView::Number(json::NumberView::Unsigned(limit_spec(r.max_tokens))),
            ),
        ] + schema::optional_field("system"@, system_wire(r.messages)) + seq![
            ("messages"@, turns_wire(turns_spec(r.messages))),
        ] + schema::optional_field("tools"@, tools_wire(r.tools)) + schema::optional_field(
            "temperature"@,
            request::decimal_value(r.temperature),
        ) + schema::optional_field("top_p"@, request::decimal_value(r.top_p))
            + schema::optional_field(
            "tool_choice"@,
            match r.tool_choice {
                Some(c) => Some(choice_wire(c)),
                None => None,
            },
        ) + schema::optional_field(
            "output_config"@,
            match r.output_schema {
                Some(s) => Some(format_wire(s)),
                None => None,
            },
        ) + schema::optional_field(
            "stream"@,
            if r.stream {
                Some(json::JsonView::Bool(true))
            } else {
                None
            },
        ),
    )
}

enum TurnContent {
    Text(String),
    Blocks(Vec<Json>),
}

struct Turn {
    user: bool,
    content: TurnContent,
}

impl View for Turn {
    type V = TurnView;

    closed spec fn view(&self) -> TurnView {
        TurnView {
            user: self.user,
            content: match self.content {
                TurnContent::Text(s) => json::JsonView::Text(s@),
                TurnContent::Blocks(b) => json::JsonView::Array(schema::items_view(b@)),
            },
        }
    }
}

spec fn turns_view(turns: Seq<Turn>) -> Seq<TurnView> {
    Seq::new(turns.len(), |i: int| turns[i]@)
}

fn call_json(call: &ToolCall) -> (r: Json)
    ensures
        r@ == call_block(call@),
{
    schema::quad(
        "type",
        schema::text_value("tool_use"),
        "id",
        schema::text_value(call.id.as_str()),
        "name",
        schema::text_value(call.function.name.as_str()),
        "input",
        encode_tool_input(&call.function.arguments),
    )
}

fn add_saved(blocks: &mut Vec<Json>, reasoning: &Option<Json>)
    ensures
        schema::items_view(final(blocks)@) == schema::items_view(old(blocks)@) + saved_blocks(
            model::option_json(*reasoning),
        ),
{
    let ghost before = schema::items_view(blocks@);
    match reasoning {
        Some(Json::Array(saved)) => {
            let ghost all = schema::items_view(saved@);
            assert(json::json_view(Json::Array(*saved))->Array_0 =~= all);
            let mut i: usize = 0;
            assert(before + all.take(0) =~= before);
            while i < saved.len()
                invariant
                    i <= saved@.len(),
                    all == schema::items_view(saved@),
                    schema::items_view(blocks@) == before + all.take(i as int),
                decreases saved@.len() - i,
            {
                schema::add_item(blocks, json::copy(&saved[i]));
                assert((before + all.take(i as int)).push(all[i as int]) =~= before + all.take(
                    i + 1,
                ));
                i = i + 1;
            }
            assert(all.take(all.len() as int) =~= all);
        },
        _ => {
            assert(before + seq![] =~= before);
        },
    }
}

fn add_calls(blocks: &mut Vec<Json>, calls: &Option<Vec<ToolCall>>)
    ensures
        schema::items_view(final(blocks)@) == schema::items_view(old(blocks)@) + call_blocks(
            match *calls {
                Some(list) => Some(model::calls_view(list@)),
                None => None,
            },
        ),
{
    let ghost before = schema::items_view(blocks@);
    match calls {
        Some(list) => {
            let ghost views = model::calls_view(list@);
            let ghost all = Seq::new(views.len(), |i: int| call_block(views[i]));
            let mut i: usize = 0;
            assert(before + all.take(0) =~= before);
            while i < list.len()
                invariant
                    i <= list@.len(),
                    views == model::calls_view(list@),
                    all == Seq::new(views.len(), |i: int| call_block(views[i])),
                    schema::items_view(blocks@) == before + all.take(i as int),
                decreases list@.len() - i,
            {
                schema::add_item(blocks, call_json(&list[i]));
                assert((before + all.take(i as int)).push(all[i as int]) =~= before + all.take(
                    i + 1,
                ));
                i = i + 1;
            }
            assert(all.take(all.len() as int) =~= all);
        },
        None => {
            assert(before + seq![] =~= before);
        },
    }
}

fn assistant_blocks(
    content: &Option<String>,
    tool_calls: &Option<Vec<ToolCall>>,
    reasoning: &Option<Json>,
) -> (r: Vec<Json>)
    ensures
        schema::items_view(r@) == saved_blocks(model::option_json(*reasoning)) + text_blocks(
            model::option_text(*content),
        ) + call_blocks(
            match *tool_calls {
                Some(list) => Some(model::calls_view(list@)),
                None => None,
            },
        ),
{
    let mut blocks: Vec<Json> = Vec::new();
    let ghost empty = schema::items_view(blocks@);
    assert(empty =~= seq![]);
    add_saved(&mut blocks, reasoning);
    let ghost saved = saved_blocks(model::option_json(*reasoning));
    assert(empty + saved =~= saved);
    match content {
        Some(s) => {
            if s.as_str().is_empty() {
                assert(saved + seq![] =~= saved);
            } else {
                let block = schema::pair(
                    "type",
                    schema::text_value("text"),
                    "text",
                    schema::text_value(s.as_str()),
                );
                schema::add_item(&mut blocks, block);
                assert(saved.push(text_block(s@)) =~= saved + seq![text_block(s@)]);
            }
        },
        None => {
            assert(saved + seq![] =~= saved);
        },
    }
    add_calls(&mut blocks, tool_calls);
    blocks
}

fn add_result(turns: &mut Vec<Turn>, block: Json)
    ensures
        turns_view(final(turns)@) == with_result(turns_view(old(turns)@), block@),
{
    let ghost before = turns_view(turns@);
    let ghost shown = block@;
    match turns.pop() {
        None => {
            let mut blocks: Vec<Json> = Vec::new();
            blocks.push(block);
            assert(schema::items_view(blocks@) =~= seq![shown]);
            turns.push(Turn { user: true, content: TurnContent::Blocks(blocks) });
            assert(turns_view(turns@) =~= with_result(before, shown));
        },
        Some(last) => {
            assert(before.last() == last@);
            let Turn { user, content } = last;
            match content {
                TurnContent::Blocks(mut blocks) => {
                    if user {
                        schema::add_item(&mut blocks, block);
                        turns.push(Turn { user: true, content: TurnContent::Blocks(blocks) });
                        assert(turns_view(turns@) =~= with_result(before, shown));
                    } else {
                        turns.push(Turn { user, content: TurnContent::Blocks(blocks) });
                        assert(turns_view(turns@) =~= before);
                        let mut fresh: Vec<Json> = Vec::new();
                        fresh.push(block);
                        assert(schema::items_view(fresh@) =~= seq![shown]);
                        turns.push(Turn { user: true, content: TurnContent::Blocks(fresh) });
                        assert(turns_view(turns@) =~= with_result(before, shown));
                    }
                },
                TurnContent::Text(s) => {
                    turns.push(Turn { user, content: TurnContent::Text(s) });
                    assert(turns_view(turns@) =~= before);
                    let mut fresh: Vec<Json> = Vec::new();
                    fresh.push(block);
                    assert(schema::items_view(fresh@) =~= seq![shown]);
                    turns.push(Turn { user: true, content: TurnContent::Blocks(fresh) });
                    assert(turns_view(turns@) =~= with_result(before, shown));
                },
            }
        },
    }
}

fn add_message(turns: &mut Vec<Turn>, message: &Message)
    ensures
        turns_view(final(turns)@) == with_message(turns_view(old(turns)@), message@),
{
    let ghost before = turns_view(turns@);
    match message {
        Message::System { .. } => {},
        Message::User { content } => {
            turns.push(Turn { user: true, content: TurnContent::Text(content.clone()) });
            assert(turns_view(turns@) =~= with_message(before, message@));
        },
        Message::Assistant { content, tool_calls, reasoning } => {
            let blocks = assistant_blocks(content, tool_calls, reasoning);
            let ghost shown = schema::items_view(blocks@);
            turns.push(Turn { user: false, content: TurnContent::Blocks(blocks) });
            assert(turns_view(turns@) =~= before.push(
                TurnView { user: false, content: json::JsonView::Array(shown) },
            ));
        },
        Message::Tool { content, tool_call_id } => {
            let block = schema::triple(
                "type",
                schema::text_value("tool_result"),
                "tool_use_id",
                schema::text_value(tool_call_id.as_str()),
                "content",
                schema::text_value(content.as_str()),
            );
            add_result(turns, block);
        },
    }
}

fn turn_json(turn: Turn) -> (r: Json)
    ensures
        r@ == turn_wire(turn@),
{
    let Turn { user, content } = turn;
    let role = if user {
        "user"
    } else {
        "assistant"
    };
    let held = match content {
        TurnContent::Text(s) => schema::text_value(s.as_str()),
        TurnContent::Blocks(b) => schema::array(b),
    };
    schema::pair("role", schema::text_value(role), "content", held)
}

fn turns_json(messages: &Vec<Message>) -> (r: Json)
    ensures
        r@ == turns_wire(turns_spec(model::messages_view(messages@))),
{
    let ghost all = model::messages_view(messages@);
    let mut turns: Vec<Turn> = Vec::new();
    assert(turns_view(turns@) =~= seq![]);
    let mut i: usize = 0;
    while i < messages.len()
        invariant
            i <= messages@.len(),
            all == model::messages_view(messages@),
            turns_view(turns@) == turns_spec(all.take(i as int)),
        decreases messages@.len() - i,
    {
        add_message(&mut turns, &messages[i]);
        assert(all.take(i + 1).drop_last() =~= all.take(i as int));
        i = i + 1;
    }
    assert(all.take(all.len() as int) =~= all);
    let ghost views = turns_view(turns@);
    let ghost wires = Seq::new(views.len(), |i: int| turn_wire(views[i]));
    let mut items: Vec<Json> = Vec::new();
    assert(schema::items_view(items@) =~= wires.take(0));
    while turns.len() > 0
        invariant
            turns@.len() <= views.len(),
            turns_view(turns@) == views.skip(views.len() - turns@.len()),
            wires == Seq::new(views.len(), |i: int| turn_wire(views[i])),
            schema::items_view(items@) == wires.take(views.len() - turns@.len()),
        decreases turns@.len(),
    {
        let ghost done = (views.len() - turns@.len()) as int;
        assert(turns_view(turns@)[0] == views[done]);
        let turn = turns.remove(0);
        assert(turn@ == views[done]);
        schema::add_item(&mut items, turn_json(turn));
        assert(wires.take(done).push(wires[done]) =~= wires.take(done + 1));
        assert(turns_view(turns@) =~= views.skip(done + 1)) by {
            assert forall|k: int| 0 <= k < turns@.len() implies turns_view(turns@)[k]
                == views.skip(done + 1)[k] by {
                assert(views.skip(done)[k + 1] == views[done + 1 + k]);
            }
        }
    }
    assert(wires.take(views.len() as int) =~= wires);
    schema::array(items)
}

fn system_json(messages: &Vec<Message>) -> (r: Option<Json>)
    ensures
        model::option_json(r) == system_wire(model::messages_view(messages@)),
{
    let ghost all = model::messages_view(messages@);
    let mut parts: Vec<String> = Vec::new();
    assert(text::views(parts@) =~= seq![]);
    let mut i: usize = 0;
    while i < messages.len()
        invariant
            i <= messages@.len(),
            all == model::messages_view(messages@),
            text::views(parts@) == system_parts(all.take(i as int)),
        decreases messages@.len() - i,
    {
        match &messages[i] {
            Message::System { content } => {
                text::add_text(&mut parts, content.clone());
            },
            _ => {},
        }
        assert(all.take(i + 1).drop_last() =~= all.take(i as int));
        i = i + 1;
    }
    assert(all.take(all.len() as int) =~= all);
    if parts.len() == 0 {
        None
    } else {
        let joined = text::join(&parts, "\n\n");
        Some(schema::text_value(joined.as_str()))
    }
}

fn tools_json(tools: &Vec<ToolDefinition>) -> (r: Option<Json>)
    ensures
        model::option_json(r) == tools_wire(Seq::new(tools@.len(), |i: int| tools@[i]@)),
{
    if tools.len() == 0 {
        return None;
    }
    let ghost views = Seq::new(tools@.len(), |i: int| tools@[i]@);
    let mut items: Vec<Json> = Vec::new();
    let mut i: usize = 0;
    while i < tools.len()
        invariant
            i <= tools@.len(),
            views == Seq::new(tools@.len(), |i: int| tools@[i]@),
            items@.len() == i,
            forall|k: int| 0 <= k < i ==> (#[trigger] items@[k])@ == tool_wire(views[k]),
        decreases tools@.len() - i,
    {
        let tool = &tools[i];
        items.push(
            schema::triple(
                "name",
                schema::text_value(tool.name.as_str()),
                "description",
                schema::text_value(tool.description.as_str()),
                "input_schema",
                json::copy(&tool.parameters),
            ),
        );
        i = i + 1;
    }
    assert(schema::items_view(items@) =~= Seq::new(views.len(), |i: int| tool_wire(views[i])));
    Some(schema::array(items))
}

fn choice_json(choice: &ToolChoice) -> (r: Json)
    ensures
        r@ == choice_wire(choice@),
{
    match choice {
        ToolChoice::Any => schema::single("type", schema::text_value("any")),
        ToolChoice::Tool(name) => schema::pair(
            "type",
            schema::text_value("tool"),
            "name",
            schema::text_value(name.as_str()),
        ),
    }
}

fn format_json(wanted: &Json) -> (r: Json)
    ensures
        r@ == format_wire(wanted@),
{
    schema::single(
        "format",
        schema::pair(
            "type",
            schema::text_value("json_schema"),
            "schema",
            json::copy(wanted),
        ),
    )
}

/// A request in its wire form.
pub fn messages_request(request: &ModelRequest) -> (r: Json)
    ensures
        r@ == request_wire(request@),
{
    let limit: u64 = match request.sampling.max_tokens {
        Some(n) => n as u64,
        None => DEFAULT_MAX_TOKENS as u64,
    };
    let mut fields: Vec<(String, Json)> = Vec::new();
    schema::add_field(&mut fields, "model", schema::text_value(request.model));
    schema::add_field(&mut fields, "max_tokens", schema::count(limit));
    let ghost head = seq![
        ("model"@, json::JsonView::Text(request.model@)),
        ("max_tokens"@, json::JsonView::Number(json::NumberView::Unsigned(limit))),
    ];
    assert(schema::fields_view(fields@) =~= head);
    schema::add_optional(&mut fields, "system", system_json(request.messages));
    let turns = turns_json(request.messages);
    let ghost before = schema::fields_view(fields@);
    let ghost added = ("messages"@, turns@);
    schema::add_field(&mut fields, "messages", turns);
    assert(before.push(added) =~= before + seq![added]);
    schema::add_optional(&mut fields, "tools", tools_json(request.tools));
    schema::add_optional(
        &mut fields,
        "temperature",
        request::decimal_json(&request.sampling.temperature),
    );
    schema::add_optional(&mut fields, "top_p", request::decimal_json(&request.sampling.top_p));
    let choice: Option<Json> = match &request.constraints.tool_choice {
        Some(c) => Some(choice_json(c)),
        None => None,
    };
    schema::add_optional(&mut fields, "tool_choice", choice);
    let wanted: Option<Json> = match &request.constraints.output_schema {
        Some(s) => Some(format_json(s)),
        None => None,
    };
    schema::add_optional(&mut fields, "output_config", wanted);
    let streamed: Option<Json> = if request.stream {
        Some(schema::flag(true))
    } else {
        None
    };
    schema::add_optional(&mut fields, "stream", streamed);
    schema::object(fields)
}

/// Results of one round share a turn: a result that follows another adds no
/// turn, and stands behind it in the same one.
pub proof fn law_results_of_a_round_share_a_turn(
    messages: Seq<model::MessageView>,
    first: model::MessageView,
    second: model::MessageView,
)
    requires
        first is Tool,
        second is Tool,
    ensures
        ({
            let one = turns_spec(messages.push(first));
            let two = turns_spec(messages.push(first).push(second));
            &&& two.len() == one.len() > 0
            &&& two.drop_last() == one.drop_last()
            &&& one.last().user && one.last().content is Array
            &&& two.last().user && two.last().content is Array
            &&& two.last().content->Array_0 == one.last().content->Array_0.push(
                result_block(second->Tool_content, second->tool_call_id),
            )
        }),
{
    assert(messages.push(first).drop_last() =~= messages);
    assert(messages.push(first).push(second).drop_last() =~= messages.push(first));
    let one = turns_spec(messages.push(first));
    let two = turns_spec(messages.push(first).push(second));
    assert(two.drop_last() =~= one.drop_last());
}

// ---------------------------------------------------------------------------
// Token counts
// ---------------------------------------------------------------------------

/// Token counts in their wire form. The input does not count what came from
/// a cache or went into one.
pub struct WireUsage {
    pub input_tokens: u64,
    pub output_tokens: u64,
    pub cache_read_input_tokens: u64,
    pub cache_creation_input_tokens: u64,
}

/// The whole context of a request, as a machine word counts it.
pub open spec fn context_sum(u: WireUsage) -> u64 {
    ((u.input_tokens + u.cache_read_input_tokens + u.cache_creation_input_tokens)
        % 0x1_0000_0000_0000_0000) as u64
}

impl WireUsage {
    /// The counts; the prompt is the whole context.
    pub fn into_canonical(&self) -> (r: Usage)
        ensures
            r == (Usage {
                prompt_tokens: context_sum(*self),
                completion_tokens: self.output_tokens,
                cache_read_tokens: self.cache_read_input_tokens,
                reasoning_tokens: 0,
            }),
    {
        Usage {
            prompt_tokens: self.input_tokens.wrapping_add(
                self.cache_read_input_tokens,
            ).wrapping_add(self.cache_creation_input_tokens),
            completion_tokens: self.output_tokens,
            cache_read_tokens: self.cache_read_input_tokens,
            reasoning_tokens: 0,
        }
    }
}

/// A count: zero where there is none, nothing where it is no whole number.
pub open spec fn count_or_zero(value: Option<json::JsonView>) -> Option<u64> {
    match value {
        Some(json::JsonView::Number(json::NumberView::Unsigned(n))) => Some(n),
        Some(_) => None,
        None => Some(0),
    }
}

/// The item of a list, if it is that long.
pub open spec fn item(items: Seq<json::JsonView>, i: int) -> Option<json::JsonView> {
    if i < items.len() {
        Some(items[i])
    } else {
        None
    }
}

/// Four counts, where all of them are counts.
pub open spec fn four_counts(
    a: Option<u64>,
    b: Option<u64>,
    c: Option<u64>,
    d: Option<u64>,
) -> Option<WireUsage> {
    match (a, b, c, d) {
        (Some(a), Some(b), Some(c), Some(d)) => Some(
            WireUsage {
                input_tokens: a,
                output_tokens: b,
                cache_read_input_tokens: c,
                cache_creation_input_tokens: d,
            },
        ),
        _ => None,
    }
}

/// The token counts that a value holds: an object with the fields, or a list
/// of them in their order.
pub open spec fn usage_spec(value: json::JsonView) -> Option<WireUsage> {
    match value {
        json::JsonView::Object(_) => four_counts(
            count_or_zero(value.field("input_tokens"@)),
            count_or_zero(value.field("output_tokens"@)),
            count_or_zero(value.field("cache_read_input_tokens"@)),
            count_or_zero(value.field("cache_creation_input_tokens"@)),
        ),
        json::JsonView::Array(items) => if items.len() > 4 {
            None
        } else {
            four_counts(
                count_or_zero(item(items, 0)),
                count_or_zero(item(items, 1)),
                count_or_zero(item(items, 2)),
                count_or_zero(item(items, 3)),
            )
        },
        _ => None,
    }
}

fn read_count(value: Option<&Json>) -> (r: Option<u64>)
    ensures
        r == count_or_zero(
            match value {
                Some(v) => Some(v@),
                None => None,
            },
        ),
{
    match value {
        Some(Json::Number(Number::Unsigned(n))) => Some(*n),
        Some(_) => None,
        None => Some(0),
    }
}

fn gather(a: Option<u64>, b: Option<u64>, c: Option<u64>, d: Option<u64>) -> (r: Option<WireUsage>)
    ensures
        r == four_counts(a, b, c, d),
{
    match (a, b, c, d) {
        (Some(a), Some(b), Some(c), Some(d)) => Some(
            WireUsage {
                input_tokens: a,
                output_tokens: b,
                cache_read_input_tokens: c,
                cache_creation_input_tokens: d,
            },
        ),
        _ => None,
    }
}

/// The token counts that a value holds.
pub fn read_usage(value: &Json) -> (r: Option<WireUsage>)
    ensures
        r == usage_spec(value@),
{
    match value {
        Json::Object(_) => gather(
            read_count(value.get("input_tokens")),
            read_count(value.get("output_tokens")),
            read_count(value.get("cache_read_input_tokens")),
            read_count(value.get("cache_creation_input_tokens")),
        ),
        Json::Array(items) => {
            let n: usize = items.len();
            assert(json::json_view(*value)->Array_0 =~= schema::items_view(items@));
            if n > 4 {
                return None;
            }
            let a: Option<&Json> = if n > 0 {
                Some(&items[0])
            } else {
                None
            };
            let b: Option<&Json> = if n > 1 {
                Some(&items[1])
            } else {
                None
            };
            let c: Option<&Json> = if n > 2 {
                Some(&items[2])
            } else {
                None
            };
            let d: Option<&Json> = if n > 3 {
                Some(&items[3])
            } else {
                None
            };
            gather(read_count(a), read_count(b), read_count(c), read_count(d))
        },
        _ => None,
    }
}

// ---------------------------------------------------------------------------
// Whole replies
// ---------------------------------------------------------------------------

/// The reason for which a reply is incomplete or withheld, if it is.
pub open spec fn truncation_spec(reason: Option<Seq<char>>) -> Option<Seq<char>> {
    match reason {
        Some(r) => if r == "end_turn"@ || r == "tool_use"@ || r == "stop_sequence"@ {
            None
        } else {
            Some(r)
        },
        None => None,
    }
}

/// The reason for which a reply is incomplete or withheld, if it is. A
/// refusal counts: what there is must not pass for an answer.
pub fn truncation_reason(stop_reason: Option<String>) -> (r: Option<String>)
    ensures
        model::option_text(r) == truncation_spec(model::option_text(stop_reason)),
{
    match stop_reason {
        Some(reason) => {
            let s = reason.as_str();
            if text::same(s, "end_turn") || text::same(s, "tool_use") || text::same(
                s,
                "stop_sequence",
            ) {
                None
            } else {
                Some(reason)
            }
        },
        None => None,
    }
}

/// A whole reply in its wire form.
pub struct MessagesResponse {
    pub content: Vec<Json>,
    pub stop_reason: Option<String>,
    pub usage: Option<WireUsage>,
}

/// Whether a block is of a kind.
pub open spec fn is_kind(block: json::JsonView, kind: Seq<char>) -> bool {
    block.text_field("type"@) == Some(kind)
}

/// The text of the text blocks, joined.
pub open spec fn reply_text(blocks: Seq<json::JsonView>) -> Seq<char>
    decreases blocks.len(),
{
    if blocks.len() == 0 {
        seq![]
    } else {
        let before = reply_text(blocks.drop_last());
        if is_kind(blocks.last(), "text"@) {
            before + blocks.last().text_or_empty("text"@)
        } else {
            before
        }
    }
}

/// The call of a block.
pub open spec fn block_call(block: json::JsonView) -> model::CallView {
    model::CallView {
        id: block.text_or_empty("id"@),
        name: block.text_or_empty("name"@),
        arguments: match block.field("input"@) {
            Some(v) => v,
            None => json::JsonView::Null,
        },
    }
}

/// The calls of the call blocks.
pub open spec fn reply_calls(blocks: Seq<json::JsonView>) -> Seq<model::CallView>
    decreases blocks.len(),
{
    if blocks.len() == 0 {
        seq![]
    } else {
        let before = reply_calls(blocks.drop_last());
        if is_kind(blocks.last(), "tool_use"@) {
            before.push(block_call(blocks.last()))
        } else {
            before
        }
    }
}

/// The reasoning blocks, as they came.
pub open spec fn reply_reasoning(blocks: Seq<json::JsonView>) -> Seq<json::JsonView>
    decreases blocks.len(),
{
    if blocks.len() == 0 {
        seq![]
    } else {
        let before = reply_reasoning(blocks.drop_last());
        if is_kind(blocks.last(), "thinking"@) || is_kind(blocks.last(), "redacted_thinking"@) {
            before.push(blocks.last())
        } else {
            before
        }
    }
}

/// A text, or nothing where it is empty.
pub open spec fn unless_empty(s: Seq<char>) -> Option<Seq<char>> {
    if s.len() == 0 {
        None
    } else {
        Some(s)
    }
}

/// A list, or nothing where it is empty.
pub open spec fn listed_reasoning(blocks: Seq<json::JsonView>) -> Option<json::JsonView> {
    if blocks.len() == 0 {
        None
    } else {
        Some(json::JsonView::Array(blocks))
    }
}

fn kind_of(block: &Json, kind: &str) -> (r: bool)
    ensures
        r == is_kind(block@, kind@),
{
    match block.text_field("type") {
        Some(s) => text::same(s, kind),
        None => false,
    }
}

fn read_call(block: &Json) -> (r: ToolCall)
    ensures
        r@ == block_call(block@),
{
    ToolCall {
        id: block.text_or_empty("id"),
        function: FunctionCall {
            name: block.text_or_empty("name"),
            arguments: match block.get("input") {
                Some(v) => json::copy(v),
                None => Json::Null,
            },
        },
    }
}

fn content_of(text: String) -> (r: Option<String>)
    ensures
        model::option_text(r) == unless_empty(text@),
{
    if text.as_str().is_empty() {
        None
    } else {
        Some(text)
    }
}

fn reasoning_of(blocks: Vec<Json>) -> (r: Option<Json>)
    ensures
        model::option_json(r) == listed_reasoning(schema::items_view(blocks@)),
{
    if blocks.len() == 0 {
        None
    } else {
        Some(schema::array(blocks))
    }
}

fn add_call(calls: &mut Vec<ToolCall>, call: ToolCall)
    ensures
        model::calls_view(final(calls)@) == model::calls_view(old(calls)@).push(call@),
{
    let ghost before = calls@;
    calls.push(call);
    assert(model::calls_view(calls@) =~= model::calls_view(before).push(call@));
}

impl MessagesResponse {
    /// The reply.
    pub fn into_canonical(self) -> (r: ModelResponse)
        ensures
            ({
                let blocks = schema::items_view(self.content@);
                &&& model::option_text(r.content) == unless_empty(reply_text(blocks))
                &&& model::calls_view(r.tool_calls@) == reply_calls(blocks)
                &&& model::option_json(r.reasoning) == listed_reasoning(reply_reasoning(blocks))
            }),
            r.usage == (match self.usage {
                Some(u) => Some(
                    Usage {
                        prompt_tokens: context_sum(u),
                        completion_tokens: u.output_tokens,
                        cache_read_tokens: u.cache_read_input_tokens,
                        reasoning_tokens: 0,
                    },
                ),
                None => None,
            }),
            model::option_text(r.truncation) == truncation_spec(
                model::option_text(self.stop_reason),
            ),
    {
        let MessagesResponse { content, stop_reason, usage } = self;
        let ghost all = schema::items_view(content@);
        let mut text = String::new();
        let mut calls: Vec<ToolCall> = Vec::new();
        let mut reasoning: Vec<Json> = Vec::new();
        let mut i: usize = 0;
        proof {
            assert(text@ =~= seq![]);
            assert(model::calls_view(calls@) =~= seq![]);
            assert(schema::items_view(reasoning@) =~= seq![]);
        }
        while i < content.len()
            invariant
                i <= content@.len(),
                all == schema::items_view(content@),
                text@ == reply_text(all.take(i as int)),
                model::calls_view(calls@) == reply_calls(all.take(i as int)),
                schema::items_view(reasoning@) == reply_reasoning(all.take(i as int)),
            decreases content@.len() - i,
        {
            let block = &content[i];
            proof {
                assert(all.take(i + 1).drop_last() =~= all.take(i as int));
                reveal_strlit("text");
                reveal_strlit("tool_use");
                reveal_strlit("thinking");
                reveal_strlit("redacted_thinking");
                assert("text"@.len() != "tool_use"@.len());
                assert("thinking"@[1] != "tool_use"@[1]);
            }
            if kind_of(block, "text") {
                let part = block.text_or_empty("text");
                text.append(part.as_str());
            } else if kind_of(block, "tool_use") {
                add_call(&mut calls, read_call(block));
            } else if kind_of(block, "thinking") || kind_of(block, "redacted_thinking") {
                schema::add_item(&mut reasoning, json::copy(block));
            }
            i = i + 1;
        }
        assert(all.take(all.len() as int) =~= all);
        ModelResponse {
            content: content_of(text),
            tool_calls: calls,
            reasoning: reasoning_of(reasoning),
            usage: match usage {
                Some(u) => Some(u.into_canonical()),
                None => None,
            },
            truncation: truncation_reason(stop_reason),
        }
    }
}

// ---------------------------------------------------------------------------
// Streams
// ---------------------------------------------------------------------------

/// A block that is being assembled.
pub enum PartialBlock {
    Text,
    ToolUse { id: String, name: String, json: String },
    Thinking { thinking: String, signature: String },
    /// Comes whole when it begins.
    Redacted(Json),
    Other,
}

/// What a block that is being assembled stands for.
pub enum BlockView {
    Text,
    ToolUse { id: Seq<char>, name: Seq<char>, json: Seq<char> },
    Thinking { thinking: Seq<char>, signature: Seq<char> },
    Redacted(json::JsonView),
    Other,
}

impl View for PartialBlock {
    type V = BlockView;

    open spec fn view(&self) -> BlockView {
        match self {
            PartialBlock::Text => BlockView::Text,
            PartialBlock::ToolUse { id, name, json } => BlockView::ToolUse {
                id: id@,
                name: name@,
                json: json@,
            },
            PartialBlock::Thinking { thinking, signature } => BlockView::Thinking {
                thinking: thinking@,
                signature: signature@,
            },
            PartialBlock::Redacted(j) => BlockView::Redacted(j@),
            PartialBlock::Other => BlockView::Other,
        }
    }
}

/// The views of blocks that are being assembled.
pub open spec fn blocks_view(blocks: Seq<(u64, PartialBlock)>) -> Seq<(u64, BlockView)> {
    Seq::new(blocks.len(), |i: int| (blocks[i].0, blocks[i].1@))
}

/// A streamed reply that is being assembled.
pub struct StreamAccumulator {
    pub content: String,
    pub blocks: Vec<(u64, PartialBlock)>,
    pub tool_calls: Vec<ToolCall>,
    pub reasoning: Vec<Json>,
    pub usage: Usage,
    pub saw_usage: bool,
    pub stop_reason: Option<String>,
    pub finished: bool,
}

/// What a reply that is being assembled stands for.
pub struct StreamView {
    pub content: Seq<char>,
    pub blocks: Seq<(u64, BlockView)>,
    pub tool_calls: Seq<model::CallView>,
    pub reasoning: Seq<json::JsonView>,
    pub usage: Usage,
    pub saw_usage: bool,
    pub stop_reason: Option<Seq<char>>,
    pub finished: bool,
}

impl View for StreamAccumulator {
    type V = StreamView;

    open spec fn view(&self) -> StreamView {
        StreamView {
            content: self.content@,
            blocks: blocks_view(self.blocks@),
            tool_calls: model::calls_view(self.tool_calls@),
            reasoning: schema::items_view(self.reasoning@),
            usage: self.usage,
            saw_usage: self.saw_usage,
            stop_reason: model::option_text(self.stop_reason),
            finished: self.finished,
        }
    }
}

/// A reply of which nothing came yet.
pub open spec fn blank_stream() -> StreamView {
    StreamView {
        content: seq![],
        blocks: seq![],
        tool_calls: seq![],
        reasoning: seq![],
        usage: Usage {
            prompt_tokens: 0,
            completion_tokens: 0,
            cache_read_tokens: 0,
            reasoning_tokens: 0,
        },
        saw_usage: false,
        stop_reason: None,
        finished: false,
    }
}

/// The field of a field.
pub open spec fn inner(event: json::JsonView, outer: Seq<char>, name: Seq<char>) -> Option<
    json::JsonView,
> {
    match event.field(outer) {
        Some(v) => v.field(name),
        None => None,
    }
}

/// The number of the block that an event speaks of.
pub open spec fn event_index(event: json::JsonView) -> u64 {
    match event.count_field("index"@) {
        Some(n) => n,
        None => 0,
    }
}

/// The block that begins.
pub open spec fn opened(block: json::JsonView) -> BlockView {
    if is_kind(block, "text"@) {
        BlockView::Text
    } else if is_kind(block, "tool_use"@) {
        BlockView::ToolUse {
            id: block.text_or_empty("id"@),
            name: block.text_or_empty("name"@),
            json: seq![],
        }
    } else if is_kind(block, "thinking"@) {
        BlockView::Thinking { thinking: seq![], signature: seq![] }
    } else if is_kind(block, "redacted_thinking"@) {
        BlockView::Redacted(block)
    } else {
        BlockView::Other
    }
}

/// The block of an event.
pub open spec fn event_block(event: json::JsonView) -> json::JsonView {
    match event.field("content_block"@) {
        Some(v) => v,
        None => json::JsonView::Null,
    }
}

/// The first open block with a number, from a place on.
pub open spec fn position_from(blocks: Seq<(u64, BlockView)>, index: u64, from: int) -> Option<int>
    decreases blocks.len() - from,
{
    if from < 0 || from >= blocks.len() {
        None
    } else if blocks[from].0 == index {
        Some(from)
    } else {
        position_from(blocks, index, from + 1)
    }
}

/// The text that an event adds to the answer.
pub open spec fn shown_text(event: json::JsonView) -> Seq<char> {
    if is_kind(event, "content_block_delta"@) {
        match event.field("delta"@) {
            Some(delta) => if is_kind(delta, "text_delta"@) {
                delta.text_or_empty("text"@)
            } else {
                seq![]
            },
            None => seq![],
        }
    } else {
        seq![]
    }
}

/// A block with a fragment added to it.
pub open spec fn grown_block(block: BlockView, delta: json::JsonView) -> BlockView {
    match block {
        BlockView::ToolUse { id, name, json } => if is_kind(delta, "input_json_delta"@) {
            BlockView::ToolUse { id, name, json: json + delta.text_or_empty("partial_json"@) }
        } else {
            block
        },
        BlockView::Thinking { thinking, signature } => if is_kind(delta, "thinking_delta"@) {
            BlockView::Thinking {
                thinking: thinking + delta.text_or_empty("thinking"@),
                signature,
            }
        } else if is_kind(delta, "signature_delta"@) {
            BlockView::Thinking {
                thinking,
                signature: signature + delta.text_or_empty("signature"@),
            }
        } else {
            block
        },
        _ => block,
    }
}

/// The open blocks with a fragment added to the one with the number.
pub open spec fn grown_blocks(
    blocks: Seq<(u64, BlockView)>,
    index: u64,
    delta: json::JsonView,
) -> Seq<(u64, BlockView)> {
    match position_from(blocks, index, 0) {
        Some(i) => blocks.update(i, (blocks[i].0, grown_block(blocks[i].1, delta))),
        None => blocks,
    }
}

/// A reply after a fragment.
pub open spec fn with_delta(s: StreamView, event: json::JsonView) -> StreamView {
    match event.field("delta"@) {
        Some(delta) => StreamView {
            content: s.content + shown_text(event),
            blocks: grown_blocks(s.blocks, event_index(event), delta),
            ..s
        },
        None => s,
    }
}

/// A block of reasoning.
pub open spec fn thinking_block(thinking: Seq<char>, signature: Seq<char>) -> json::JsonView {
    json::JsonView::Object(
        seq![
            ("type"@, json::JsonView::Text("thinking"@)),
            ("thinking"@, json::JsonView::Text(thinking)),
            ("signature"@, json::JsonView::Text(signature)),
        ],
    )
}

/// A reply after a block ended.
pub open spec fn closed_block(s: StreamView, index: u64) -> StreamView {
    match position_from(s.blocks, index, 0) {
        Some(i) => {
            let rest = StreamView { blocks: s.blocks.remove(i), ..s };
            match s.blocks[i].1 {
                BlockView::ToolUse { id, name, json } => StreamView {
                    tool_calls: s.tool_calls.push(
                        model::CallView { id, name, arguments: openai::decoded(json) },
                    ),
                    ..rest
                },
                BlockView::Thinking { thinking, signature } => StreamView {
                    reasoning: s.reasoning.push(thinking_block(thinking, signature)),
                    ..rest
                },
                BlockView::Redacted(block) => StreamView {
                    reasoning: s.reasoning.push(block),
                    ..rest
                },
                _ => rest,
            }
        },
        None => s,
    }
}

/// A reply after its beginning: the context is counted.
pub open spec fn with_start(s: StreamView, event: json::JsonView) -> StreamView {
    match inner(event, "message"@, "usage"@) {
        Some(raw) => match usage_spec(raw) {
            Some(u) => StreamView {
                usage: Usage {
                    prompt_tokens: context_sum(u),
                    cache_read_tokens: u.cache_read_input_tokens,
                    ..s.usage
                },
                saw_usage: true,
                ..s
            },
            None => s,
        },
        None => s,
    }
}

/// The text at a field of a field.
pub open spec fn inner_text(event: json::JsonView, outer: Seq<char>, name: Seq<char>) -> Option<
    Seq<char>,
> {
    match event.field(outer) {
        Some(v) => v.text_field(name),
        None => None,
    }
}

/// The count at a field of a field.
pub open spec fn inner_count(event: json::JsonView, outer: Seq<char>, name: Seq<char>) -> Option<
    u64,
> {
    match event.field(outer) {
        Some(v) => v.count_field(name),
        None => None,
    }
}

/// A reply after a report on the whole message.
pub open spec fn with_report(s: StreamView, event: json::JsonView) -> StreamView {
    let stopped = match inner_text(event, "delta"@, "stop_reason"@) {
        Some(reason) => StreamView { stop_reason: Some(reason), ..s },
        None => s,
    };
    match inner_count(event, "usage"@, "output_tokens"@) {
        Some(n) => StreamView {
            usage: Usage { completion_tokens: n, ..s.usage },
            saw_usage: true,
            ..stopped
        },
        None => stopped,
    }
}

/// A reply after an event.
pub open spec fn stepped(s: StreamView, event: json::JsonView) -> StreamView {
    if is_kind(event, "message_start"@) {
        with_start(s, event)
    } else if is_kind(event, "content_block_start"@) {
        StreamView {
            blocks: s.blocks.push((event_index(event), opened(event_block(event)))),
            ..s
        }
    } else if is_kind(event, "content_block_delta"@) {
        with_delta(s, event)
    } else if is_kind(event, "content_block_stop"@) {
        closed_block(s, event_index(event))
    } else if is_kind(event, "message_delta"@) {
        with_report(s, event)
    } else if is_kind(event, "message_stop"@) {
        StreamView { finished: true, ..s }
    } else {
        s
    }
}

/// A reply after blocks ended, one after the other.
pub open spec fn closed_blocks(s: StreamView, indices: Seq<u64>) -> StreamView
    decreases indices.len(),
{
    if indices.len() == 0 {
        s
    } else {
        closed_block(closed_blocks(s, indices.drop_last()), indices.last())
    }
}

/// The numbers of the open blocks.
pub open spec fn open_indices(s: StreamView) -> Seq<u64> {
    Seq::new(s.blocks.len(), |i: int| s.blocks[i].0)
}

fn index_of(event: &Json) -> (r: u64)
    ensures
        r == event_index(event@),
{
    match event.count_field("index") {
        Some(n) => n,
        None => 0,
    }
}

fn begin_block(block: Option<&Json>) -> (r: PartialBlock)
    ensures
        r@ == opened(
            match block {
                Some(b) => b@,
                None => json::JsonView::Null,
            },
        ),
{
    match block {
        None => PartialBlock::Other,
        Some(b) => {
            if kind_of(b, "text") {
                PartialBlock::Text
            } else if kind_of(b, "tool_use") {
                let json = String::new();
                assert(json@ =~= seq![]);
                PartialBlock::ToolUse {
                    id: b.text_or_empty("id"),
                    name: b.text_or_empty("name"),
                    json,
                }
            } else if kind_of(b, "thinking") {
                let thinking = String::new();
                let signature = String::new();
                assert(thinking@ =~= seq![]);
                assert(signature@ =~= seq![]);
                PartialBlock::Thinking { thinking, signature }
            } else if kind_of(b, "redacted_thinking") {
                PartialBlock::Redacted(json::copy(b))
            } else {
                PartialBlock::Other
            }
        },
    }
}

fn grow_block(block: PartialBlock, delta: &Json) -> (r: PartialBlock)
    ensures
        r@ == grown_block(block@, delta@),
{
    match block {
        PartialBlock::ToolUse { id, name, mut json } => {
            if kind_of(delta, "input_json_delta") {
                let part = delta.text_or_empty("partial_json");
                json.append(part.as_str());
            }
            PartialBlock::ToolUse { id, name, json }
        },
        PartialBlock::Thinking { mut thinking, mut signature } => {
            if kind_of(delta, "thinking_delta") {
                let part = delta.text_or_empty("thinking");
                thinking.append(part.as_str());
            } else if kind_of(delta, "signature_delta") {
                let part = delta.text_or_empty("signature");
                signature.append(part.as_str());
            }
            PartialBlock::Thinking { thinking, signature }
        },
        other => other,
    }
}

fn find_block(blocks: &Vec<(u64, PartialBlock)>, index: u64) -> (r: Option<usize>)
    ensures
        match r {
            Some(i) => i < blocks@.len() && position_from(blocks_view(blocks@), index, 0) == Some(
                i as int,
            ),
            None => position_from(blocks_view(blocks@), index, 0) is None,
        },
{
    let mut i: usize = 0;
    while i < blocks.len()
        invariant
            i <= blocks@.len(),
            position_from(blocks_view(blocks@), index, 0) == position_from(
                blocks_view(blocks@),
                index,
                i as int,
            ),
        decreases blocks@.len() - i,
    {
        assert(blocks_view(blocks@)[i as int].0 == blocks@[i as int].0);
        if blocks[i].0 == index {
            return Some(i);
        }
        i = i + 1;
    }
    None
}

impl StreamAccumulator {
    /// A reply of which nothing came yet.
    pub fn new() -> (r: StreamAccumulator)
        ensures
            r@ == blank_stream(),
    {
        let r = StreamAccumulator {
            content: String::new(),
            blocks: Vec::new(),
            tool_calls: Vec::new(),
            reasoning: Vec::new(),
            usage: Usage {
                prompt_tokens: 0,
                completion_tokens: 0,
                cache_read_tokens: 0,
                reasoning_tokens: 0,
            },
            saw_usage: false,
            stop_reason: None,
            finished: false,
        };
        assert(r@.content =~= seq![]);
        assert(r@.blocks =~= seq![]);
        assert(r@.tool_calls =~= seq![]);
        assert(r@.reasoning =~= seq![]);
        r
    }

    fn grow(&mut self, index: u64, delta: &Json)
        ensures
            final(self)@ == (StreamView {
                blocks: grown_blocks(old(self)@.blocks, index, delta@),
                ..old(self)@
            }),
    {
        let ghost before = self@.blocks;
        match find_block(&self.blocks, index) {
            Some(i) => {
                let (at, block) = self.blocks.remove(i);
                assert(before[i as int] == (at, block@));
                let grown = grow_block(block, delta);
                let ghost new = (at, grown@);
                self.blocks.insert(i, (at, grown));
                assert(self@.blocks =~= before.update(i as int, new));
            },
            None => {},
        }
    }

    fn close(&mut self, index: u64)
        ensures
            final(self)@ == closed_block(old(self)@, index),
    {
        let ghost before = self@;
        match find_block(&self.blocks, index) {
            Some(i) => {
                let (at, block) = self.blocks.remove(i);
                assert(before.blocks[i as int] == (at, block@));
                assert(self@.blocks =~= before.blocks.remove(i as int));
                match block {
                    PartialBlock::ToolUse { id, name, json } => {
                        let arguments = openai::decode_arguments(json.as_str());
                        add_call(
                            &mut self.tool_calls,
                            ToolCall { id, function: FunctionCall { name, arguments } },
                        );
                    },
                    PartialBlock::Thinking { thinking, signature } => {
                        let value = schema::triple(
                            "type",
                            schema::text_value("thinking"),
                            "thinking",
                            schema::text_value(thinking.as_str()),
                            "signature",
                            schema::text_value(signature.as_str()),
                        );
                        schema::add_item(&mut self.reasoning, value);
                    },
                    PartialBlock::Redacted(value) => {
                        schema::add_item(&mut self.reasoning, value);
                    },
                    PartialBlock::Text => {},
                    PartialBlock::Other => {},
                }
            },
            None => {},
        }
    }

    /// Take an event; what it adds to the answer is handed back for display.
    /// Reasoning is kept for replay and never shown.
    pub fn apply(&mut self, event: &Json) -> (r: String)
        ensures
            final(self)@ == stepped(old(self)@, event@),
            r@ == shown_text(event@),
    {
        let nothing = String::new();
        assert(nothing@ =~= seq![]);
        let ghost before = self@;
        proof {
            reveal_strlit("message_start");
            reveal_strlit("content_block_start");
            reveal_strlit("content_block_delta");
            reveal_strlit("content_block_stop");
            reveal_strlit("message_delta");
            reveal_strlit("message_stop");
            assert("content_block_delta"@[14] == 'd');
            assert("content_block_start"@[14] == 's');
            assert("content_block_stop"@.len() == 18);
            assert("message_start"@.len() == 13);
        }
        if kind_of(event, "message_start") {
            let raw = match event.get("message") {
                Some(m) => m.get("usage"),
                None => None,
            };
            match raw {
                Some(raw) => match read_usage(raw) {
                    Some(u) => {
                        let counted = u.into_canonical();
                        self.usage.prompt_tokens = counted.prompt_tokens;
                        self.usage.cache_read_tokens = counted.cache_read_tokens;
                        self.saw_usage = true;
                    },
                    None => {},
                },
                None => {},
            }
            nothing
        } else if kind_of(event, "content_block_start") {
            let block = begin_block(event.get("content_block"));
            let index = index_of(event);
            let ghost new = (index, block@);
            self.blocks.push((index, block));
            assert(self@.blocks =~= before.blocks.push(new));
            nothing
        } else if kind_of(event, "content_block_delta") {
            match event.get("delta") {
                Some(delta) => {
                    let shown = if kind_of(delta, "text_delta") {
                        delta.text_or_empty("text")
                    } else {
                        nothing
                    };
                    self.content.append(shown.as_str());
                    self.grow(index_of(event), delta);
                    shown
                },
                None => nothing,
            }
        } else if kind_of(event, "content_block_stop") {
            self.close(index_of(event));
            nothing
        } else if kind_of(event, "message_delta") {
            match event.get("delta") {
                Some(delta) => match delta.text_field("stop_reason") {
                    Some(reason) => {
                        self.stop_reason = Some(reason.to_owned());
                    },
                    None => {},
                },
                None => {},
            }
            match event.get("usage") {
                Some(usage) => match usage.count_field("output_tokens") {
                    Some(n) => {
                        self.usage.completion_tokens = n;
                        self.saw_usage = true;
                    },
                    None => {},
                },
                None => {},
            }
            nothing
        } else {
            if kind_of(event, "message_stop") {
                self.finished = true;
            }
            nothing
        }
    }

    /// The reply. Blocks that the stream left open are closed in their order.
    pub fn finish(self) -> (r: ModelResponse)
        ensures
            ({
                let s = closed_blocks(self@, open_indices(self@));
                &&& model::option_text(r.content) == unless_empty(s.content)
                &&& model::calls_view(r.tool_calls@) == s.tool_calls
                &&& model::option_json(r.reasoning) == listed_reasoning(s.reasoning)
                &&& r.usage == (if s.saw_usage {
                    Some(s.usage)
                } else {
                    None
                })
                &&& model::option_text(r.truncation) == truncation_spec(s.stop_reason)
            }),
    {
        let mut state = self;
        let ghost start = state@;
        let ghost all = open_indices(start);
        let mut indices: Vec<u64> = Vec::new();
        let mut i: usize = 0;
        while i < state.blocks.len()
            invariant
                state@ == start,
                i <= state.blocks@.len(),
                all == open_indices(start),
                indices@ == all.take(i as int),
                state.blocks@.len() == all.len(),
            decreases state.blocks@.len() - i,
        {
            let at: u64 = state.blocks[i].0;
            assert(start.blocks[i as int].0 == at);
            indices.push(at);
            assert(all.take(i as int).push(all[i as int]) =~= all.take(i + 1));
            i = i + 1;
        }
        assert(indices@ =~= all);
        let mut j: usize = 0;
        assert(all.take(0) =~= seq![]);
        while j < indices.len()
            invariant
                j <= indices@.len(),
                indices@ == all,
                state@ == closed_blocks(start, all.take(j as int)),
            decreases indices@.len() - j,
        {
            let index: u64 = indices[j];
            state.close(index);
            assert(all.take(j + 1).drop_last() =~= all.take(j as int));
            j = j + 1;
        }
        assert(all.take(all.len() as int) =~= all);
        let usage: Option<Usage> = if state.saw_usage {
            Some(state.usage)
        } else {
            None
        };
        ModelResponse {
            content: content_of(state.content),
            tool_calls: state.tool_calls,
            reasoning: reasoning_of(state.reasoning),
            usage,
            truncation: truncation_reason(state.stop_reason),
        }
    }
}

// ---------------------------------------------------------------------------
// Errors
// ---------------------------------------------------------------------------

/// The message of an error, or all of it.
pub open spec fn message_text(error: json::JsonView) -> Seq<char> {
    match error.text_field("message"@) {
        Some(s) => s,
        None => json::printed(error),
    }
}

/// The words for an error.
pub open spec fn error_text(error: json::JsonView, url: Seq<char>) -> Seq<char> {
    "provider error from "@ + url + ": "@ + message_text(error) + " (type: "@
        + error.text_or_empty("type"@) + ")"@
}

/// Whether an error is worth another attempt.
pub open spec fn transient_error(error: json::JsonView) -> bool {
    let kind = error.text_or_empty("type"@);
    kind == "overloaded_error"@ || kind == "rate_limit_error"@ || kind == "api_error"@ || kind
        == "timeout_error"@
}

/// Classify an error that came inside a stream. Overload, rate limits and
/// internal errors are worth another attempt, all else is not.
pub fn in_band_error(error: &Json, url: &str) -> (r: AdapterError)
    ensures
        r.source@ == error_text(error@, url@),
        r.retryable == transient_error(error@),
        r.retry_after_ms is None,
{
    let kind = error.text_or_empty("type");
    let k = kind.as_str();
    let message = match error.text_field("message") {
        Some(s) => s.to_owned(),
        None => json::print(error),
    };
    let retryable = text::same(k, "overloaded_error") || text::same(k, "rate_limit_error")
        || text::same(k, "api_error") || text::same(k, "timeout_error");
    let mut source = text::cat5("provider error from ", url, ": ", message.as_str(), " (type: ");
    source.append(k);
    source.append(")");
    AdapterError::classified(source, retryable, None)
}

/// The error of an event.
pub open spec fn event_error(event: json::JsonView) -> json::JsonView {
    match event.field("error"@) {
        Some(v) => v,
        None => json::JsonView::Null,
    }
}

/// What an event's payload did.
pub struct EventDone {
    /// What it adds to the answer.
    pub shown: String,
    /// Whether the reply is complete.
    pub finished: bool,
}

/// Take a payload that was read. An error event ends the stream.
pub fn apply_payload(accumulator: &mut StreamAccumulator, payload: &Json, url: &str) -> (r: Result<
    EventDone,
    AdapterError,
>)
    ensures
        if is_kind(payload@, "error"@) {
            &&& r matches Err(e) && e.source@ == error_text(event_error(payload@), url@)
                && e.retryable == transient_error(event_error(payload@)) && e.retry_after_ms is None
            &&& final(accumulator)@ == old(accumulator)@
        } else {
            &&& final(accumulator)@ == stepped(old(accumulator)@, payload@)
            &&& r matches Ok(done) && done.shown@ == shown_text(payload@) && done.finished
                == final(accumulator)@.finished
        },
{
    if kind_of(payload, "error") {
        let error = match payload.get("error") {
            Some(v) => json::copy(v),
            None => Json::Null,
        };
        return Err(in_band_error(&error, url));
    }
    let shown = accumulator.apply(payload);
    Ok(EventDone { shown, finished: accumulator.finished })
}

/// The words for a payload that is no JSON.
pub open spec fn bad_payload_text(url: Seq<char>, data: Seq<char>, fault: Seq<char>) -> Seq<char> {
    "unexpected stream event from "@ + url + ": "@ + data + ": "@ + fault
}

/// Take an event of a stream: whether the stream is over, and what to show.
/// A payload that is no JSON, or an error event, is a failure.
pub fn apply_stream_event(event: SseEvent, accumulator: &mut StreamAccumulator, url: &str) -> (r:
    Result<EventDone, AdapterError>)
    ensures
        match event {
            SseEvent::Done => {
                &&& r matches Ok(done) && done.finished && done.shown@.len() == 0
                &&& final(accumulator)@ == old(accumulator)@
            },
            SseEvent::Data(data) => if data@.len() == 0 {
                &&& r matches Ok(done) && !done.finished && done.shown@.len() == 0
                &&& final(accumulator)@ == old(accumulator)@
            } else {
                match json::parsed(data@) {
                    Err(fault) => {
                        &&& r matches Err(e) && e.source@ == bad_payload_text(url@, data@, fault)
                            && !e.retryable && e.retry_after_ms is None
                        &&& final(accumulator)@ == old(accumulator)@
                    },
                    Ok(payload) => if is_kind(payload, "error"@) {
                        &&& r matches Err(e) && e.source@ == error_text(event_error(payload), url@)
                            && e.retryable == transient_error(event_error(payload))
                            && e.retry_after_ms is None
                        &&& final(accumulator)@ == old(accumulator)@
                    } else {
                        &&& final(accumulator)@ == stepped(old(accumulator)@, payload)
                        &&& r matches Ok(done) && done.shown@ == shown_text(payload)
                            && done.finished == final(accumulator)@.finished
                    },
                }
            },
        },
{
    match event {
        SseEvent::Done => Ok(EventDone { shown: String::new(), finished: true }),
        SseEvent::Data(data) => {
            if data.as_str().is_empty() {
                return Ok(EventDone { shown: String::new(), finished: false });
            }
            match json::parse(data.as_str()) {
                Err(fault) => {
                    let mut source = text::cat4(
                        "unexpected stream event from ",
                        url,
                        ": ",
                        data.as_str(),
                    );
                    source.append(": ");
                    source.append(fault.as_str());
                    Err(AdapterError::fatal(source))
                },
                Ok(payload) => apply_payload(accumulator, &payload, url),
            }
        },
    }
}

// ---------------------------------------------------------------------------
// Laws
// ---------------------------------------------------------------------------

/// A reply after events, one after the other.
pub open spec fn streamed(s: StreamView, events: Seq<json::JsonView>) -> StreamView
    decreases events.len(),
{
    if events.len() == 0 {
        s
    } else {
        stepped(streamed(s, events.drop_last()), events.last())
    }
}

/// What events add to the answer, joined.
pub open spec fn shown_texts(events: Seq<json::JsonView>) -> Seq<char>
    decreases events.len(),
{
    if events.len() == 0 {
        seq![]
    } else {
        shown_texts(events.drop_last()) + shown_text(events.last())
    }
}

proof fn lemma_step_content(s: StreamView, event: json::JsonView)
    ensures
        stepped(s, event).content == s.content + shown_text(event),
        s.finished ==> stepped(s, event).finished,
        stepped(s, event).tool_calls.len() >= s.tool_calls.len(),
        stepped(s, event).tool_calls.take(s.tool_calls.len() as int) == s.tool_calls,
{
    reveal_strlit("message_start");
    reveal_strlit("content_block_start");
    reveal_strlit("content_block_delta");
    reveal_strlit("content_block_stop");
    reveal_strlit("message_delta");
    reveal_strlit("message_stop");
    assert("content_block_delta"@[14] == 'd');
    assert("content_block_start"@[14] == 's');
    assert("content_block_stop"@.len() == 18);
    assert("content_block_delta"@.len() == 19);
    assert("message_start"@.len() == 13);
    assert("message_delta"@.len() == 13);
    assert("message_stop"@.len() == 12);
    assert(s.content + seq![] =~= s.content);
    assert(stepped(s, event).tool_calls.take(s.tool_calls.len() as int) =~= s.tool_calls);
}

/// What is shown while a reply streams is its content: nothing of the answer
/// is withheld, nothing else is shown. Calls that were closed stay as they
/// are, and so does the end.
pub proof fn law_the_answer_is_what_was_shown(s: StreamView, events: Seq<json::JsonView>)
    ensures
        streamed(s, events).content == s.content + shown_texts(events),
        s.finished ==> streamed(s, events).finished,
        streamed(s, events).tool_calls.len() >= s.tool_calls.len(),
        streamed(s, events).tool_calls.take(s.tool_calls.len() as int) == s.tool_calls,
    decreases events.len(),
{
    if events.len() == 0 {
        assert(s.content + seq![] =~= s.content);
        assert(s.tool_calls.take(s.tool_calls.len() as int) =~= s.tool_calls);
    } else {
        let earlier = streamed(s, events.drop_last());
        law_the_answer_is_what_was_shown(s, events.drop_last());
        lemma_step_content(earlier, events.last());
        assert(s.content + shown_texts(events.drop_last()) + shown_text(events.last())
            =~= s.content + shown_texts(events));
        assert(streamed(s, events).tool_calls.take(s.tool_calls.len() as int)
            =~= earlier.tool_calls.take(s.tool_calls.len() as int)) by {
            let after = streamed(s, events).tool_calls;
            assert forall|k: int| 0 <= k < s.tool_calls.len() implies after[k]
                == earlier.tool_calls[k] by {
                assert(after.take(earlier.tool_calls.len() as int)[k] == earlier.tool_calls[k]);
            }
        }
    }
}

} // verus!

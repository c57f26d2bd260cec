use serde_json::Value;
use soa::anthropic;
use soa::catalog::{listing_url, Listing, ModelPage, PageStep};
use soa::client::{AttemptEvent, ClientAction, Completion, ModelClient, ModelTarget};
use soa::config::ProviderAdapterKind;
use soa::json::{Json, Number};
use soa::model::{
    backoff_delay, fmt_duration, fmt_tokens, novel_suffix, AdapterError, Delivery, FunctionCall,
    Message, ModelResponse, ToolCall, ToolDefinition, Usage,
};
use soa::openai;
use soa::provider;
use soa::request::{
    parse_retry_after, retryable_status, status_error, stream_end, ModelRequest,
    RequestConstraints, SamplingParams, ToolChoice,
};
use soa::sse::{SseDecoder, SseEvent};
use soa::stream::{FunctionDelta, PartialToolCall, StreamChoice, StreamDelta, ToolCallDelta};
use soa::table::Table;
use soa::usage::{report_lines, CostState, CostTexts, RunLimits, UsageSnapshot};
use soa::usage_stats;

fn convert(v: &Value) -> Json {
    match v {
        Value::Null => Json::Null,
        Value::Bool(b) => Json::Bool(*b),
        Value::Number(n) => Json::Number(match (n.as_u64(), n.as_i64()) {
            (Some(u), _) => Number::Unsigned(u),
            (None, Some(i)) => Number::Negative(i),
            _ => Number::Decimal(n.to_string()),
        }),
        Value::String(s) => Json::Text(s.clone()),
        Value::Array(items) => Json::Array(items.iter().map(convert).collect()),
        Value::Object(map) => {
            Json::Object(map.iter().map(|(k, v)| (k.clone(), convert(v))).collect())
        }
    }
}

fn parse(text: &str) -> Value {
    serde_json::from_str(text).unwrap()
}

fn js(text: &str) -> Json {
    convert(&parse(text))
}

fn shown(j: &Json) -> Value {
    match j {
        Json::Null => Value::Null,
        Json::Bool(b) => Value::Bool(*b),
        Json::Number(Number::Unsigned(n)) => Value::from(*n),
        Json::Number(Number::Negative(n)) => Value::from(*n),
        Json::Number(Number::Decimal(s)) => parse(s),
        Json::Text(s) => Value::from(s.as_str()),
        Json::Array(items) => Value::Array(items.iter().map(shown).collect()),
        Json::Object(fields) => {
            Value::Object(fields.iter().map(|(k, v)| (k.clone(), shown(v))).collect())
        }
    }
}

fn text_of(v: &Value, key: &str) -> Option<String> {
    v.get(key).and_then(Value::as_str).map(str::to_string)
}

fn choices(v: &Value) -> Vec<StreamChoice> {
    v["choices"]
        .as_array()
        .unwrap()
        .iter()
        .map(|choice| StreamChoice {
            delta: StreamDelta {
                content: text_of(&choice["delta"], "content"),
                tool_calls: choice["delta"].get("tool_calls").map(|calls| {
                    calls
                        .as_array()
                        .unwrap()
                        .iter()
                        .map(|call| ToolCallDelta {
                            index: call["index"].as_u64().unwrap() as usize,
                            id: text_of(call, "id"),
                            function: call.get("function").map(|f| FunctionDelta {
                                name: text_of(f, "name"),
                                arguments: text_of(f, "arguments"),
                            }),
                        })
                        .collect()
                }),
            },
            finish_reason: text_of(choice, "finish_reason"),
        })
        .collect()
}

fn wire_usage(v: &Value) -> Option<openai::UsageWire> {
    v.get("usage").map(|u| openai::UsageWire {
        prompt_tokens: u["prompt_tokens"].as_u64().unwrap(),
        completion_tokens: u["completion_tokens"].as_u64().unwrap(),
        cached_tokens: u["prompt_tokens_details"]["cached_tokens"].as_u64(),
        reasoning_tokens: u["completion_tokens_details"]["reasoning_tokens"].as_u64(),
    })
}

fn chunk(text: &str) -> openai::StreamChunk {
    let v = parse(text);
    openai::StreamChunk {
        choices: choices(&v),
        usage: wire_usage(&v),
        error: v.get("error").map(convert),
    }
}

fn text_chunk(text: &str) -> provider::StreamChunk {
    let v = parse(text);
    provider::StreamChunk {
        choices: choices(&v),
        usage: v.get("usage").map(|u| provider::Usage {
            prompt_tokens: u["prompt_tokens"].as_u64().unwrap(),
            completion_tokens: u["completion_tokens"].as_u64().unwrap(),
        }),
    }
}

fn user(content: &str) -> Message {
    Message::User { content: content.to_string() }
}

fn call(id: &str, name: &str, arguments: Json) -> ToolCall {
    ToolCall {
        id: id.to_string(),
        function: FunctionCall { name: name.to_string(), arguments },
    }
}

fn no_sampling() -> SamplingParams {
    SamplingParams { temperature: None, top_p: None, max_tokens: None }
}

fn no_constraints() -> RequestConstraints {
    RequestConstraints { tool_choice: None, output_schema: None }
}

// --- the chat-completions protocol -----------------------------------------

#[test]
fn canonical_request_maps_to_openai_wire_format() {
    let messages = vec![
        user("inspect"),
        Message::Assistant {
            content: None,
            reasoning: None,
            tool_calls: Some(vec![call("c1", "read_file", js(r#"{"path": "x"}"#))]),
        },
    ];
    let tools = vec![ToolDefinition {
        name: "read_file".into(),
        description: "Read".into(),
        parameters: js(r#"{"type": "object"}"#),
    }];
    let sampling =
        SamplingParams { temperature: Some("0.2".to_string()), top_p: None, max_tokens: None };
    let wire = shown(&openai::chat_request(&ModelRequest {
        model: "coder",
        messages: &messages,
        tools: &tools,
        sampling: &sampling,
        constraints: &no_constraints(),
        stream: true,
    }));
    assert_eq!(wire["model"], "coder");
    assert_eq!(wire["messages"][1]["tool_calls"][0]["type"], "function");
    // The wire format carries arguments as a JSON-encoded string even though
    // the canonical form is structured.
    assert_eq!(
        wire["messages"][1]["tool_calls"][0]["function"]["arguments"],
        r#"{"path":"x"}"#
    );
    assert_eq!(wire["tools"][0]["type"], "function");
    assert_eq!(wire["stream_options"]["include_usage"], true);
    assert_eq!(wire["temperature"], 0.2);

    let first = vec![user("inspect")];
    let empty_wire = shown(&openai::chat_request(&ModelRequest {
        model: "coder",
        messages: &first,
        tools: &Vec::new(),
        sampling: &no_sampling(),
        constraints: &no_constraints(),
        stream: false,
    }));
    assert!(empty_wire.get("tools").is_none());
    assert!(empty_wire.get("stream").is_none());
    assert!(empty_wire.get("stream_options").is_none());
}

#[test]
fn constraints_map_to_tool_choice_and_response_format() {
    let messages = vec![user("go")];
    let constraints = RequestConstraints {
        tool_choice: Some(ToolChoice::Tool("grep".into())),
        output_schema: Some(js(
            r#"{"type": "object", "properties": {"answer": {"type": "string"}}}"#,
        )),
    };
    let wire = shown(&openai::chat_request(&ModelRequest {
        model: "m",
        messages: &messages,
        tools: &Vec::new(),
        sampling: &no_sampling(),
        constraints: &constraints,
        stream: false,
    }));
    assert_eq!(wire["tool_choice"]["function"]["name"], "grep");
    assert_eq!(wire["response_format"]["type"], "json_schema");
    assert_eq!(wire["response_format"]["json_schema"]["strict"], true);
    assert_eq!(
        wire["response_format"]["json_schema"]["schema"]["properties"]["answer"]["type"],
        "string"
    );

    let any = RequestConstraints { tool_choice: Some(ToolChoice::Any), output_schema: None };
    let wire = shown(&openai::chat_request(&ModelRequest {
        model: "m",
        messages: &messages,
        tools: &Vec::new(),
        sampling: &no_sampling(),
        constraints: &any,
        stream: false,
    }));
    assert_eq!(wire["tool_choice"], "required");
    assert!(wire.get("response_format").is_none());
}

#[test]
fn openai_chat_completions_non_streaming_response_maps_back_to_canonical_types() {
    let v = parse(
        r#"{"choices":[{"message":{"content":null,"tool_calls":[{"id":"c1","type":"function","function":{"name":"read_file","arguments":"{}"}}]}}],"usage":{"prompt_tokens":9,"completion_tokens":2,"total_tokens":11}}"#,
    );
    let message = &v["choices"][0]["message"];
    let response = openai::ResponseMessage {
        content: text_of(message, "content"),
        tool_calls: message["tool_calls"]
            .as_array()
            .unwrap()
            .iter()
            .map(|c| PartialToolCall {
                id: text_of(c, "id").unwrap(),
                name: text_of(&c["function"], "name").unwrap(),
                arguments: text_of(&c["function"], "arguments").unwrap(),
            })
            .collect(),
    }
    .into_canonical(wire_usage(&v).map(|u| u.into_canonical()), None);

    assert!(response.content.is_none());
    assert_eq!(response.tool_calls[0].id, "c1");
    assert_eq!(response.tool_calls[0].function.name, "read_file");
    assert_eq!(response.usage.unwrap().context_tokens(), 11);
    assert!(response.truncation.is_none());
}

#[test]
fn usage_details_map_to_cache_and_reasoning_tokens() {
    let v = parse(
        r#"{"usage":{"prompt_tokens":100,"completion_tokens":50,
            "prompt_tokens_details":{"cached_tokens":80,"audio_tokens":0},
            "completion_tokens_details":{"reasoning_tokens":30}}}"#,
    );
    let usage = wire_usage(&v).unwrap().into_canonical();
    assert_eq!(usage.cache_read_tokens, 80);
    assert_eq!(usage.reasoning_tokens, 30);

    // Providers that omit the detail objects report zeros.
    let v = parse(r#"{"usage":{"prompt_tokens":10,"completion_tokens":5}}"#);
    let usage = wire_usage(&v).unwrap().into_canonical();
    assert_eq!(usage.cache_read_tokens, 0);
    assert_eq!(usage.reasoning_tokens, 0);
}

const URL: &str = "http://test/v1";

fn apply(accumulator: &mut openai::StreamAccumulator, text: &str) -> Vec<String> {
    accumulator.apply(&chunk(text), URL).ok().unwrap()
}

#[test]
fn openai_chat_completions_accumulates_content_deltas() {
    let mut accumulator = openai::StreamAccumulator::new();
    apply(
        &mut accumulator,
        r#"{"choices":[{"delta":{"role":"assistant","content":"Hel"}}]}"#,
    );
    apply(&mut accumulator, r#"{"choices":[{"delta":{"content":"lo"}}]}"#);
    assert_eq!(accumulator.reply.content, "Hello");
    assert!(!accumulator.reply.finished);
    apply(&mut accumulator, r#"{"choices":[{"delta":{},"finish_reason":"stop"}]}"#);
    assert!(accumulator.reply.finished);
    apply(
        &mut accumulator,
        r#"{"choices":[],"usage":{"prompt_tokens":100,"completion_tokens":20,"total_tokens":120}}"#,
    );
    let response = accumulator.finish();
    assert_eq!(response.content.as_deref(), Some("Hello"));
    assert!(response.tool_calls.is_empty());
    assert_eq!(response.usage.unwrap().context_tokens(), 120);
}

const FRAGMENTS: [&str; 3] = [
    r#"{"choices":[{"delta":{"tool_calls":[{"index":0,"id":"c1","function":{"name":"write_file","arguments":""}}]}}]}"#,
    r#"{"choices":[{"delta":{"tool_calls":[{"index":0,"function":{"arguments":"{\"path\":"}}]}}]}"#,
    r#"{"choices":[{"delta":{"tool_calls":[{"index":0,"function":{"arguments":"\"x\"}"}},{"index":1,"id":"c2","function":{"name":"read_file","arguments":"{}"}}]}}]}"#,
];

#[test]
fn openai_chat_completions_assembles_fragmented_tool_calls() {
    let mut accumulator = openai::StreamAccumulator::new();
    for fragment in FRAGMENTS {
        apply(&mut accumulator, fragment);
    }
    let response = accumulator.finish();
    assert_eq!(response.tool_calls.len(), 2);
    assert_eq!(response.tool_calls[0].id, "c1");
    assert_eq!(response.tool_calls[0].function.name, "write_file");
    // Fragments assemble into the structured canonical form.
    assert_eq!(shown(&response.tool_calls[0].function.arguments), parse(r#"{"path": "x"}"#));
    assert_eq!(response.tool_calls[1].function.name, "read_file");
    assert_eq!(shown(&response.tool_calls[1].function.arguments), parse("{}"));
    assert!(response.content.is_none());
}

#[test]
fn in_band_error_events_are_surfaced_and_classified() {
    let apply_event = |payload: &str| -> AdapterError {
        match openai::stream_step(SseEvent::Data(payload.to_string())) {
            openai::StreamStep::Read(body) => {
                let v = parse(&body);
                let error_chunk = openai::StreamChunk {
                    choices: Vec::new(),
                    usage: None,
                    error: v.get("error").map(convert),
                };
                openai::StreamAccumulator::new().apply(&error_chunk, URL).err().unwrap()
            }
            _ => panic!("an event with data is read"),
        }
    };
    // A rate-limit error on a 200 stream is worth retrying...
    assert!(apply_event(
        r#"{"error":{"message":"Rate limit reached","type":"rate_limit_error","code":429}}"#
    )
    .is_retryable());
    // ...but an invalid request (e.g. context overflow) is fatal.
    assert!(!apply_event(
        r#"{"error":{"message":"maximum context length exceeded","type":"invalid_request_error"}}"#
    )
    .is_retryable());
    // Non-streaming 200 bodies with an error object classify the same way.
    assert!(
        openai::in_band_error(&js(r#"{"message":"overloaded","code":"503"}"#), URL).is_retryable()
    );
}

#[test]
fn abnormal_finish_reasons_are_reported_as_truncation() {
    let mut accumulator = openai::StreamAccumulator::new();
    apply(
        &mut accumulator,
        r#"{"choices":[{"delta":{"content":"partial"},"finish_reason":"length"}]}"#,
    );
    assert!(accumulator.reply.finished);
    let response = accumulator.finish();
    assert_eq!(response.truncation.as_deref(), Some("length"));

    // Deliberate stops are not truncation.
    assert_eq!(openai::truncation_reason(Some("stop".into())), None);
    assert_eq!(openai::truncation_reason(Some("tool_calls".into())), None);
    assert_eq!(openai::truncation_reason(None), None);
    assert_eq!(
        openai::truncation_reason(Some("content_filter".into())).as_deref(),
        Some("content_filter")
    );
}

#[test]
fn transient_statuses_are_adapter_specific() {
    for code in [500, 502, 503, 504, 429, 408] {
        assert!(retryable_status(code), "{code}");
    }
    for code in [400, 401, 403, 404, 422] {
        assert!(!retryable_status(code), "{code}");
    }
}

#[test]
fn arguments_survive_the_wire() {
    let arguments = js(r#"{"path": "a b", "list": [1, -2, true, null, {"k": "v"}]}"#);
    let raw = openai::encode_arguments(&arguments);
    assert_eq!(shown(&openai::decode_arguments(&raw)), shown(&arguments));
    // What is no JSON is kept as the text it is.
    assert_eq!(shown(&openai::decode_arguments("{oops")), Value::from("{oops"));
}

// --- the messages protocol -------------------------------------------------

fn sse(payload: &str) -> SseEvent {
    SseEvent::Data(payload.to_string())
}

#[test]
fn canonical_request_maps_to_messages_wire_format() {
    let messages = vec![
        Message::System { content: "be careful".into() },
        user("fix the bug"),
        Message::Assistant {
            content: Some("Looking now.".into()),
            reasoning: Some(js(
                r#"[{ "type": "thinking", "thinking": "hmm", "signature": "sig1" }]"#,
            )),
            tool_calls: Some(vec![
                call("t1", "read_file", js(r#"{"path": "a.rs"}"#)),
                call("t2", "grep", js(r#"{"pattern": "bug"}"#)),
            ]),
        },
        Message::Tool { content: "contents of a.rs".into(), tool_call_id: "t1".into() },
        Message::Tool { content: "3 matches".into(), tool_call_id: "t2".into() },
        user("also check b.rs"),
    ];
    let tools = vec![ToolDefinition {
        name: "read_file".into(),
        description: "Read a file".into(),
        parameters: js(r#"{"type": "object"}"#),
    }];
    let wire = shown(&anthropic::messages_request(&ModelRequest {
        model: "model-x",
        messages: &messages,
        tools: &tools,
        sampling: &no_sampling(),
        constraints: &no_constraints(),
        stream: true,
    }));

    // System hoists to the top-level parameter; max_tokens is required.
    assert_eq!(wire["system"], "be careful");
    assert_eq!(wire["max_tokens"], anthropic::DEFAULT_MAX_TOKENS);
    assert_eq!(wire["stream"], true);
    assert_eq!(wire["tools"][0]["input_schema"]["type"], "object");

    let turns = wire["messages"].as_array().unwrap();
    assert_eq!(turns.len(), 4); // user, assistant, folded tool results, user
    assert_eq!(turns[0]["role"], "user");
    // Thinking replays first, verbatim; structured input round-trips.
    assert_eq!(turns[1]["content"][0]["type"], "thinking");
    assert_eq!(turns[1]["content"][0]["signature"], "sig1");
    assert_eq!(turns[1]["content"][1]["type"], "text");
    assert_eq!(turns[1]["content"][2]["type"], "tool_use");
    assert_eq!(turns[1]["content"][2]["input"]["path"], "a.rs");
    // Both parallel results fold into ONE user turn.
    assert_eq!(turns[2]["role"], "user");
    assert_eq!(turns[2]["content"].as_array().unwrap().len(), 2);
    assert_eq!(turns[2]["content"][0]["type"], "tool_result");
    assert_eq!(turns[2]["content"][0]["tool_use_id"], "t1");
    assert_eq!(turns[2]["content"][1]["tool_use_id"], "t2");
    // The steered user message stays its own (combinable) turn.
    assert_eq!(turns[3]["role"], "user");
    assert_eq!(turns[3]["content"], "also check b.rs");
}

#[test]
fn assistant_turn_without_text_has_no_empty_text_block() {
    let messages = vec![
        user("go"),
        Message::Assistant {
            content: None,
            reasoning: None,
            tool_calls: Some(vec![call("t1", "shell", Json::Null)]),
        },
    ];
    let sampling = SamplingParams { temperature: None, top_p: None, max_tokens: Some(2048) };
    let wire = shown(&anthropic::messages_request(&ModelRequest {
        model: "model-x",
        messages: &messages,
        tools: &Vec::new(),
        sampling: &sampling,
        constraints: &no_constraints(),
        stream: false,
    }));
    assert_eq!(wire["max_tokens"], 2048);
    let blocks = wire["messages"][1]["content"].as_array().unwrap();
    assert_eq!(blocks.len(), 1, "no empty text block");
    assert_eq!(blocks[0]["type"], "tool_use");
    // Null arguments become an empty input object.
    assert_eq!(blocks[0]["input"], parse("{}"));
}

#[test]
fn constraints_map_to_tool_choice_and_output_config() {
    let messages = vec![user("go")];
    let constraints = RequestConstraints {
        tool_choice: Some(ToolChoice::Tool("grep".into())),
        output_schema: Some(js(r#"{"type": "object"}"#)),
    };
    let wire = shown(&anthropic::messages_request(&ModelRequest {
        model: "m",
        messages: &messages,
        tools: &Vec::new(),
        sampling: &no_sampling(),
        constraints: &constraints,
        stream: false,
    }));
    assert_eq!(wire["tool_choice"], parse(r#"{"type": "tool", "name": "grep"}"#));
    assert_eq!(
        wire["output_config"],
        parse(r#"{"format": {"type": "json_schema", "schema": {"type": "object"}}}"#)
    );

    let any = RequestConstraints { tool_choice: Some(ToolChoice::Any), output_schema: None };
    let wire = shown(&anthropic::messages_request(&ModelRequest {
        model: "m",
        messages: &messages,
        tools: &Vec::new(),
        sampling: &no_sampling(),
        constraints: &any,
        stream: false,
    }));
    assert_eq!(wire["tool_choice"], parse(r#"{"type": "any"}"#));
    assert!(wire.get("output_config").is_none());
}

#[test]
fn anthropic_messages_non_streaming_response_maps_back_to_canonical_types() {
    let v = parse(
        r#"{
            "id": "msg_1", "type": "message", "role": "assistant",
            "model": "model-x",
            "content": [
                {"type": "thinking", "thinking": "let me look", "signature": "s"},
                {"type": "text", "text": "Checking "},
                {"type": "text", "text": "the file."},
                {"type": "tool_use", "id": "t1", "name": "read_file",
                 "input": {"path": "a.rs"}}
            ],
            "stop_reason": "tool_use",
            "usage": {"input_tokens": 100, "output_tokens": 40,
                      "cache_read_input_tokens": 60,
                      "cache_creation_input_tokens": 10}
        }"#,
    );
    let response = anthropic::MessagesResponse {
        content: v["content"].as_array().unwrap().iter().map(convert).collect(),
        stop_reason: text_of(&v, "stop_reason"),
        usage: anthropic::read_usage(&convert(&v["usage"])),
    }
    .into_canonical();
    assert_eq!(response.content.as_deref(), Some("Checking the file."));
    assert_eq!(response.tool_calls[0].id, "t1");
    assert_eq!(
        shown(&response.tool_calls[0].function.arguments),
        parse(r#"{"path": "a.rs"}"#)
    );
    // input_tokens excludes cache; canonical prompt_tokens is the total.
    let usage = response.usage.unwrap();
    assert_eq!(usage.prompt_tokens, 170);
    assert_eq!(usage.completion_tokens, 40);
    assert_eq!(usage.cache_read_tokens, 60);
    // tool_use is a deliberate stop, and thinking is preserved.
    assert!(response.truncation.is_none());
    assert_eq!(shown(&response.reasoning.unwrap())[0]["thinking"], "let me look");
}

#[test]
fn streaming_events_accumulate_text_tools_thinking_and_usage() {
    let mut accumulator = anthropic::StreamAccumulator::new();
    let mut streamed = String::new();
    let events = [
        r#"{"type":"message_start","message":{"id":"msg_1","usage":{"input_tokens":90,"output_tokens":1,"cache_read_input_tokens":30}}}"#,
        r#"{"type":"ping"}"#,
        r#"{"type":"content_block_start","index":0,"content_block":{"type":"thinking","thinking":""}}"#,
        r#"{"type":"content_block_delta","index":0,"delta":{"type":"thinking_delta","thinking":"quiet plan"}}"#,
        r#"{"type":"content_block_delta","index":0,"delta":{"type":"signature_delta","signature":"sig"}}"#,
        r#"{"type":"content_block_stop","index":0}"#,
        r#"{"type":"content_block_start","index":1,"content_block":{"type":"text","text":""}}"#,
        r#"{"type":"content_block_delta","index":1,"delta":{"type":"text_delta","text":"Run"}}"#,
        r#"{"type":"content_block_delta","index":1,"delta":{"type":"text_delta","text":"ning."}}"#,
        r#"{"type":"content_block_stop","index":1}"#,
        r#"{"type":"content_block_start","index":2,"content_block":{"type":"tool_use","id":"t9","name":"shell","input":{}}}"#,
        r#"{"type":"content_block_delta","index":2,"delta":{"type":"input_json_delta","partial_json":"{\"comm"}}"#,
        r#"{"type":"content_block_delta","index":2,"delta":{"type":"input_json_delta","partial_json":"and\":\"ls\"}"}}"#,
        r#"{"type":"content_block_stop","index":2}"#,
        r#"{"type":"message_delta","delta":{"stop_reason":"tool_use"},"usage":{"output_tokens":25}}"#,
        r#"{"type":"message_stop"}"#,
    ];
    let mut done = false;
    for event in events {
        let step =
            anthropic::apply_stream_event(sse(event), &mut accumulator, "http://t").ok().unwrap();
        streamed.push_str(&step.shown);
        done = step.finished;
    }
    assert!(done);
    let response = accumulator.finish();
    // Only answer text streams; thinking stays out of the delta channel.
    assert_eq!(streamed, "Running.");
    assert_eq!(response.content.as_deref(), Some("Running."));
    assert_eq!(response.tool_calls.len(), 1);
    assert_eq!(response.tool_calls[0].id, "t9");
    assert_eq!(
        shown(&response.tool_calls[0].function.arguments),
        parse(r#"{"command": "ls"}"#)
    );
    let reasoning = shown(&response.reasoning.unwrap());
    assert_eq!(reasoning[0]["thinking"], "quiet plan");
    assert_eq!(reasoning[0]["signature"], "sig");
    let usage = response.usage.unwrap();
    assert_eq!(usage.prompt_tokens, 120); // 90 + 30 cached
    assert_eq!(usage.cache_read_tokens, 30);
    assert_eq!(usage.completion_tokens, 25);
    assert!(response.truncation.is_none());
}

#[test]
fn abnormal_stop_reasons_and_errors_classify() {
    // max_tokens and refusal are truncation; normal stops are not.
    assert_eq!(
        anthropic::truncation_reason(Some("max_tokens".into())).as_deref(),
        Some("max_tokens")
    );
    assert_eq!(
        anthropic::truncation_reason(Some("refusal".into())).as_deref(),
        Some("refusal")
    );
    assert_eq!(anthropic::truncation_reason(Some("end_turn".into())), None);
    assert_eq!(anthropic::truncation_reason(Some("tool_use".into())), None);

    // In-band error events: overloaded retries, invalid request fails.
    let fault = |payload: &str| {
        anthropic::apply_stream_event(
            sse(payload),
            &mut anthropic::StreamAccumulator::new(),
            "http://t",
        )
        .err()
        .unwrap()
    };
    assert!(fault(r#"{"type":"error","error":{"type":"overloaded_error","message":"busy"}}"#)
        .is_retryable());
    assert!(!fault(
        r#"{"type":"error","error":{"type":"invalid_request_error","message":"bad"}}"#
    )
    .is_retryable());
}

#[test]
fn interrupted_stream_without_message_stop_is_incomplete() {
    let mut accumulator = anthropic::StreamAccumulator::new();
    for event in [
        r#"{"type":"content_block_start","index":0,"content_block":{"type":"text","text":""}}"#,
        r#"{"type":"content_block_delta","index":0,"delta":{"type":"text_delta","text":"partial"}}"#,
    ] {
        assert!(anthropic::apply_stream_event(sse(event), &mut accumulator, "http://t").is_ok());
    }
    assert!(!accumulator.finished);
    let fault = stream_end(accumulator.finished, "http://t").err().unwrap();
    assert!(fault.is_retryable());
}

// --- server-sent events ----------------------------------------------------

fn data(event: &SseEvent) -> Option<&str> {
    match event {
        SseEvent::Data(s) => Some(s.as_str()),
        SseEvent::Done => None,
    }
}

#[test]
fn sse_decoder_handles_fragmented_multiline_events_and_crlf() {
    let mut decoder = SseDecoder::new();
    assert!(decoder.push(b": keepalive\r\nid: 1\r\nda").ok().unwrap().is_empty());
    assert!(decoder.push(b"ta: {\"value\":\r\n").ok().unwrap().is_empty());
    let events = decoder.push(b"data: 1}\r\n\r\n").ok().unwrap();
    assert_eq!(events.iter().map(data).collect::<Vec<_>>(), vec![Some("{\"value\":\n1}")]);
}

#[test]
fn sse_decoder_preserves_split_utf8_and_finishes_unterminated_event() {
    let mut decoder = SseDecoder::new();
    let event = "data: {\"text\":\"hé\"}".as_bytes();
    let split = event.iter().position(|byte| *byte == 0xc3).unwrap() + 1;
    assert!(decoder.push(&event[..split]).ok().unwrap().is_empty());
    assert!(decoder.push(&event[split..]).ok().unwrap().is_empty());
    let events = decoder.finish().ok().unwrap();
    assert_eq!(events.iter().map(data).collect::<Vec<_>>(), vec![Some("{\"text\":\"hé\"}")]);
}

#[test]
fn sse_decoder_handles_many_events_done_and_bom() {
    let mut decoder = SseDecoder::new();
    let events = decoder
        .push(b"\xef\xbb\xbfdata: one\n\ndata: two\r\rdata: [DONE]\n\n")
        .ok()
        .unwrap();
    assert_eq!(
        events.iter().map(data).collect::<Vec<_>>(),
        vec![Some("one"), Some("two"), None]
    );
}

#[test]
fn sse_data_that_is_no_text_fails() {
    let mut decoder = SseDecoder::new();
    assert!(decoder.push(b"data: \xff\xfe\n\n").is_err());
}

// --- the older client ------------------------------------------------------

#[test]
fn provider_accumulates_content_deltas() {
    let mut acc = provider::StreamAccumulator::new();
    assert_eq!(
        acc.apply(&text_chunk(
            r#"{"choices":[{"delta":{"role":"assistant","content":"Hel"}}]}"#
        )),
        Some("Hel".to_string())
    );
    assert_eq!(
        acc.apply(&text_chunk(r#"{"choices":[{"delta":{"content":"lo"}}]}"#)),
        Some("lo".to_string())
    );
    // Finish chunks with empty deltas produce no fragment, but mark the
    // generation complete so a missing [DONE] isn't treated as a drop.
    assert!(!acc.reply.finished);
    assert_eq!(
        acc.apply(&text_chunk(r#"{"choices":[{"delta":{},"finish_reason":"stop"}]}"#)),
        None
    );
    assert!(acc.reply.finished);
    // Final usage chunk (empty choices) is captured.
    acc.apply(&text_chunk(
        r#"{"choices":[],"usage":{"prompt_tokens":100,"completion_tokens":20,"total_tokens":120}}"#,
    ));
    let turn = acc.finish();
    assert_eq!(turn.content.as_deref(), Some("Hello"));
    assert!(turn.tool_calls.is_empty());
    let usage = turn.usage.unwrap();
    assert_eq!(usage.prompt_tokens, 100);
    assert_eq!(usage.context_tokens(), 120);
}

#[test]
fn provider_assembles_fragmented_tool_calls() {
    let mut acc = provider::StreamAccumulator::new();
    for fragment in FRAGMENTS {
        acc.apply(&text_chunk(fragment));
    }
    let turn = acc.finish();
    assert_eq!(turn.tool_calls.len(), 2);
    assert_eq!(turn.tool_calls[0].id, "c1");
    assert_eq!(turn.tool_calls[0].function.name, "write_file");
    assert_eq!(turn.tool_calls[0].function.arguments, r#"{"path":"x"}"#);
    assert_eq!(turn.tool_calls[1].function.name, "read_file");
    assert!(turn.content.is_none());
}

#[test]
fn transient_statuses_classified() {
    for code in [500, 502, 503, 504, 429, 408] {
        assert!(retryable_status(code), "{code}");
    }
    for code in [400, 401, 403, 404, 422] {
        assert!(!retryable_status(code), "{code}");
    }
}

#[test]
fn usage_stats_accumulate_per_model() {
    let usage = |p, c| Some(provider::Usage { prompt_tokens: p, completion_tokens: c });
    let mut totals = usage_stats::Totals::new();
    usage_stats::record(&mut totals, "stats-test-a", usage(100, 10));
    usage_stats::record(&mut totals, "stats-test-a", usage(200, 20));
    // A server that reports no usage still counts the request.
    usage_stats::record(&mut totals, "stats-test-a", None);
    usage_stats::record(&mut totals, "stats-test-b", usage(5, 1));

    let a = *totals.models.get("stats-test-a").unwrap();
    assert_eq!((a.requests, a.prompt_tokens, a.completion_tokens), (3, 300, 30));
    assert_eq!(totals.models.get("stats-test-b").unwrap().requests, 1);

    let report = usage_stats::report_lines(&totals).join("\n");
    assert!(report.contains("stats-test-a: 3 request(s), 300 tok in + 30 tok out"));
    assert!(report.contains("total: "), "{report}");
}

#[test]
fn provider_backoff_grows_and_caps() {
    assert_eq!(backoff_delay(0), 500);
    assert_eq!(backoff_delay(1), 1000);
    assert_eq!(backoff_delay(2), 2000);
    // Capped at 10s, including for absurd attempt counts.
    assert_eq!(backoff_delay(5), 10_000);
    assert_eq!(backoff_delay(63), 10_000);
}

#[test]
fn provider_novel_suffix_skips_already_emitted_content() {
    // Nothing emitted yet: whole fragment is novel.
    assert_eq!(novel_suffix("hello", 0, 0), Some("hello"));
    // Fragment starts past the emitted point: all novel.
    assert_eq!(novel_suffix("lo", 3, 3), Some("lo"));
    // Fragment straddles the emitted point: only the tail is novel.
    assert_eq!(novel_suffix("hello", 0, 3), Some("lo"));
    // Fragment entirely within already-emitted content: nothing.
    assert_eq!(novel_suffix("hel", 0, 3), None);
    assert_eq!(novel_suffix("hel", 0, 10), None);
    // A skip landing mid-character nudges forward to a boundary.
    assert_eq!(novel_suffix("héllo", 0, 2), Some("llo"));
}

#[test]
fn lines_may_be_cut_anywhere() {
    let stream = b"data: {\"a\":1}\n\n: note\ndata: [DONE]\n";
    let count = |sizes: &[usize]| {
        let mut buffer = provider::LineBuffer::new();
        let mut from = 0;
        let mut seen = Vec::new();
        for size in sizes {
            let to = (from + size).min(stream.len());
            for step in buffer.push(&stream[from..to]) {
                match step {
                    provider::LineStep::Data(s) => seen.push(s),
                    provider::LineStep::Done => seen.push("done".to_string()),
                    provider::LineStep::Skip => {}
                }
            }
            from = to;
        }
        seen
    };
    let whole = count(&[100]);
    assert_eq!(whole, vec!["{\"a\":1}", "done"]);
    assert_eq!(count(&[3, 9, 100]), whole);
    assert_eq!(count(&[13, 1, 1, 100]), whole);
}

// --- the client ------------------------------------------------------------

#[test]
fn model_backoff_grows_and_caps() {
    assert_eq!(backoff_delay(0), 500);
    assert_eq!(backoff_delay(1), 1000);
    assert_eq!(backoff_delay(2), 2000);
    assert_eq!(backoff_delay(5), 10_000);
    assert_eq!(backoff_delay(63), 10_000);
}

#[test]
fn model_novel_suffix_skips_already_emitted_content() {
    assert_eq!(novel_suffix("hello", 0, 0), Some("hello"));
    assert_eq!(novel_suffix("lo", 3, 3), Some("lo"));
    assert_eq!(novel_suffix("hello", 0, 3), Some("lo"));
    assert_eq!(novel_suffix("hel", 0, 3), None);
    assert_eq!(novel_suffix("hel", 0, 10), None);
    assert_eq!(novel_suffix("héllo", 0, 2), Some("llo"));
}

#[test]
fn usage_tracker_records_cost_attempts_failures_and_missing_usage() {
    let mut snapshot = UsageSnapshot::empty();
    let reported =
        Usage { prompt_tokens: 1_000, completion_tokens: 100, ..Usage::default() };
    snapshot.record_attempt("model-a", "adapter-a", true, 50, Some(Some(reported)), true);
    snapshot.record_attempt("model-a", "adapter-a", true, 20, None, true);
    snapshot.record_attempt("model-b", "adapter-b", false, 10, Some(None), false);

    let model_a = snapshot.models.get("model-a").unwrap();
    assert_eq!(
        (
            model_a.requests,
            model_a.attempts,
            model_a.failures,
            model_a.prompt_tokens,
            model_a.completion_tokens,
            model_a.latency_ms,
        ),
        (1, 2, 1, 1_000, 100, 70)
    );
    assert_eq!(snapshot.models.get("model-b").unwrap().unreported_requests, 1);
    for (_, row) in &snapshot.models.entries {
        assert_eq!(row.requests + row.failures, row.attempts);
        assert!(row.unreported_requests <= row.unpriced_requests);
        assert!(row.unpriced_requests <= row.requests);
    }

    let limits = RunLimits { max_tokens: None, max_cost: None, max_time_ms: None };
    let costs = CostTexts {
        models: vec!["$0.0028".to_string(), "$0.0000".to_string()],
        total: "$0.0028".to_string(),
    };
    let report = report_lines(&snapshot, &limits, &costs).join("\n");
    assert!(report.contains("model-a: 1 request(s)/2 attempt(s)"), "{report}");
    assert!(report.contains("1 failed"), "{report}");
    assert!(report.contains("1 without usage"), "{report}");
    assert!(report.contains("external"), "{report}");
}

fn target(label: &str) -> ModelTarget {
    ModelTarget {
        label: label.to_string(),
        model: "coder".to_string(),
        adapter: "recording".to_string(),
        external: false,
        priced: false,
        stream: false,
        max_tokens: None,
    }
}

fn no_limits() -> RunLimits {
    RunLimits { max_tokens: None, max_cost: None, max_time_ms: None }
}

fn free() -> CostState {
    CostState { written: "$0".to_string(), reached: false }
}

#[test]
fn a_chain_is_retried_then_left() {
    let client = ModelClient { targets: vec![target("a"), target("b")], retries: 1 };
    let snapshot = UsageSnapshot::empty();
    let limits = no_limits();
    let cost = free();
    let mut completion = Completion::new();
    let fail = || AttemptEvent::Failed(AdapterError::transient("retry me".to_string()));
    let mut seen = Vec::new();
    for _ in 0..4 {
        assert!(completion.begin(&client, &snapshot, &limits, &cost, 0).is_ok());
        seen.push((completion.target, completion.attempt));
        match completion.settle(&client, &snapshot, &limits, &cost, fail()) {
            ClientAction::Retry(ms) => assert_eq!(ms, 500),
            ClientAction::Fallback => {}
            ClientAction::GiveUp { context, source } => {
                assert_eq!(context, "every model endpoint failed (tried: a -> b)");
                assert_eq!(source, "retry me");
            }
            _ => panic!("a failure is retried or given up"),
        }
    }
    assert_eq!(seen, vec![(0, 0), (0, 1), (1, 0), (1, 1)]);
}

#[test]
fn fatal_failures_are_not_retried() {
    let client = ModelClient { targets: vec![target("a"), target("b")], retries: 3 };
    let snapshot = UsageSnapshot::empty();
    let mut completion = Completion::new();
    let event = AttemptEvent::Failed(AdapterError::fatal("no".to_string()));
    assert!(event.response().is_none());
    assert!(matches!(
        completion.settle(&client, &snapshot, &no_limits(), &free(), event),
        ClientAction::Fallback
    ));
    assert!(matches!(
        completion.settle(&client, &snapshot, &no_limits(), &free(), AttemptEvent::Replied(None)),
        ClientAction::Deliver
    ));
}

#[test]
fn budgets_stop_requests_and_replies() {
    let client = ModelClient { targets: vec![target("budget-test")], retries: 0 };
    let limits = RunLimits { max_tokens: Some(3), max_cost: None, max_time_ms: None };
    let mut snapshot = UsageSnapshot::empty();
    let mut completion = Completion::new();
    let attempt = completion.begin(&client, &snapshot, &limits, &free(), 0).ok().unwrap();
    assert_eq!(attempt.max_tokens, Some(3));
    let reply = Usage { prompt_tokens: 3, completion_tokens: 1, ..Usage::default() };
    let event = AttemptEvent::Replied(Some(reply));
    snapshot.record_attempt("budget-test", "recording", false, 1, event.response(), false);
    match completion.settle(&client, &snapshot, &limits, &free(), event) {
        ClientAction::Stop(words) => assert!(words.contains("token budget exhausted"), "{words}"),
        _ => panic!("an overshooting reply stops the run"),
    }
    assert!(completion.begin(&client, &snapshot, &limits, &free(), 0).is_err());

    let timed = RunLimits { max_tokens: None, max_cost: None, max_time_ms: Some(1_000) };
    let fresh = UsageSnapshot::empty();
    let words = completion.begin(&client, &fresh, &timed, &free(), 1_000).err().unwrap();
    assert!(words.contains("time budget exhausted"), "{words}");
    match completion.settle(&client, &fresh, &timed, &free(), AttemptEvent::TimedOut) {
        ClientAction::Stop(words) => assert_eq!(
            words,
            "run time budget exhausted while waiting for model `budget-test`"
        ),
        _ => panic!("a run out of time stops"),
    }

    let priced = RunLimits { max_tokens: None, max_cost: Some("$1".to_string()), max_time_ms: None };
    let words = completion.begin(&client, &fresh, &priced, &free(), 0).err().unwrap();
    assert!(words.contains("cost budget cannot be enforced"), "{words}");
    let spent = CostState { written: "$2".to_string(), reached: true };
    let words = completion.begin(&client, &fresh, &priced, &spent, 0).err().unwrap();
    assert_eq!(words, "run cost budget exhausted: $2 used of $1");
    match completion.settle(&client, &fresh, &priced, &free(), AttemptEvent::Replied(None)) {
        ClientAction::Stop(words) => assert!(words.contains("omitted token usage"), "{words}"),
        _ => panic!("unknown usage stops a run under a budget"),
    }
}

#[test]
fn a_second_attempt_shows_only_what_is_new() {
    let mut delivery = Delivery::new();
    assert_eq!(delivery.offer("hello", true), Some("hello"));
    delivery.begin_attempt();
    assert_eq!(delivery.offer("hel", true), None);
    assert_eq!(delivery.offer("lo!", true), Some("!"));
}

#[test]
fn failed_statuses_carry_the_body_and_the_delay() {
    let error = status_error(429, "429 Too Many Requests", URL, "slow down", Some("7"));
    assert!(error.retryable);
    assert_eq!(error.retry_after_ms, Some(7_000));
    assert!(error.source.contains("slow down"));
    assert!(!status_error(401, "401 Unauthorized", URL, "", None).retryable);
    assert_eq!(parse_retry_after("3600"), Some(30_000));
    assert_eq!(parse_retry_after("soon"), None);
    assert!(stream_end(true, URL).is_ok());
}

#[test]
fn amounts_are_written_shortly() {
    assert_eq!(fmt_tokens(300), "300 tok");
    assert!(fmt_tokens(1_500).contains("1.5k"), "{}", fmt_tokens(1_500));
    assert!(!fmt_duration(90_000).is_empty());
}

// --- model listings --------------------------------------------------------

fn page(ids: &[&str], has_more: bool, last: Option<&str>) -> ModelPage {
    ModelPage {
        ids: ids.iter().map(|s| s.to_string()).collect(),
        has_more,
        last_id: last.map(str::to_string),
    }
}

#[test]
fn listings_are_sorted_unique_and_complete() {
    assert_eq!(listing_url("http://h/v1"), "http://h/v1/models");
    let kind = ProviderAdapterKind::AnthropicMessages;
    let mut listing = Listing::new();
    match listing.take_page(kind, &page(&["c", "a"], true, Some("a"))) {
        PageStep::Next(cursor) => assert_eq!(cursor, "a"),
        _ => panic!("there is another page"),
    }
    match listing.take_page(kind, &page(&["b", "a"], false, None)) {
        PageStep::Complete(ids) => assert_eq!(ids, vec!["a", "b", "c"]),
        _ => panic!("the last page completes the listing"),
    }
    // A cursor that does not move on is a fault.
    let mut stuck = Listing::new();
    assert!(matches!(
        stuck.take_page(kind, &page(&["a"], true, Some("a"))),
        PageStep::Next(_)
    ));
    assert!(matches!(
        stuck.take_page(kind, &page(&["a"], true, Some("a"))),
        PageStep::Failed(_)
    ));
}

#[test]
fn a_reply_can_be_built() {
    let response = ModelResponse {
        content: None,
        tool_calls: Vec::new(),
        reasoning: None,
        usage: None,
        truncation: None,
    };
    assert!(response.content.is_none());
    let empty: Table<String> = Table::new();
    assert!(empty.get("x").is_none());
}

#[test]
fn a_whole_turn_is_that_of_its_first_choice() {
    let call = provider::ToolCall {
        id: "c1".to_string(),
        kind: provider::function_type(),
        function: provider::FunctionCall {
            name: "read_file".to_string(),
            arguments: "{}".to_string(),
        },
    };
    let usage = provider::Usage { prompt_tokens: 7, completion_tokens: 2 };
    let response = provider::ChatResponse {
        choices: vec![
            provider::TurnChoice {
                content: Some("first".to_string()),
                tool_calls: Some(vec![call]),
            },
            provider::TurnChoice { content: Some("second".to_string()), tool_calls: None },
        ],
        usage: Some(usage),
    };
    let Ok(turn) = response.into_turn("http://x") else { panic!() };
    assert_eq!(turn.content.as_deref(), Some("first"));
    assert_eq!(turn.tool_calls[0].function.name, "read_file");
    assert_eq!(turn.usage.map(|u| u.context_tokens()), Some(9));

    let plain = provider::ChatResponse {
        choices: vec![provider::TurnChoice { content: None, tool_calls: None }],
        usage: None,
    };
    let Ok(turn) = plain.into_turn("http://x") else { panic!() };
    assert!(turn.content.is_none() && turn.tool_calls.is_empty() && turn.usage.is_none());

    let empty = provider::ChatResponse { choices: Vec::new(), usage: None };
    let Err(e) = empty.into_turn("http://x") else { panic!() };
    assert_eq!(e.source, "provider returned no choices from http://x");
    assert!(!e.retryable && e.retry_after_ms.is_none());
}

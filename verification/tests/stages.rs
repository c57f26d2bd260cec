use soa::agent_loop::{
    replay_agent_loop, shed_context, AgentLoopEvent, ReplayError, StageOutcome,
};
use soa::chain::fallback_chain;
use soa::client::ModelClient;
use soa::config::{
    Agent, Config, DataBoundary, Mode, Model, Provider, ProviderAdapterKind, Settings, Stage,
};
use soa::dispatch::{
    after_answer, call_descriptor, clamp_tool_output, failure_reply, gate, parallel_round,
    prepare_call, CallPolicy, Gate, ToolRequest,
};
use soa::approval::{Approvals, Decision};
use soa::effects::{ToolEffect, ToolEffects};
use soa::json::{Json, Number};
use soa::loop_laws::salvage_cancelled_loop;
use soa::loop_rules::{
    accepts_steering, after_reply, context_use, find_tool, missing_calls, next_step,
    offered_definitions, plan_call, record_loop_event, saved_answer, steer_events, CallPlan,
    LoopStep,
};
use soa::mcp::McpManager;
use soa::model::{FunctionCall, Message, ModelResponse, ToolCall, Usage};
use soa::pipeline::PipelineContext;
use soa::reprompt::{parse_reprompt, reprompt_tool};
use soa::setup::{build_targets, stage_options, stage_prompt};
use soa::table::Table;
use soa::template::{render_template, TemplateError};
use soa::tools::wildcard_match;
use soa::toolset::{assemble_tools, sanitize_tool_name, StageTool, ToolBinding};

fn convert(v: &serde_json::Value) -> Json {
    match v {
        serde_json::Value::Null => Json::Null,
        serde_json::Value::Bool(b) => Json::Bool(*b),
        serde_json::Value::Number(n) => Json::Number(match (n.as_u64(), n.as_i64()) {
            (Some(u), _) => Number::Unsigned(u),
            (None, Some(i)) => Number::Negative(i),
            _ => Number::Decimal(n.to_string()),
        }),
        serde_json::Value::String(s) => Json::Text(s.clone()),
        serde_json::Value::Array(items) => Json::Array(items.iter().map(convert).collect()),
        serde_json::Value::Object(map) => {
            Json::Object(map.iter().map(|(k, v)| (k.clone(), convert(v))).collect())
        }
    }
}

fn js(text: &str) -> Json {
    convert(&serde_json::from_str::<serde_json::Value>(text).unwrap())
}

fn no_args() -> Json {
    Json::Object(Vec::new())
}

fn tool_call(id: &str, name: &str) -> ToolCall {
    ToolCall {
        id: id.to_string(),
        function: FunctionCall { name: name.to_string(), arguments: no_args() },
    }
}

fn usage(prompt: u64, completion: u64) -> Option<Usage> {
    Some(Usage { prompt_tokens: prompt, completion_tokens: completion, ..Usage::default() })
}

fn user(content: &str) -> Message {
    Message::User { content: content.to_string() }
}

fn stage(name: &str, model: &str) -> Stage {
    Stage {
        name: name.to_string(),
        model: model.to_string(),
        mode: Mode::ReadOnly,
        mcp: Vec::new(),
        web_search: false,
        web_fetch: false,
        system_prompt: None,
        system_prompt_file: None,
        prompt: None,
        max_turns: None,
        max_tokens: None,
        can_reprompt: Vec::new(),
        subagents: Vec::new(),
        skills: Vec::new(),
        shell: false,
        shell_allow: Vec::new(),
        files: false,
        require_approval: false,
        approval_effects: Vec::new(),
        auto_approve: Vec::new(),
    }
}

fn agent(model: &str, description: &str) -> Agent {
    Agent {
        description: description.to_string(),
        model: model.to_string(),
        mode: Mode::ReadOnly,
        mcp: Vec::new(),
        web_search: false,
        web_fetch: false,
        system_prompt: None,
        system_prompt_file: None,
        max_turns: None,
        max_tokens: None,
        subagents: Vec::new(),
        skills: Vec::new(),
        shell: false,
        shell_allow: Vec::new(),
        files: false,
        require_approval: false,
        approval_effects: Vec::new(),
        auto_approve: Vec::new(),
    }
}

fn model(provider: &str, id: &str) -> Model {
    Model {
        provider: provider.to_string(),
        model: id.to_string(),
        max_tokens: None,
        context_tokens: None,
        fallback: Vec::new(),
        allow_external_fallback: false,
    }
}

fn texts(items: &[&str]) -> Vec<String> {
    items.iter().map(|s| s.to_string()).collect()
}

fn config_with(models: Vec<(&str, Model)>, stages: Vec<Stage>) -> Config {
    let mut config = Config {
        settings: Settings::default(),
        providers: Table::new(),
        models: Table::new(),
        mcp: Table::new(),
        agents: Table::new(),
        workflows: Table::new(),
        stages,
        hooks: Vec::new(),
        base_dir: "/".to_string(),
        project_contexts: Vec::new(),
    };
    config.providers.insert(
        "p".to_string(),
        Provider {
            base_url: "http://localhost/v1".to_string(),
            api_key: None,
            stream: true,
            data_boundary: DataBoundary::Local,
            adapter: ProviderAdapterKind::OpenAiChatCompletions,
            headers: Table::new(),
        },
    );
    for (name, m) in models {
        config.models.insert(name.to_string(), m);
    }
    config
}

fn no_servers() -> McpManager {
    McpManager { connections: Table::new() }
}

fn names(tools: &[StageTool]) -> Vec<String> {
    tools.iter().map(|t| t.definition.name.clone()).collect()
}

#[test]
fn salvage_closes_interrupted_tool_rounds() {
    // Nothing recorded: nothing to salvage.
    assert!(salvage_cancelled_loop(&Vec::new()).unwrap().is_none());

    let events = vec![
        AgentLoopEvent::Started { system: None, messages: vec![user("task")] },
        AgentLoopEvent::Assistant {
            content: None,
            tool_calls: vec![tool_call("c1", "write_file"), tool_call("c2", "shell")],
            usage: None,
        },
        // The turn is interrupted with only the first result recorded.
        AgentLoopEvent::ToolResult { call_index: 0, content: "wrote `x`".to_string() },
    ];
    let messages = salvage_cancelled_loop(&events).unwrap().unwrap();
    assert_eq!(messages.len(), 4); // user, assistant, recorded + synthetic results
    assert!(matches!(
        &messages[1],
        Message::Assistant { tool_calls: Some(calls), .. } if calls.len() == 2
    ));
    let Message::Tool { content, tool_call_id } = &messages[2] else {
        panic!("expected the recorded tool result");
    };
    assert_eq!((content.as_str(), tool_call_id.as_str()), ("wrote `x`", "c1"));
    let Message::Tool { content, tool_call_id } = &messages[3] else {
        panic!("expected a synthetic result for the unfinished call");
    };
    assert_eq!(tool_call_id, "c2");
    assert!(content.contains("cancelled"), "{content}");
}

#[test]
fn agent_event_log_replays_partial_parallel_round_in_call_order() {
    let mut events = vec![
        AgentLoopEvent::Started {
            system: Some("system".to_string()),
            messages: vec![user("task")],
        },
        AgentLoopEvent::Assistant {
            content: None,
            tool_calls: vec![tool_call("first", "read_a"), tool_call("second", "read_b")],
            usage: usage(10, 2),
        },
        // Parallel completion order is intentionally reversed.
        AgentLoopEvent::ToolResult { call_index: 1, content: "b".to_string() },
    ];
    let partial = replay_agent_loop(&events).ok().unwrap();
    assert_eq!(partial.turns, 1);
    assert_eq!(partial.messages.len(), 2);
    assert_eq!(partial.pending.unwrap().results.iter().filter(|r| r.is_some()).count(), 1);

    events.push(AgentLoopEvent::ToolResult { call_index: 0, content: "a".to_string() });
    let complete = replay_agent_loop(&events).ok().unwrap();
    assert!(complete.pending.is_none());
    let ids: Vec<&str> = complete
        .messages
        .iter()
        .filter_map(|message| match message {
            Message::Tool { tool_call_id, .. } => Some(tool_call_id.as_str()),
            _ => None,
        })
        .collect();
    assert_eq!(ids, vec!["first", "second"]);
}

/// Two rounds of three calls, with the results in the given orders.
fn two_rounds(first: [usize; 3], second: [usize; 3], shown: usize) -> Vec<AgentLoopEvent> {
    let turn = || AgentLoopEvent::Assistant {
        content: None,
        tool_calls: vec![tool_call("x", "a"), tool_call("y", "b"), tool_call("z", "c")],
        usage: usage(10, 2),
    };
    let result = |round: &str, call_index: usize| AgentLoopEvent::ToolResult {
        call_index,
        content: format!("{round}{call_index}"),
    };
    let mut events =
        vec![AgentLoopEvent::Started { system: None, messages: vec![user("task")] }, turn()];
    events.extend(first.map(|call| result("first", call)));
    events.push(AgentLoopEvent::UserMessage { content: "go on".to_string() });
    events.push(turn());
    events.push(AgentLoopEvent::ToolStarted { call_index: 2 });
    events.extend(second.into_iter().take(shown).map(|call| result("second", call)));
    events
}

#[test]
fn the_order_of_results_is_immaterial() {
    let contents = |events: &Vec<AgentLoopEvent>| -> Vec<String> {
        let state = replay_agent_loop(events).ok().unwrap();
        assert_eq!((state.turns, state.system.is_none()), (2, true));
        assert!(state.usage == usage(10, 2) && state.finished.is_none());
        state
            .messages
            .into_iter()
            .map(|message| match message {
                Message::Tool { content, tool_call_id } => format!("{tool_call_id}={content}"),
                Message::User { content } => content,
                _ => "turn".to_string(),
            })
            .collect()
    };
    let expected = vec![
        "task", "turn", "x=first0", "y=first1", "z=first2", "go on", "turn", "x=second0",
        "y=second1", "z=second2",
    ];
    assert_eq!(contents(&two_rounds([0, 1, 2], [0, 1, 2], 3)), expected);
    assert_eq!(contents(&two_rounds([2, 0, 1], [1, 2, 0], 3)), expected);
    assert_eq!(contents(&two_rounds([1, 2, 0], [2, 1, 0], 3)), expected);

    // A round that is not complete has the same results, too.
    for order in [[0, 2, 1], [2, 0, 1]] {
        let state = replay_agent_loop(&two_rounds([0, 1, 2], order, 2)).ok().unwrap();
        let round = state.pending.unwrap();
        assert_eq!(
            round.results,
            vec![Some("second0".to_string()), None, Some("second2".to_string())]
        );
        assert_eq!(round.started, vec![false, false, true]);
    }
}

#[test]
fn queued_messages_are_delivered_between_rounds() {
    let mut events = two_rounds([0, 1, 2], [0, 1, 2], 2);
    assert!(!accepts_steering(&replay_agent_loop(&events).ok().unwrap()));
    events.push(AgentLoopEvent::ToolResult { call_index: 2, content: "last".to_string() });
    let state = replay_agent_loop(&events).ok().unwrap();
    assert!(accepts_steering(&state));
    let before = state.messages.len();
    let effects = steer_events(&texts(&["one", "two"]));
    assert_eq!(effects.notices, vec!["↪ delivered 2 queued message(s) to the model"]);
    events.extend(effects.events);
    let state = replay_agent_loop(&events).ok().unwrap();
    assert_eq!(state.messages.len(), before + 2);
    assert!(matches!(state.messages.last(), Some(Message::User { content }) if content == "two"));
    assert!(steer_events(&Vec::new()).notices.is_empty());
    events.push(AgentLoopEvent::Finished {
        outcome: StageOutcome::Final("done".to_string()),
        usage: None,
    });
    assert!(!accepts_steering(&replay_agent_loop(&events).ok().unwrap()));
}

#[test]
fn agent_event_log_finished_response_is_immediately_resumable() {
    let events = vec![
        AgentLoopEvent::Started { system: None, messages: vec![user("task")] },
        AgentLoopEvent::Finished {
            outcome: StageOutcome::Final("done".to_string()),
            usage: usage(4, 1),
        },
    ];
    let replayed = replay_agent_loop(&events).ok().unwrap();
    assert!(matches!(replayed.finished, Some(StageOutcome::Final(s)) if s == "done"));
    assert!(matches!(
        replayed.messages.last(),
        Some(Message::Assistant { content: Some(content), tool_calls: None, .. })
            if content == "done"
    ));
}

#[test]
fn renders_all_placeholder_kinds() {
    let mut outputs: Table<String> = Table::new();
    outputs.insert("plan".to_string(), "the plan".to_string());
    let rendered = render_template(
        "task: {{input}}; prev: {{previous}}; plan: {{ stage.plan }}",
        "do it",
        Some("prior"),
        &outputs,
    )
    .ok()
    .unwrap();
    assert_eq!(rendered, "task: do it; prev: prior; plan: the plan");
}

#[test]
fn missing_stage_output_errors() {
    let err = render_template("{{stage.nope}}", "x", None, &Table::new()).err().unwrap();
    assert!(err.message().contains("nope"));
}

#[test]
fn agent_tools_gated_by_mode_and_depth() {
    let mut s = stage("s", "m");
    s.subagents = texts(&["reader", "writer", "sheller"]);
    let mut config = config_with(vec![("m", model("p", "x"))], vec![s]);
    config.settings.searxng_url = Some("http://localhost:8888".to_string());
    let mut reader = agent("m", "reads things");
    reader.web_search = true;
    let mut writer = agent("m", "");
    writer.mode = Mode::ReadWrite;
    let mut sheller = agent("m", "");
    sheller.shell = true;
    config.agents.insert("reader".to_string(), reader);
    config.agents.insert("writer".to_string(), writer);
    config.agents.insert("sheller".to_string(), sheller);
    let mcp = no_servers();

    // Network egress remains read-like, but write mode and process execution
    // cannot cross a read-only delegation boundary.
    let offered = assemble_tools(&config.stages[0].tool_profile(), &config, &mcp, 0).ok().unwrap();
    assert_eq!(names(&offered), vec!["agent__reader"]);

    // At the depth cap (default max_agent_depth = 2) no agents are offered.
    let at_cap = assemble_tools(&config.stages[0].tool_profile(), &config, &mcp, 2).ok().unwrap();
    assert!(at_cap.is_empty());
}

#[test]
fn offered_names_may_be_advertised() {
    let long = "größe 1".repeat(20);
    let mut s = stage("s", "m");
    s.subagents = vec![long.clone(), String::new()];
    s.files = true;
    s.shell = true;
    let mut config = config_with(vec![("m", model("p", "x"))], vec![s]);
    config.agents.insert(long, agent("m", "reads"));
    config.agents.insert(String::new(), agent("m", "reads"));
    let offered =
        assemble_tools(&config.stages[0].tool_profile(), &config, &no_servers(), 0).ok().unwrap();
    let names = names(&offered);
    assert_eq!(names.len(), 7);
    assert!(names[5].starts_with("agent__gr--e-1gr--e-1"), "{}", names[5]);
    assert_eq!((names[5].len(), names[6].as_str()), (64, "agent__"));
    assert!(names.iter().all(|name| !name.is_empty()
        && name.len() <= 64
        && name.chars().all(|c| c.is_ascii_alphanumeric() || c == '_' || c == '-')));
}

#[test]
fn web_fetch_is_assembled_from_the_profile_flag() {
    let mut s = stage("s", "m");
    s.web_fetch = true;
    let config = config_with(vec![("m", model("p", "x"))], vec![s]);
    let tools =
        assemble_tools(&config.stages[0].tool_profile(), &config, &no_servers(), 0).ok().unwrap();
    assert_eq!(tools.len(), 1);
    assert_eq!(tools[0].definition.name, "web_fetch");
    // Egress is read-like: available to read-only stages, gateable via
    // approval_effects = ["network_egress"].
    assert!(!tools[0].effects.mutating_or_process());
    assert!(tools[0].effects.intersects(&[ToolEffect::NetworkEgress]));

    let descriptor =
        call_descriptor(&ToolBinding::WebFetch, &js(r#"{"url": "https://example.com/doc"}"#));
    assert_eq!(descriptor.descriptor, "web_fetch https://example.com/doc");
    assert_eq!(descriptor.always_pattern, "web_fetch *");
}

fn chained() -> Config {
    let mut a = model("p", "a-id");
    a.fallback = texts(&["b", "c"]);
    let mut b = model("p", "b-id");
    b.fallback = texts(&["d", "a"]);
    config_with(
        vec![("a", a), ("b", b), ("c", model("p", "c-id")), ("d", model("p", "d-id"))],
        vec![stage("s", "a")],
    )
}

#[test]
fn fallback_chain_resolves_breadth_first_and_cuts_cycles() {
    let config = chained();
    let client = ModelClient {
        targets: build_targets(&config, "a", None, &Vec::new()).ok().unwrap(),
        retries: 0,
    };
    // a's own fallbacks first, then theirs; the cycle back to `a` is cut.
    assert_eq!(client.target_labels(), vec!["a", "b", "c", "d"]);
    // A model with no fallbacks yields a single target.
    let solo = ModelClient {
        targets: build_targets(&config, "c", None, &Vec::new()).ok().unwrap(),
        retries: 0,
    };
    assert_eq!(solo.target_labels(), vec!["c"]);
}

#[test]
fn targets_carry_the_configured_values() {
    let config = chained();
    let targets = build_targets(&config, "a", Some(7), &texts(&["b"])).ok().unwrap();
    assert_eq!(targets[1].model, "b-id");
    assert_eq!(targets[1].adapter, "openai_chat_completions");
    assert_eq!(targets[1].max_tokens, Some(7));
    assert!(targets[1].priced && !targets[0].priced);
    assert!(!targets[0].external && targets[0].stream);
    assert_eq!(
        build_targets(&config, "ghost", None, &Vec::new()).err().unwrap(),
        "unknown model `ghost`"
    );
    assert_eq!(fallback_chain(&config, "a").ok().unwrap(), vec!["a", "b", "c", "d"]);
}

#[test]
fn parallel_round_requires_every_call_to_be_safe() {
    let call = |name: &str| tool_call("x", name);
    let parallel_safe = |name: &str| match name {
        "read" => Some(true),
        "write" => Some(false),
        _ => None,
    };
    let safety = |calls: &Vec<ToolCall>| -> Vec<Option<bool>> {
        calls.iter().map(|c| parallel_safe(c.function.name.as_str())).collect()
    };
    let reads = vec![call("read"), call("read")];
    assert!(parallel_round(true, &reads, &safety(&reads)));
    // Disabled by config, single call, any unsafe call, or any unknown tool.
    assert!(!parallel_round(false, &reads, &safety(&reads)));
    let one = vec![call("read")];
    assert!(!parallel_round(true, &one, &safety(&one)));
    let mixed = vec![call("read"), call("write")];
    assert!(!parallel_round(true, &mixed, &safety(&mixed)));
    let unknown = vec![call("read"), call("reprompt_stage")];
    assert!(!parallel_round(true, &unknown, &safety(&unknown)));
}

#[test]
fn approval_policy_can_add_read_like_effects() {
    let network = ToolEffects::one(ToolEffect::NetworkEgress);
    assert!(!CallPolicy::approval_required(true, &[], network));
    assert!(CallPolicy::approval_required(true, &[ToolEffect::NetworkEgress], network));
    assert!(!CallPolicy::approval_required(false, &[ToolEffect::NetworkEgress], network));

    // Compatibility defaults always gate mutation and process execution.
    assert!(CallPolicy::approval_required(
        true,
        &[],
        ToolEffects::one(ToolEffect::FilesystemWrite)
    ));
    assert!(CallPolicy::approval_required(
        true,
        &[],
        ToolEffects::one(ToolEffect::ProcessExecute)
    ));
}

#[test]
fn unions_of_effects_are_values() {
    let none = ToolEffects::none();
    let read = ToolEffects::one(ToolEffect::FilesystemRead);
    let write = ToolEffects::one(ToolEffect::FilesystemWrite);
    let last = ToolEffects::one(ToolEffect::ExternalMutation);
    let mut both = read;
    both.insert(ToolEffect::FilesystemWrite);
    assert!(read.union(write) == both && write.union(read) == both);
    assert!(both.union(both) == both && both.union(none) == both && none.union(both) == both);
    assert!(both.union(last) == read.union(write.union(last)));
    assert!(both != read && read != none);
    assert!(both.contains(ToolEffect::FilesystemRead));
    assert!(both.contains(ToolEffect::FilesystemWrite));
    assert!(!both.contains(ToolEffect::ExternalMutation));
}

#[test]
fn compound_shell_commands_cannot_use_pattern_approvals() {
    let binding = ToolBinding::Shell { allow: Vec::new() };
    let simple = call_descriptor(&binding, &js(r#"{"command": "cargo test --all"}"#));
    assert!(simple.pattern_safe);
    assert!(wildcard_match("shell cargo *", &simple.descriptor));

    let compound = call_descriptor(&binding, &js(r#"{"command": "cargo test; dangerous-command"}"#));
    assert!(!compound.pattern_safe);
    // It still textually matches the broad pattern, proving that the separate
    // pattern_safe gate is what prevents auto-approval.
    assert!(wildcard_match("shell cargo *", &compound.descriptor));
}

#[test]
fn file_tools_gated_by_mode() {
    let mut reader = stage("reader", "m");
    reader.files = true;
    let mut writer = stage("writer", "m");
    writer.mode = Mode::ReadWrite;
    writer.files = true;
    let config = config_with(
        vec![("m", model("p", "x"))],
        vec![reader, writer, stage("none", "m")],
    );
    let mcp = no_servers();
    let offered = |index: usize| {
        assemble_tools(&config.stages[index].tool_profile(), &config, &mcp, 0).ok().unwrap()
    };
    assert_eq!(names(&offered(0)), vec!["read_file", "list_dir", "glob", "grep"]);
    assert_eq!(
        names(&offered(1)),
        vec!["read_file", "list_dir", "glob", "grep", "write_file", "edit_lines", "edit_file"]
    );
    assert!(offered(2).is_empty());

    let writer_tools = offered(1);
    let read = writer_tools.iter().find(|t| t.definition.name == "read_file").unwrap();
    let write = writer_tools.iter().find(|t| t.definition.name == "write_file").unwrap();
    assert!(read.effects.contains(ToolEffect::FilesystemRead));
    assert!(write.effects.contains(ToolEffect::FilesystemWrite));
}

fn gauged() -> Config {
    let mut m = model("p", "x");
    m.context_tokens = Some(1000);
    config_with(vec![("gauged", m), ("unbounded", model("p", "y"))], vec![stage("s", "gauged")])
}

#[test]
fn context_pressure_gated_by_threshold_and_capacity() {
    let config = gauged();
    let pressure = |threshold: f64, name: &str, u: Option<Usage>| -> Option<(u64, u64)> {
        let (used, capacity) = context_use(&config, name, u)?;
        (threshold > 0.0 && used as f64 >= capacity as f64 * threshold)
            .then_some((used, capacity))
    };
    // Default threshold 0.8 of 1000: fires at 800 (prompt + completion), not below.
    assert_eq!(pressure(0.8, "gauged", usage(700, 100)), Some((800, 1000)));
    assert_eq!(pressure(0.8, "gauged", usage(700, 99)), None);
    // No declared window, no reported usage, or unknown model: never fires.
    assert_eq!(pressure(0.8, "unbounded", usage(9000, 0)), None);
    assert_eq!(pressure(0.8, "gauged", None), None);
    assert_eq!(pressure(0.8, "missing", usage(9000, 0)), None);
    // Threshold 0 disables the check entirely.
    assert_eq!(pressure(0.0, "gauged", usage(9000, 0)), None);
}

#[test]
fn sheds_older_tool_results_only() {
    let big = "x".repeat(1000);
    let tool = |content: &str, id: &str| Message::Tool {
        content: content.to_string(),
        tool_call_id: id.to_string(),
    };
    let mut messages = vec![
        Message::System { content: "s".into() },
        user("u"),
        tool(&big, "1"),
        tool(&big, "2"),
        tool(&big, "3"),
    ];
    assert_eq!(shed_context(&mut messages, 2), 1);
    let Message::Tool { content, .. } = &messages[2] else { panic!() };
    assert!(content.starts_with("[trimmed"));
    assert!(content.len() < 400);
    // Recent two untouched.
    let Message::Tool { content, .. } = &messages[4] else { panic!() };
    assert_eq!(content, &big);
    // Idempotent: already-trimmed entries aren't re-counted.
    assert_eq!(shed_context(&mut messages, 2), 0);
    // Small results aren't worth trimming.
    let mut small = vec![tool("tiny", "1"), tool(&big, "2")];
    assert_eq!(shed_context(&mut small, 1), 0);
}

#[test]
fn clamps_oversized_tool_output() {
    let big = "x".repeat(50);
    let clamped = clamp_tool_output(big.clone(), 10);
    assert!(clamped.starts_with("xxxxxxxxxx\n… [tool output truncated: 50 characters"));
    // Under the limit and limit-0 (disabled) pass through unchanged.
    assert_eq!(clamp_tool_output(big.clone(), 50), big);
    assert_eq!(clamp_tool_output(big.clone(), 0), big);
}

#[test]
fn sanitizes_tool_names() {
    assert_eq!(sanitize_tool_name("fs__read.file"), "fs__read-file");
    assert_eq!(sanitize_tool_name(&"x".repeat(100)).len(), 64);
}

#[test]
fn template_faults_have_their_words() {
    let none: Table<String> = Table::new();
    let first = render_template("{{previous}}", "x", None, &none).err().unwrap();
    assert!(matches!(first, TemplateError::PreviousInFirst));
    let unknown = render_template("{{what}}", "x", None, &none).err().unwrap();
    assert!(matches!(unknown, TemplateError::Unknown(_)));
    assert!(unknown.message().contains("what"));
}

#[test]
fn broken_logs_are_refused() {
    let started = || AgentLoopEvent::Started { system: None, messages: vec![user("t")] };
    let finished = || AgentLoopEvent::Finished {
        outcome: StageOutcome::Final("x".to_string()),
        usage: None,
    };
    let result = |i: usize| AgentLoopEvent::ToolResult { call_index: i, content: "r".to_string() };
    let turn = || AgentLoopEvent::Assistant {
        content: None,
        tool_calls: vec![tool_call("a", "x")],
        usage: None,
    };
    let fault = |events: Vec<AgentLoopEvent>| replay_agent_loop(&events).err().unwrap();
    assert_eq!(fault(vec![started(), finished(), started()]), ReplayError::AfterFinished);
    assert_eq!(fault(vec![started(), started()]), ReplayError::MisplacedStarted);
    assert_eq!(fault(vec![turn()]), ReplayError::NotStarted);
    assert_eq!(
        fault(vec![started(), turn(), AgentLoopEvent::ContextShed { keep_recent: 1 }]),
        ReplayError::ShedDuringRound
    );
    assert_eq!(fault(vec![started(), turn(), turn()]), ReplayError::TurnDuringRound);
    assert_eq!(
        fault(vec![
            started(),
            AgentLoopEvent::Assistant { content: None, tool_calls: Vec::new(), usage: None }
        ]),
        ReplayError::NoToolCalls
    );
    assert_eq!(
        fault(vec![started(), AgentLoopEvent::ToolStarted { call_index: 0 }]),
        ReplayError::IntentOutsideRound
    );
    assert_eq!(
        fault(vec![started(), turn(), AgentLoopEvent::ToolStarted { call_index: 3 }]),
        ReplayError::IntentOutOfRange(3)
    );
    assert_eq!(fault(vec![started(), result(0)]), ReplayError::ResultOutsideRound);
    assert_eq!(fault(vec![started(), turn(), result(2)]), ReplayError::ResultOutOfRange(2));
    let two = AgentLoopEvent::Assistant {
        content: None,
        tool_calls: vec![tool_call("a", "x"), tool_call("b", "x")],
        usage: None,
    };
    assert_eq!(
        fault(vec![started(), two, result(0), result(0)]),
        ReplayError::RepeatedResult(0)
    );
    assert_eq!(
        fault(vec![started(), turn(), AgentLoopEvent::UserMessage { content: "hi".to_string() }]),
        ReplayError::SteerDuringRound
    );
    assert_eq!(fault(vec![started(), turn(), finished()]), ReplayError::FinishDuringRound);
    assert!(!ReplayError::NotStarted.message().is_empty());
}

#[test]
fn the_loop_runs_from_its_log() {
    let s = stage("s", "m");
    let config = config_with(vec![("m", model("p", "x"))], vec![s]);
    let targets = texts(&["plan"]);
    let options = stage_options(&config, &config.stages[0], Some("sys"), &targets);
    assert_eq!((options.owner_kind, options.owner, options.max_turns), ("stage", "s", 16));

    let mut events = Vec::new();
    record_loop_event(
        &mut events,
        AgentLoopEvent::Started { system: Some("sys".to_string()), messages: vec![user("task")] },
    );
    let state = replay_agent_loop(&events).ok().unwrap();
    assert!(matches!(next_step(&state, &options), LoopStep::AskModel));

    let reply = ModelResponse {
        content: None,
        tool_calls: vec![tool_call("1", "read_file"), tool_call("2", "gone")],
        reasoning: None,
        usage: usage(10, 2),
        truncation: None,
    };
    for event in after_reply(&state.messages, reply, None).events {
        record_loop_event(&mut events, event);
    }
    let state = replay_agent_loop(&events).ok().unwrap();
    assert!(matches!(next_step(&state, &options), LoopStep::RunTools));
    let round = state.pending.as_ref().unwrap();
    assert_eq!(missing_calls(round), vec![0, 1]);
    // A tool that is not offered any more is answered without running anything.
    let none: Vec<StageTool> = Vec::new();
    assert!(matches!(plan_call(round, 1, &none, &targets), CallPlan::Unknown(_)));
    assert_eq!(find_tool(&none, "gone"), None);
    assert_eq!(offered_definitions(&none, &targets).len(), 1);

    for index in 0..2 {
        record_loop_event(
            &mut events,
            AgentLoopEvent::ToolResult { call_index: index, content: "r".to_string() },
        );
    }
    let state = replay_agent_loop(&events).ok().unwrap();
    assert!(matches!(next_step(&state, &options), LoopStep::AskModel));
    let cut = ModelResponse {
        content: Some("half".to_string()),
        tool_calls: Vec::new(),
        reasoning: None,
        usage: None,
        truncation: Some("length".to_string()),
    };
    let effects = after_reply(&state.messages, cut, None);
    assert_eq!(effects.notices.len(), 1);
    for event in effects.events {
        record_loop_event(&mut events, event);
    }
    let state = replay_agent_loop(&events).ok().unwrap();
    assert!(matches!(next_step(&state, &options), LoopStep::Done));
    let outcome = state.finished.unwrap();
    let answer = saved_answer(&outcome, events.len(), events.len()).unwrap();
    assert!(answer.starts_with("half\n\n[warning: this response was truncated"));
    assert!(saved_answer(&outcome, events.len(), 1).is_none());
}

#[test]
fn turn_limits_stop_the_loop() {
    let mut s = stage("s", "m");
    s.max_turns = Some(1);
    let config = config_with(vec![("m", model("p", "x"))], vec![s]);
    let none = Vec::new();
    let options = stage_options(&config, &config.stages[0], None, &none);
    let events = vec![
        AgentLoopEvent::Started { system: None, messages: vec![user("task")] },
        AgentLoopEvent::Assistant {
            content: None,
            tool_calls: vec![tool_call("1", "x")],
            usage: None,
        },
        AgentLoopEvent::ToolResult { call_index: 0, content: "r".to_string() },
    ];
    let state = replay_agent_loop(&events).ok().unwrap();
    assert!(matches!(next_step(&state, &options), LoopStep::TurnLimit(_)));
    assert_eq!(steer_events(&texts(&["a", "b"])).events.len(), 2);
}

#[test]
fn interrupted_mutations_are_not_repeated() {
    let mut writer = stage("writer", "m");
    writer.mode = Mode::ReadWrite;
    writer.files = true;
    let config = config_with(vec![("m", model("p", "x"))], vec![writer]);
    let tools =
        assemble_tools(&config.stages[0].tool_profile(), &config, &no_servers(), 0).ok().unwrap();
    let events = vec![
        AgentLoopEvent::Started { system: None, messages: vec![user("task")] },
        AgentLoopEvent::Assistant {
            content: None,
            tool_calls: vec![tool_call("1", "write_file"), tool_call("2", "read_file")],
            usage: None,
        },
        AgentLoopEvent::ToolStarted { call_index: 0 },
    ];
    let state = replay_agent_loop(&events).ok().unwrap();
    let round = state.pending.unwrap();
    match plan_call(&round, 0, &tools, &Vec::new()) {
        CallPlan::Answer { content, notice } => {
            assert!(content.starts_with("INTERRUPTED"));
            assert!(notice.unwrap().contains("`write_file`"));
        }
        _ => panic!("an interrupted mutation is answered, not run"),
    }
    assert!(matches!(
        plan_call(&round, 1, &tools, &Vec::new()),
        CallPlan::Execute { intent: false, .. }
    ));
}

#[test]
fn gates_follow_policy_and_answers() {
    let binding = ToolBinding::Shell { allow: Vec::new() };
    let described = call_descriptor(&binding, &js(r#"{"command": "cargo test"}"#));
    let auto = texts(&["shell cargo *"]);
    let none = Vec::new();
    let open = CallPolicy { require_approval: true, auto_approve: &auto };
    let closed = CallPolicy { require_approval: true, auto_approve: &none };
    let mut approvals = Approvals::new();
    assert!(matches!(gate(&described, &open, &approvals), Gate::Allowed));
    assert!(matches!(gate(&described, &closed, &approvals), Gate::Ask));
    assert!(matches!(gate(&described, &closed, &Approvals::non_interactive()), Gate::Refused(_)));
    assert!(after_answer(&described, Decision::Deny, &mut approvals).is_err());
    assert!(after_answer(&described, Decision::AlwaysAllow, &mut approvals).is_ok());
    assert!(matches!(gate(&described, &closed, &approvals), Gate::Allowed));
}

#[test]
fn calls_are_prepared_or_answered() {
    let config = config_with(vec![("m", model("p", "x"))], vec![stage("s", "m")]);
    let mcp = no_servers();
    let shell = ToolBinding::Shell { allow: texts(&["cargo *"]) };
    let run = prepare_call(&shell, &js(r#"{"command": "cargo test"}"#), &config, &mcp);
    assert!(matches!(run, Ok(ToolRequest::Shell { command, .. }) if command == "cargo test"));
    let refused = prepare_call(&shell, &js(r#"{"command": "rm -r x"}"#), &config, &mcp);
    assert!(matches!(refused, Ok(ToolRequest::Reply(s)) if s.starts_with("ERROR")));
    let agent = ToolBinding::Agent { agent: "helper".to_string() };
    let blank = prepare_call(&agent, &no_args(), &config, &mcp);
    assert!(matches!(
        blank,
        Ok(ToolRequest::Reply(s)) if s == "ERROR: the agent needs a non-empty `task` string"
    ));
    assert_eq!(failure_reply(&agent, "boom"), "ERROR: agent `helper` failed: boom");
}

#[test]
fn reprompts_name_an_offered_stage() {
    let targets = texts(&["plan"]);
    assert_eq!(reprompt_tool(&targets).name, "reprompt_stage");
    let ok = parse_reprompt(&js(r#"{"stage": "plan", "instructions": "again"}"#), &targets);
    assert!(matches!(ok, Ok(StageOutcome::Reprompt { target, .. }) if target == "plan"));
    let other = parse_reprompt(&js(r#"{"stage": "x", "instructions": "again"}"#), &targets);
    assert_eq!(
        other.err().unwrap(),
        "cannot reprompt stage `x` — allowed targets: plan"
    );
    let empty = parse_reprompt(&js(r#"{"stage": "plan", "instructions": " "}"#), &targets);
    assert_eq!(empty.err().unwrap(), "`instructions` must not be empty");
}

#[test]
fn prompts_are_filled_from_the_pipeline() {
    let mut context = PipelineContext::new("the task");
    let s = stage("s", "m");
    assert_eq!(stage_prompt(&s, true, &context).ok().unwrap(), "the task");
    context.record("plan", "a plan".to_string());
    assert_eq!(
        stage_prompt(&s, false, &context).ok().unwrap(),
        "# Task\nthe task\n\n# Input from previous stage\na plan"
    );
}

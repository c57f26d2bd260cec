use serde_json::Value;
use soa::agent_loop::{AgentLoopEvent, StageOutcome};
use soa::approval::{ApprovalRequest, Approvals, Decision};
use soa::clock::{date_of, format_epoch, timestamp_id, Date};
use soa::config::{
    Config, DataBoundary, Hook, HookEvent, Mode, Model, Provider, ProviderAdapterKind, Settings,
    Stage, Workflow,
};
use soa::diff::{DiffEntry, Snapshot};
use soa::file_edit::{
    check_edit, edit_lines, edit_text, line_hash, parse_anchor, read_reply, write_reply,
};
use soa::files::{
    definitions, read_request, FileOp, FileRequest, MAX_GLOB_RESULTS, MAX_GREP_FILE_BYTES,
    MAX_WALK_ENTRIES,
};
use soa::hooks::{
    describe_exit, hook_output, hook_payload, hook_timeout, matching, post_tool, pre_tool, HookRun,
};
use soa::json::Json;
use soa::listing::{
    check_lines, check_resume, list_stages, no_skills_line, resume_line, run_line, session_line,
    skill_line, stage_heading, task_text, tool_line,
};
use soa::mcp::{
    after_failed_call, call_text, connect_order, must_reconnect, reconnect_failed, server_config,
    CallResult, McpConnection, McpStep, McpTool,
};
use soa::model::Message;
use soa::paths::{file_name, lies_in, normalize, settle, under};
use soa::pipeline::{
    check_active_stage, find_stage, finish_stage, needed_servers, next_stage, offered_targets,
    order_names, resume_order, StageAction,
};
use soa::runs::{
    event_log_path, hydrate_stage_events, latest_run_for, list_runs, log_lines, new_run_id,
    run_path, LogLine, RunState, StageEventRecord, StageProgress, UsageRecord,
};
use soa::search::{
    glob, grep, list_dir, repository_files, walk_directory, EntryKind, GlobSearch, GrepSearch, Walk,
    Walked,
};
use soa::session::Session;
use soa::skills::Skill;
use soa::table::Table;
use soa::terminal::{
    answer, decision_for, prints_final, question, request_lines, StderrStream,
    STREAM_BUFFER_BYTES,
};
use soa::tools::{command_allowed, shell_command_is_simple, wildcard_match};
use soa::usage::{ModelUsage, UsageSnapshot};

fn texts(items: &[&str]) -> Vec<String> {
    items.iter().map(|s| s.to_string()).collect()
}

fn stage(name: &str) -> Stage {
    Stage {
        name: name.to_string(),
        model: "m".to_string(),
        mode: Mode::ReadOnly,
        mcp: Vec::new(),
        web_search: false,
        web_fetch: false,
        system_prompt: None,
        system_prompt_file: None,
        prompt: None,
        max_turns: None,
        max_tokens: None,
        can_reprompt: Vec::new(),
        subagents: Vec::new(),
        skills: Vec::new(),
        shell: false,
        shell_allow: Vec::new(),
        files: false,
        require_approval: false,
        approval_effects: Vec::new(),
        auto_approve: Vec::new(),
    }
}

fn config(stages: Vec<Stage>) -> Config {
    let mut config = Config {
        settings: Settings::default(),
        providers: Table::new(),
        models: Table::new(),
        mcp: Table::new(),
        agents: Table::new(),
        workflows: Table::new(),
        stages,
        hooks: Vec::new(),
        base_dir: "/".to_string(),
        project_contexts: Vec::new(),
    };
    config.providers.insert(
        "p".to_string(),
        Provider {
            base_url: "http://localhost/v1".to_string(),
            api_key: None,
            stream: true,
            data_boundary: DataBoundary::Local,
            adapter: ProviderAdapterKind::OpenAiChatCompletions,
            headers: Table::new(),
        },
    );
    config.models.insert(
        "m".to_string(),
        Model {
            provider: "p".to_string(),
            model: "x".to_string(),
            max_tokens: None,
            context_tokens: None,
            fallback: Vec::new(),
            allow_external_fallback: false,
        },
    );
    config
}

// --- approvals -------------------------------------------------------------

#[test]
fn grants_last_for_the_session() {
    let mut approvals = Approvals::new();
    assert!(approvals.is_interactive());
    assert_eq!(approvals.decide(Some(Decision::AlwaysAllow)), Decision::AlwaysAllow);
    approvals.allow_always("shell cargo *".to_string());
    assert!(approvals.session_allowed("shell cargo build --release"));
    assert!(!approvals.session_allowed("shell rm -rf /"));
    // No answer is a denial, and so is every answer without an approver.
    assert_eq!(approvals.decide(None), Decision::Deny);
    let closed = Approvals::non_interactive();
    assert!(!closed.is_interactive());
    assert_eq!(closed.decide(Some(Decision::Approve)), Decision::Deny);
}

#[test]
fn only_a_clear_yes_approves() {
    assert_eq!(answer(Some("  YES \n")), Decision::Approve);
    assert_eq!(answer(Some("y")), Decision::Approve);
    assert_eq!(answer(Some("Always")), Decision::AlwaysAllow);
    assert_eq!(answer(Some("sure")), Decision::Deny);
    assert_eq!(answer(Some("")), Decision::Deny);
    assert_eq!(answer(None), Decision::Deny);
    assert_eq!(decision_for("a"), Decision::AlwaysAllow);
    let request = ApprovalRequest {
        descriptor: "shell ls".to_string(),
        detail: "ls".to_string(),
        always_pattern: "shell ls *".to_string(),
    };
    assert_eq!(request_lines(&request), vec!["\n⚠ approval needed: shell ls", "  ls"]);
    assert!(question(&request).contains("[a] always (shell ls *)"));
}

#[test]
fn streams_write_lines_bursts_and_late_bytes() {
    let mut stream = StderrStream::new();
    assert!(stream.push("ab", 0).is_none());
    assert_eq!(stream.push("c\n", 0).unwrap(), b"abc\n");
    assert!(stream.push("d", 0).is_none());
    assert_eq!(stream.push("é", 16).unwrap(), "dé".as_bytes());
    let long = "x".repeat(STREAM_BUFFER_BYTES);
    assert_eq!(stream.push(&long, 0).unwrap().len(), STREAM_BUFFER_BYTES);
    assert!(stream.push("tail", 0).is_none());
    assert_eq!(stream.flush().unwrap(), b"tail");
    assert!(stream.flush().is_none());
    assert!(prints_final(false, true) && !prints_final(true, true));
}

// --- hooks -----------------------------------------------------------------

fn hook(event: HookEvent, pattern: &str) -> Hook {
    Hook {
        event,
        pattern: pattern.to_string(),
        command: "true".to_string(),
        timeout_secs: None,
    }
}

#[test]
fn hooks_match_block_and_report() {
    let hooks = vec![
        hook(HookEvent::PreTool, "edit_file *"),
        hook(HookEvent::PostTool, "edit_file *"),
        hook(HookEvent::PreTool, "*"),
    ];
    assert_eq!(matching(&hooks, HookEvent::PreTool, "edit_file src/x.rs"), vec![0, 2]);
    assert_eq!(matching(&hooks, HookEvent::PostTool, "shell ls"), Vec::<usize>::new());
    let failed = HookRun { exit: Some(1), output: "protected file".to_string() };
    let blocked = pre_tool(&failed).unwrap();
    assert!(blocked.contains("BLOCKED"), "{blocked}");
    assert!(blocked.contains("protected file"), "{blocked}");
    assert!(pre_tool(&HookRun { exit: Some(0), output: String::new() }).is_none());
    let result = post_tool(
        "created `src/x.rs` (1 bytes)".to_string(),
        "write_file *",
        &HookRun { exit: Some(1), output: "lint failed in src/x.rs".to_string() },
    );
    assert!(result.starts_with("created `src/x.rs`"), "{result}");
    assert!(result.contains("[post_tool hook `write_file *` exited 1]"), "{result}");
    assert!(result.contains("lint failed in src/x.rs"), "{result}");
    assert!(pre_tool(&HookRun { exit: None, output: String::new() }).is_some());
    assert!(!describe_exit(None).is_empty());
    assert_eq!(hook_output(&b"a\n".to_vec(), &Vec::new()), "a");
    assert_eq!(hook_timeout(&hooks[0], &Settings::default()), 120);
}

#[test]
fn hooks_are_told_of_the_call() {
    let arguments = Json::Object(vec![("command".to_string(), Json::Text("rm".to_string()))]);
    let payload: Value =
        serde_json::from_str(&hook_payload("pre_tool", "shell rm", &arguments, None)).unwrap();
    assert_eq!(payload["tool"], "shell");
    assert_eq!(payload["event"], "pre_tool");
    assert_eq!(payload["arguments"]["command"], "rm");
}

// --- tool servers ----------------------------------------------------------

#[test]
fn servers_are_connected_once_and_anew_once() {
    assert_eq!(connect_order(&texts(&["b", "a", "b"])), vec!["b", "a"]);
    assert!(matches!(after_failed_call("s", "t", false), McpStep::Reconnect));
    assert!(matches!(
        after_failed_call("s", "t", true),
        McpStep::Fail(w) if w == "mcp `s`: `t` failed again after reconnect"
    ));
    assert_eq!(reconnect_failed("s"), "mcp `s`: reconnect after failed call also failed");
    assert!(must_reconnect(3, 3) && !must_reconnect(3, 4));
    assert_eq!(
        server_config(&config(Vec::new()), "x").err().unwrap(),
        "unknown mcp server `x`"
    );
}

#[test]
fn tool_results_become_text() {
    let result = |parts: &[&str], structured: Option<Json>, is_error: Option<bool>| CallResult {
        texts: texts(parts),
        structured,
        is_error,
    };
    assert_eq!(call_text("t", &result(&["a", "b"], None, None)), "a\nb");
    assert_eq!(
        call_text("t", &result(&[], Some(Json::Object(Vec::new())), None)),
        "{}"
    );
    assert_eq!(call_text("t", &result(&["x"], None, Some(true))), "ERROR from tool `t`: x");
    assert_eq!(call_text("t", &result(&[], None, None)), "(tool returned no output)");
    let connection = McpConnection {
        name: "s".to_string(),
        tools: Vec::new(),
        readonly_overrides: texts(&["listed"]),
    };
    let tool = |name: &str, hint: Option<bool>| McpTool {
        name: name.to_string(),
        description: Some("first\nsecond".to_string()),
        input_schema: Json::Null,
        read_only_hint: hint,
    };
    assert!(connection.is_read_only(&tool("listed", None)));
    assert!(connection.is_read_only(&tool("x", Some(true))));
    assert!(!connection.is_read_only(&tool("x", Some(false))));
    assert_eq!(tool_line(&tool("x", None), true), "  x (ro)  first");
}

// --- saved runs ------------------------------------------------------------

fn saved(id: &str, cwd: &str, updated_at: u64) -> RunState {
    let mut state = RunState::new(
        id.to_string(),
        updated_at,
        cwd.to_string(),
        "fix the widget",
        texts(&["a", "b"]),
    );
    state.updated_at = updated_at;
    state
}

fn record(content: &str, elapsed_ms: u64) -> LogLine {
    let mut usage = UsageSnapshot::empty();
    usage.elapsed_ms = elapsed_ms;
    LogLine::Record(StageEventRecord {
        stage: "b".to_string(),
        run: 1,
        event: AgentLoopEvent::UserMessage { content: content.to_string() },
        usage,
        updated_at: elapsed_ms,
    })
}

#[test]
fn saved_runs_take_in_their_event_log() {
    let mut state = saved("r", "/tmp/proj", 10);
    state.position = 1;
    state.runs = 1;
    state.usage.models.insert("coder".to_string(), ModelUsage::empty());
    state.active_stage =
        Some(StageProgress { stage: "b".to_string(), run: 1, events: Vec::new() });
    state.diffs.push(DiffEntry {
        tool: "edit_file".to_string(),
        path: "src/widget.rs".to_string(),
        unified: String::new(),
        added: 3,
        removed: 1,
        before: Snapshot::Unavailable,
    });
    let started = LogLine::Record(StageEventRecord {
        stage: "b".to_string(),
        run: 1,
        event: AgentLoopEvent::Started {
            system: Some("stay focused".to_string()),
            messages: vec![Message::User { content: "continue".to_string() }],
        },
        usage: UsageSnapshot::empty(),
        updated_at: 11,
    });
    // The last line may be cut off by the crash.
    let lines = vec![
        started,
        record("one more detail", 2_345),
        LogLine::Broken("{\"stage\"".to_string()),
    ];
    let loaded = hydrate_stage_events(state, &lines).ok().unwrap();
    assert_eq!(loaded.usage.elapsed_ms, 2_345);
    assert_eq!(loaded.active_stage.as_ref().unwrap().events.len(), 2);
    assert_eq!(loaded.diffs[0].path, "src/widget.rs");
    // A broken line in the middle is a fault.
    let middle = vec![LogLine::Broken("x".to_string()), record("y", 1)];
    assert!(hydrate_stage_events(loaded, &middle).is_err());
    assert_eq!(log_lines(&b"a\n\nb\n".to_vec()).len(), 2);
}

#[test]
fn runs_are_listed_newest_first() {
    let all = list_runs(vec![saved("old", "/p", 1), saved("new", "/q", 2)]);
    assert_eq!(all[0].id, "new");
    assert_eq!(latest_run_for(&all, "/p"), Some(1));
    assert_eq!(latest_run_for(&all, "/nowhere"), None);
    assert_eq!(new_run_id("base", &texts(&["base"])), "base-2");
    assert_eq!(new_run_id("base", &Vec::new()), "base");
    assert_eq!(run_path("/d", "x"), "/d/runs/x.json");
    assert!(event_log_path("/d", "x").starts_with("/d/runs/"));
}

#[test]
fn a_pipeline_runs_to_its_end() {
    let mut second = stage("b");
    second.can_reprompt = texts(&["a", "elsewhere"]);
    second.mcp = texts(&["docs"]);
    let config = config(vec![stage("a"), second]);
    let order = resume_order(&config, &texts(&["a", "b"]), "r").ok().unwrap();
    assert_eq!(order, vec![0, 1]);
    assert_eq!(order_names(&config, &order), vec!["a", "b"]);
    assert_eq!(needed_servers(&config, &order), vec!["docs"]);
    assert_eq!(find_stage(&config, "b").ok().unwrap(), 1);
    assert_eq!(find_stage(&config, "z").err().unwrap(), "no stage named `z`");
    assert!(resume_order(&config, &texts(&["gone"]), "r").err().unwrap().contains("`gone`"));

    let mut state = saved("r", "/p", 1);
    assert!(check_active_stage(&state).is_ok());
    assert!(matches!(
        next_stage(&mut state, &config, &order),
        StageAction::Run { stage: 0, resuming: false, is_first: true, .. }
    ));
    finish_stage(&mut state, &StageOutcome::Final("one".to_string()));
    match next_stage(&mut state, &config, &order) {
        StageAction::Run { stage, targets, is_first, .. } => {
            assert_eq!((stage, is_first), (1, false));
            assert_eq!(targets, vec!["a"]);
        }
        _ => panic!("the second stage is next"),
    }
    finish_stage(
        &mut state,
        &StageOutcome::Reprompt { target: "a".to_string(), instructions: "redo".to_string() },
    );
    assert_eq!((state.position, state.previous.as_deref()), (0, Some("redo")));
    next_stage(&mut state, &config, &order);
    finish_stage(&mut state, &StageOutcome::Final("two".to_string()));
    next_stage(&mut state, &config, &order);
    finish_stage(&mut state, &StageOutcome::Final("three".to_string()));
    assert!(matches!(next_stage(&mut state, &config, &order), StageAction::Finished));
    assert_eq!(state.outputs.get("b").unwrap(), "three");
}

#[test]
fn endless_runs_are_stopped() {
    let mut config = config(vec![stage("a"), stage("b")]);
    config.settings.max_stage_runs = 1;
    let order = vec![0, 1];
    let mut state = saved("r", "/p", 1);
    next_stage(&mut state, &config, &order);
    finish_stage(&mut state, &StageOutcome::Final("one".to_string()));
    assert!(matches!(
        next_stage(&mut state, &config, &order),
        StageAction::TooManyRuns(w) if w.contains("stopped after 1 stage runs")
    ));
    let mut wrong = saved("r", "/p", 1);
    wrong.active_stage =
        Some(StageProgress { stage: "b".to_string(), run: 9, events: Vec::new() });
    assert!(check_active_stage(&wrong).is_err());
}

// --- files -----------------------------------------------------------------

const MAIN: &str = "fn main() {\n    println!(\"hi\");\n}\n";

#[test]
fn paths_stay_inside_the_project() {
    let inside = |path: &str| normalize("/w", path);
    assert_eq!(inside("src/main.rs").ok().unwrap(), "/w/src/main.rs");
    assert_eq!(inside("src/../README.md").ok().unwrap(), "/w/README.md");
    assert!(inside("../outside.txt").ok().map(|p| !lies_in("/w", &p)).unwrap_or(true));
    assert!(settle("x", "/w", "/w/x", "/w", "/w").is_ok());
    // A link that leads out of the project is refused.
    let fault = settle("link/secret.txt", "/w", "/w/link/secret.txt", "/w/link", "/outside");
    assert!(fault.err().unwrap().contains("outside"));
    assert_eq!(under("/w/", "a"), "/w/a");
}

#[test]
fn files_are_read_written_and_edited() {
    assert_eq!(read_reply(MAIN, None, None, false), MAIN);
    assert_eq!(
        read_reply(MAIN, Some(2), Some(1), false),
        "[lines 2-2 of 3]\n    println!(\"hi\");"
    );
    assert_eq!(write_reply("deep/new.txt", "abc", false), "created `deep/new.txt` (3 bytes)");
    assert_eq!(write_reply("deep/new.txt", "abcd", true), "overwrote `deep/new.txt` (4 bytes)");
    let edited = edit_text("src/main.rs", MAIN, "\"hi\"", "\"hello\"", false).ok().unwrap();
    assert_eq!(edited.reply, "edited `src/main.rs` (1 replacement)");
    assert!(edited.content.contains("hello"));
    assert!(edit_text("src/main.rs", MAIN, "nope", "x", false)
        .err()
        .unwrap()
        .contains("not found"));
    let twice = "pub fn add() {}\npub fn add2() {}\n";
    assert!(edit_text("l", twice, "pub fn add", "fn add", false)
        .err()
        .unwrap()
        .contains("occurs 2 times"));
    let all = edit_text("l", twice, "pub fn add", "fn add", true).ok().unwrap();
    assert_eq!(all.reply, "edited `l` (2 replacements)");
    assert_eq!(all.content, "fn add() {}\nfn add2() {}\n");
    assert!(check_edit("", "x").is_err());
    assert!(check_edit("x", "x").is_err());
}

fn anchor_for(content: &str, number: usize) -> String {
    let listing = read_reply(content, None, None, true);
    listing.lines().nth(number - 1).unwrap().split('|').next().unwrap().to_string()
}

#[test]
fn anchored_lines_are_edited_in_place() {
    let path = "src/main.rs";
    let listing = read_reply(MAIN, None, None, true);
    assert!(listing.starts_with(&format!("1:{}|fn main() {{", line_hash("fn main() {"))));
    let window = read_reply(MAIN, Some(2), Some(1), true);
    assert!(window.starts_with("[lines 2-2 of 3]\n2:"), "{window}");

    let anchor = anchor_for(MAIN, 2);
    let first = edit_lines(path, MAIN, &anchor, None, "    println!(\"anchored\");", false);
    let first = first.ok().unwrap();
    assert!(first.reply.starts_with("edited `src/main.rs`: replaced lines 2-2 with 1 line(s)"));
    assert!(first.reply.contains("fresh anchors"));
    assert!(first.content.contains("anchored"));
    // The old anchor is now stale and rejected with the current line.
    let stale = edit_lines(path, &first.content, &anchor, None, "x", false).err().unwrap();
    assert!(stale.contains("stale anchor") && stale.contains("re-read"), "{stale}");

    let top = anchor_for(&first.content, 1);
    let inserted = edit_lines(path, &first.content, &top, None, "// header", true).ok().unwrap();
    assert!(inserted.reply.contains("inserted 1 line(s) after line 1"));
    let second = anchor_for(&inserted.content, 2);
    assert!(second.ends_with(&line_hash("// header")));
    let deleted = edit_lines(path, &inserted.content, &second, None, "", false).ok().unwrap();
    assert!(deleted.reply.contains("deleted lines 2-2"));
    assert_eq!(deleted.content, first.content);

    let (a1, a3) = (anchor_for(&deleted.content, 1), anchor_for(&deleted.content, 3));
    let whole = edit_lines(path, &deleted.content, &a1, Some(&a3), "fn main() {}", false);
    let whole = whole.ok().unwrap();
    assert!(whole.reply.contains("replaced lines 1-3 with 1 line(s)"));
    assert_eq!(whole.content, "fn main() {}\n");
    assert!(edit_lines(path, &whole.content, "42", None, "x", false)
        .err()
        .unwrap()
        .contains("not a line anchor"));
    assert!(edit_lines(path, &whole.content, "99:abcd", None, "x", false)
        .err()
        .unwrap()
        .contains("out of range"));
    assert_eq!(parse_anchor("3:beef").ok().unwrap(), (3, "beef".to_string()));
}

#[test]
fn listings_and_searches_answer() {
    let listing = list_dir(
        "",
        &vec![("src".to_string(), true), ("README.md".to_string(), false)],
    );
    assert!(listing.contains("src/") && listing.contains("README.md"), "{listing}");
    let walked = || Walked { files: texts(&["src/lib.rs", "src/main.rs", "README.md"]), cut: false };
    // `*` crosses `/`.
    assert_eq!(glob("*.rs", &walked()), "src/lib.rs\nsrc/main.rs");
    assert_eq!(glob("*config*", &walked()), "no files match `*config*`");
    let files = vec![
        ("README.md".to_string(), b"Read me\n".to_vec()),
        ("src/main.rs".to_string(), MAIN.as_bytes().to_vec()),
        ("blob".to_string(), vec![0, 1, 2]),
    ];
    let hits = grep("println!", None, &files, false);
    assert!(hits.starts_with("src/main.rs:2:"), "{hits}");
    assert!(hits.contains("1 match(es) in 1 file(s)"), "{hits}");
    assert!(grep("(?i)READ", Some("*.md"), &files, false).contains("README.md:1"));
    assert!(grep("println", Some("*.md"), &files, false).starts_with("no matches"));
    assert!(grep("[invalid", None, &files, false).starts_with("ERROR: invalid regular"));
    assert_eq!(repository_files("a.txt\0src/b.rs\0").files.len(), 2);
    let mut entries: Table<EntryKind> = Table::new();
    entries.insert("f".to_string(), EntryKind::File);
    entries.insert("d".to_string(), EntryKind::Directory);
    entries.insert("l".to_string(), EntryKind::Link);
    let step = walk_directory("", &entries, 0);
    assert_eq!((step.files.len(), step.directories.len(), step.cut), (1, 1, false));
}

fn listing(entries: &[(&str, EntryKind)]) -> Table<EntryKind> {
    let mut table = Table::new();
    for (name, kind) in entries {
        table.insert(name.to_string(), *kind);
    }
    table
}

#[test]
fn walks_go_by_depth() {
    let mut walk = Walk::below("");
    assert_eq!(walk.directory().as_deref(), Some(""));
    let top = listing(&[
        ("src", EntryKind::Directory),
        ("docs", EntryKind::Directory),
        ("README.md", EntryKind::File),
        (".git", EntryKind::Directory),
        ("target", EntryKind::Directory),
        ("link", EntryKind::Link),
    ]);
    assert_eq!(walk.next(&top).as_deref(), Some("docs"));
    assert_eq!(walk.file().as_deref(), Some("README.md"));
    assert_eq!(walk.file(), None);
    let docs = listing(&[("deep", EntryKind::Directory), ("a.md", EntryKind::File)]);
    assert_eq!(walk.next(&docs).as_deref(), Some("src"));
    // A directory that cannot be read holds nothing.
    assert_eq!(walk.next(&Table::new()).as_deref(), Some("docs/deep"));
    assert_eq!(walk.next(&listing(&[("b.md", EntryKind::File)])), None);
    assert_eq!(walk.file().as_deref(), Some("docs/a.md"));
    assert_eq!(walk.file().as_deref(), Some("docs/deep/b.md"));
    assert!(walk.file().is_none() && walk.directory().is_none() && !walk.cut);
}

#[test]
fn walks_end_after_too_many_entries() {
    let mut many: Table<EntryKind> = Table::new();
    for number in 0..MAX_WALK_ENTRIES {
        many.entries.push((format!("{number:06}"), EntryKind::File));
    }
    many.entries.push(("z".to_string(), EntryKind::Directory));
    let mut walk = Walk::below("d");
    assert_eq!(walk.next(&many), None);
    assert!(walk.cut);
    assert_eq!(walk.found.len(), MAX_WALK_ENTRIES);
    assert_eq!(walk.file().as_deref(), Some("d/000000"));
    let names: Vec<String> = many.entries.iter().map(|(name, _)| name.clone()).collect();
    assert!(Walk::of_repository(&names.join("\0")).cut);
}

#[test]
fn repository_walk_stops_immediately_when_consumer_is_full() {
    let mut walk = Walk::of_repository("README.md\0src/lib.rs\0.git/config\0");
    let mut visited = 0;
    while let Some(_) = walk.file() {
        visited += 1;
        walk.stop();
    }
    assert!(walk.cut);
    assert_eq!(visited, 1);

    let mut walk = Walk::below("");
    walk.next(&listing(&[
        ("a", EntryKind::File),
        ("b", EntryKind::File),
        ("d", EntryKind::Directory),
    ]));
    assert_eq!(walk.file().as_deref(), Some("a"));
    walk.stop();
    assert!(walk.file().is_none() && walk.directory().is_none() && walk.cut);
}

#[test]
fn searches_say_when_they_have_enough() {
    assert_eq!(GlobSearch::begin(" ").err().unwrap(), "ERROR: `pattern` must not be empty");
    let mut search = GlobSearch::begin("*.rs").ok().unwrap();
    assert!(search.visit("b.rs") && search.visit("a.rs") && search.visit("c.md"));
    assert_eq!(search.reply(false), "a.rs\nb.rs");
    let mut search = GlobSearch::begin("*").ok().unwrap();
    let mut visited = 1;
    while search.visit(&format!("{visited}")) {
        visited += 1;
    }
    assert_eq!(visited, MAX_GLOB_RESULTS);
    assert!(search.reply(false).contains("[result truncated"));

    // A file that is too large is not looked into.
    let limit = MAX_GREP_FILE_BYTES as usize;
    let mut search = GrepSearch::begin("x", Some("*.txt")).ok().unwrap();
    assert!(search.wants("a.txt", MAX_GREP_FILE_BYTES));
    assert!(!search.wants("a.txt", MAX_GREP_FILE_BYTES + 1));
    assert!(!search.wants("a.md", 1));
    let mut large = vec![b'\n'; limit];
    large[0] = b'x';
    assert!(search.visit("whole.txt", &large));
    large.push(b'\n');
    assert!(search.visit("large.txt", &large));
    assert_eq!(search.reply(false), "whole.txt:1: x\n(1 match(es) in 1 file(s))");
}

#[test]
fn file_calls_are_read_from_their_arguments() {
    let path = Json::Object(vec![("path".to_string(), Json::Text("a".to_string()))]);
    assert!(matches!(
        read_request(FileOp::Read, &path),
        Ok(FileRequest::Read { path, anchored: false, .. }) if path == "a"
    ));
    assert!(read_request(FileOp::Write, &path).is_err());
    assert_eq!(FileOp::EditLines.tool_name(), "edit_lines");
    assert_eq!(definitions(false).len(), 4);
    assert_eq!(definitions(true).len(), 7);
}

#[test]
fn commands_are_simple_and_allowed() {
    assert!(shell_command_is_simple("cargo test --all"));
    assert!(!shell_command_is_simple("cargo test && rm x"));
    assert!(!shell_command_is_simple("echo $(date)"));
    assert!(command_allowed(&texts(&["cargo *"]), "cargo test"));
    assert!(!command_allowed(&texts(&["cargo *"]), "rm x"));
    assert!(command_allowed(&Vec::new(), "anything"));
    assert!(wildcard_match("a*c", "abbc") && !wildcard_match("a*c", "abbd"));
}

// --- listings --------------------------------------------------------------

#[test]
fn commands_tell_what_is_there() {
    let mut first = stage("plan");
    first.mcp = texts(&["docs"]);
    first.web_search = true;
    first.skills = texts(&["s"]);
    let mut shown = config(vec![first]);
    shown.workflows.insert(
        "default".to_string(),
        Workflow { description: "all".to_string(), stages: texts(&["plan"]) },
    );
    assert_eq!(
        list_stages(&shown),
        vec![
            "1. plan  model=m  mode=read_only  mcp=[docs]  +web_search  skills=[s]",
            "\nworkflows:",
            "  default: plan  — all  (default)",
        ]
    );
    assert_eq!(
        check_lines(&shown)[0],
        "OK: 1 provider(s), 1 model(s), 0 mcp server(s), 0 agent(s), 1 stage(s), 1 workflow(s), 0 hook(s)"
    );
    assert!(check_lines(&shown)[1].starts_with("project instructions: none (searched for "));
    let skill = Skill {
        name: "s".to_string(),
        description: String::new(),
        body: String::new(),
        path: "/s.md".to_string(),
    };
    assert_eq!(skill_line(&skill), "s  -  (/s.md)");
    assert_eq!(no_skills_line(&texts(&["/a", "/b"])), "no skills found (searched: /a, /b)");
    let mut state = saved("r", "", 1);
    state.task = "first line\nsecond".to_string();
    assert_eq!(run_line(&state, "now"), "r  now  next stage 1/2 [a]  first line  (unknown dir)");
    assert_eq!(
        resume_line(&state),
        "resuming run r (0 of 2 stage(s) done, 0 run(s) used) at stage a"
    );
    assert_eq!(stage_heading(2, true, "a"), "── resuming run 2 · stage a ──");
    let session = Session {
        id: "s1".to_string(),
        started_at: 0,
        updated_at: 0,
        stage: "plan".to_string(),
        title: "t".to_string(),
        cwd: "/p".to_string(),
        history: Vec::new(),
        diffs: Vec::new(),
    };
    assert_eq!(session_line(&session, "now"), "s1  now  [plan]  t  (/p)");
}

#[test]
fn requests_to_run_are_checked() {
    assert!(check_resume(0, false, false).is_ok());
    assert!(check_resume(1, false, false).is_err());
    assert_eq!(task_text(&texts(&["do", "it"]), "").ok().unwrap(), "do it");
    assert_eq!(task_text(&Vec::new(), " from stdin\n").ok().unwrap(), "from stdin");
    assert_eq!(
        task_text(&Vec::new(), " \n").err().unwrap(),
        "no task given (pass it as an argument or on stdin)"
    );
}

#[test]
fn the_anchors_of_a_reply_serve_for_the_next_edit() {
    let content = "one\ntwo\nthree\n";
    let listing = read_reply(content, None, None, true);
    let second = listing.lines().nth(1).unwrap().split('|').next().unwrap().to_string();
    let edit = edit_lines("f", content, &second, None, "2\n2.5", false).ok().unwrap();
    assert_eq!(edit.content, "one\n2\n2.5\nthree\n");
    let shown = edit.reply.lines().last().unwrap().split('|').next().unwrap().to_string();
    assert_eq!(shown, format!("4:{}", line_hash("three")));
    let next = edit_lines("f", &edit.content, &shown, None, "", false).ok().unwrap();
    assert_eq!(next.content, "one\n2\n2.5\n");
    // A file that is left with one empty line holds none when it is read.
    let anchor = format!("1:{}", line_hash("a"));
    let emptied = edit_lines("f", "a\n", &anchor, None, "\n", false).ok().unwrap();
    assert_eq!(emptied.content, "");
}

#[test]
fn moments_are_written_by_the_calendar() {
    assert_eq!(date_of(0), Date { year: 1970, month: 1, day: 1 });
    assert_eq!(date_of(59), Date { year: 1970, month: 3, day: 1 });
    assert_eq!(date_of(11_016), Date { year: 2000, month: 2, day: 29 });
    assert_eq!(date_of(146_096), Date { year: 2369, month: 12, day: 31 });
    assert_eq!(date_of(146_097), Date { year: 2370, month: 1, day: 1 });
    assert_eq!(format_epoch(0), "1970-01-01 00:00");
    assert_eq!(format_epoch(1_783_944_000), "2026-07-13 12:00");
    assert_eq!(timestamp_id(1_783_944_000), "20260713-120000");
    assert_eq!(timestamp_id(951_827_696), "20000229-123456");
    assert!(!format_epoch(u64::MAX).is_empty());
}

#[test]
fn ended_runs_leave_a_record() {
    let task = "x".repeat(600);
    let state = RunState::new(
        "r1".to_string(),
        5,
        "/p".to_string(),
        &task,
        texts(&["plan"]),
    );
    let done = UsageRecord::of(&state, None, 9, UsageSnapshot::empty());
    assert_eq!((done.id.as_str(), done.cwd.as_str(), done.task.len()), ("r1", "/p", 500));
    assert_eq!((done.outcome.as_str(), done.error.is_none()), ("completed", true));
    assert_eq!((done.started_at, done.finished_at), (5, 9));
    assert_eq!(done.stage_names, texts(&["plan"]));
    let failed = UsageRecord::of(&state, Some("down".to_string()), 9, UsageSnapshot::empty());
    assert_eq!((failed.outcome.as_str(), failed.error.as_deref()), ("failed", Some("down")));
}

#[test]
fn targets_outside_the_run_are_not_offered() {
    let mut reviewer = stage("review");
    reviewer.can_reprompt = texts(&["implement", "plan", "review"]);
    assert_eq!(
        offered_targets(&reviewer, &texts(&["review", "implement"])),
        texts(&["implement", "review"])
    );
}

#[test]
fn names_are_the_last_components() {
    assert_eq!(file_name("/a/b.md").as_deref(), Some("b.md"));
    assert_eq!(file_name("a/b/.//").as_deref(), Some("b"));
    assert_eq!(file_name("a/..").as_deref(), None);
    assert_eq!(file_name("/").as_deref(), None);
}

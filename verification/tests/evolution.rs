use serde_json::Value;
use soa::agent_loop::{AgentLoopEvent, StageOutcome};
use soa::config::{
    Agent, Config, DataBoundary, Mode, Model, Provider, ProviderAdapterKind, Settings, Stage,
};
use soa::evals::{check_request, reports, Aggregate, RunMetrics};
use soa::evolve::{
    apply_target, build_proposer_prompt, check_excerpt, check_line, check_proposal, check_stages,
    check_suite, choose_model, evolvable_targets, find_target, grade, mine_signals,
    proposed_lessons, read_target, result_line, revert, select_evals, settle, summary,
    tail_excerpt, target_path, Eval, EvalProgress, EvalStep, HistoryEntry, Proposal, Target,
    MAX_PROPOSAL_CHARS,
};
use soa::json::Json;
use soa::model::{FunctionCall, ToolCall};
use soa::reflect::{read_lessons, replace_lessons_block, reply_object};
use soa::scores::{
    compare, EvalOutcome, EvalUsage, ModelTokens, ScopeUsage, SuiteScore, SuiteStats, Verdict,
};
use soa::table::Table;
use soa::wide::Wide;

fn texts(items: &[&str]) -> Vec<String> {
    items.iter().map(|s| s.to_string()).collect()
}

fn nothing_used() -> EvalUsage {
    EvalUsage { models: Vec::new(), scopes: Vec::new() }
}

fn outcome(name: &str, passed: bool, holdout: bool, tokens: u64) -> EvalOutcome {
    EvalOutcome {
        name: name.to_string(),
        holdout,
        passed,
        error: None,
        tokens,
        usage: nothing_used(),
        wall_ms: 0,
        check_excerpt: String::new(),
        output_excerpt: String::new(),
        signals: Vec::new(),
    }
}

fn suite(outcomes: Vec<EvalOutcome>) -> SuiteStats {
    SuiteStats::single(SuiteScore { outcomes })
}

#[test]
fn verdicts_require_strict_improvement() {
    // A newly passing eval adopts.
    let baseline = suite(vec![outcome("a", false, false, 100)]);
    let candidate = suite(vec![outcome("a", true, false, 120)]);
    assert!(matches!(compare(&baseline, &candidate), Verdict::Adopt(_)));

    // Regressing anything — holdouts especially — rejects, even when another
    // eval improves.
    let baseline = suite(vec![outcome("a", false, false, 100), outcome("h", true, true, 100)]);
    let candidate = suite(vec![outcome("a", true, false, 100), outcome("h", false, true, 100)]);
    match compare(&baseline, &candidate) {
        Verdict::Reject(reason) => assert!(reason.contains("holdout"), "{reason}"),
        Verdict::Adopt(_) => panic!("expected reject"),
    }

    // All-green suites adopt on a meaningful token reduction only.
    let baseline = suite(vec![outcome("a", true, false, 1000)]);
    let candidate = suite(vec![outcome("a", true, false, 850)]);
    assert!(matches!(compare(&baseline, &candidate), Verdict::Adopt(_)));
    let candidate = suite(vec![outcome("a", true, false, 950)]);
    assert!(matches!(compare(&baseline, &candidate), Verdict::Reject(_)));

    // A failing suite with no newly-passing eval rejects even if tokens drop
    // (economy must not mask stagnation).
    let baseline = suite(vec![outcome("a", false, false, 1000)]);
    let candidate = suite(vec![outcome("a", false, false, 100)]);
    assert!(matches!(compare(&baseline, &candidate), Verdict::Reject(_)));
}

#[test]
fn repeated_runs_gate_verdicts_on_pass_rate_and_noise() {
    let stats = |runs: Vec<(bool, u64)>| SuiteStats {
        runs: runs
            .into_iter()
            .map(|(passed, tokens)| SuiteScore {
                outcomes: vec![outcome("a", passed, false, tokens)],
            })
            .collect(),
    };

    // A pass-rate drop (2/2 → 1/2) rejects even though no single run pair shows
    // a clean regression.
    let baseline = stats(vec![(true, 1000), (true, 1000)]);
    let flaky = stats(vec![(true, 900), (false, 900)]);
    match compare(&baseline, &flaky) {
        Verdict::Reject(reason) => assert!(reason.contains("2/2 → 1/2"), "{reason}"),
        Verdict::Adopt(_) => panic!("expected reject"),
    }

    // A pass-rate improvement adopts.
    let baseline = stats(vec![(false, 1000), (true, 1000)]);
    let better = stats(vec![(true, 1000), (true, 1000)]);
    assert!(matches!(compare(&baseline, &better), Verdict::Adopt(_)));

    // Noisy baseline (1000 vs 2000): a drop that beats the 10% floor but sits
    // inside the measured noise band is rejected…
    let baseline = stats(vec![(true, 1000), (true, 2000)]);
    let inside_noise = stats(vec![(true, 1300), (true, 1300)]);
    assert!(matches!(compare(&baseline, &inside_noise), Verdict::Reject(_)));
    // …while a drop that clears the noise band is adopted.
    let clear_win = stats(vec![(true, 500), (true, 500)]);
    assert!(matches!(compare(&baseline, &clear_win), Verdict::Adopt(_)));
}

#[test]
fn tail_excerpt_keeps_the_end_of_long_output() {
    assert_eq!(tail_excerpt("short output", 100), "short output");
    let long = format!("{} FAILED: bazel test //x:y", "noise ".repeat(200));
    let tail = tail_excerpt(&long, 40);
    assert!(tail.starts_with('…'), "{tail}");
    assert!(tail.ends_with("FAILED: bazel test //x:y"), "{tail}");
}

fn parse_proposal(reply: &str) -> Result<Proposal, String> {
    let object = reply_object(reply)?;
    let v: Value = serde_json::from_str(&object).map_err(|e| e.to_string())?;
    let field = |key: &str| v.get(key).and_then(Value::as_str).map(str::to_string);
    check_proposal(Proposal {
        target: field("target").ok_or("missing field `target`")?,
        content: field("content").ok_or("missing field `content`")?,
        rationale: field("rationale").unwrap_or_default(),
    })
}

#[test]
fn proposals_parse_and_reject_unknown_targets() {
    let proposal = parse_proposal(
        r#"Here you go: {"target": "stage:implement", "content": "Be careful.", "rationale": "less rework"}"#,
    )
    .ok()
    .unwrap();
    assert_eq!(proposal.target, "stage:implement");
    assert_eq!(proposal.rationale, "less rework");

    assert!(parse_proposal("no json here").is_err());
    assert!(parse_proposal(r#"{"target": "x", "content": ""}"#).is_err());
    let oversized = format!(
        r#"{{"target": "x", "content": "{}"}}"#,
        "y".repeat(MAX_PROPOSAL_CHARS + 1)
    );
    assert_eq!(
        parse_proposal(&oversized).err().unwrap(),
        "proposal content is too long (24001 chars, cap 24000)"
    );
}

fn stage(name: &str) -> Stage {
    Stage {
        name: name.to_string(),
        model: "m".to_string(),
        mode: Mode::ReadOnly,
        mcp: Vec::new(),
        web_search: false,
        web_fetch: false,
        system_prompt: None,
        system_prompt_file: None,
        prompt: None,
        max_turns: None,
        max_tokens: None,
        can_reprompt: Vec::new(),
        subagents: Vec::new(),
        skills: Vec::new(),
        shell: false,
        shell_allow: Vec::new(),
        files: false,
        require_approval: false,
        approval_effects: Vec::new(),
        auto_approve: Vec::new(),
    }
}

fn agent(prompt: &str) -> Agent {
    Agent {
        description: "helps".to_string(),
        model: "m".to_string(),
        mode: Mode::ReadOnly,
        mcp: Vec::new(),
        web_search: false,
        web_fetch: false,
        system_prompt: None,
        system_prompt_file: Some(prompt.to_string()),
        max_turns: None,
        max_tokens: None,
        subagents: Vec::new(),
        skills: Vec::new(),
        shell: false,
        shell_allow: Vec::new(),
        files: false,
        require_approval: false,
        approval_effects: Vec::new(),
        auto_approve: Vec::new(),
    }
}

fn configured() -> Config {
    let mut plan = stage("plan");
    plan.system_prompt_file = Some("prompts/plan.md".to_string());
    let mut inline = stage("inline");
    inline.system_prompt = Some("inline prompts are not evolvable".to_string());
    let mut config = Config {
        settings: Settings::default(),
        providers: Table::new(),
        models: Table::new(),
        mcp: Table::new(),
        agents: Table::new(),
        workflows: Table::new(),
        stages: vec![plan, inline],
        hooks: Vec::new(),
        base_dir: "/cfg".to_string(),
        project_contexts: Vec::new(),
    };
    config.providers.insert(
        "p".to_string(),
        Provider {
            base_url: "http://localhost/v1".to_string(),
            api_key: None,
            stream: true,
            data_boundary: DataBoundary::Local,
            adapter: ProviderAdapterKind::OpenAiChatCompletions,
            headers: Table::new(),
        },
    );
    config.models.insert(
        "m".to_string(),
        Model {
            provider: "p".to_string(),
            model: "x".to_string(),
            max_tokens: None,
            context_tokens: None,
            fallback: Vec::new(),
            allow_external_fallback: false,
        },
    );
    config.agents.insert("helper".to_string(), agent("prompts/helper.md"));
    config
}

#[test]
fn evolvable_surface_is_prompt_files_and_lessons_only() {
    let targets = evolvable_targets(&configured());
    let ids: Vec<&str> = targets.iter().map(Target::id).collect();
    assert_eq!(ids, vec!["lessons", "stage:plan", "agent:helper"]);
    // Relative prompt paths resolve against the config directory.
    assert!(targets.iter().any(|t| matches!(
        t,
        Target::PromptFile { path, .. } if path == "/cfg/prompts/plan.md"
    )));
    assert_eq!(find_target(&targets, "stage:plan").ok().unwrap(), 1);
    assert_eq!(
        find_target(&targets, "x").err().unwrap(),
        "proposer picked unknown target `x` (valid: lessons, stage:plan, agent:helper)"
    );
}

#[test]
fn rejected_prompts_come_back() {
    let target = Target::PromptFile {
        id: "stage:plan".to_string(),
        path: "/cfg/plan.md".to_string(),
    };
    assert_eq!(target_path("/cfg", &target), "/cfg/plan.md");
    let (applied, backup) = apply_target(&target, "original prompt", "improved prompt");
    assert_eq!(applied, "improved prompt");
    assert_eq!(revert(backup, &applied), "original prompt");
    assert_eq!(read_target(&target, "original prompt"), "original prompt");
}

#[test]
fn rejected_lessons_come_back() {
    let before = replace_lessons_block("# Notes\n", &texts(&["keep tests green"]));
    let (applied, backup) = apply_target(&Target::Lessons, &before, "- - first\nsecond\n");
    assert_eq!(read_lessons(&applied), vec!["first", "second"]);
    let reverted = revert(backup, &applied);
    assert_eq!(reverted, before);
    assert_eq!(read_target(&Target::Lessons, &applied), "first\nsecond");
    assert_eq!(target_path("/cfg", &Target::Lessons), "/cfg/SOA.md");
    assert_eq!(proposed_lessons("- x\n\n"), vec!["x"]);
}

fn eval(name: &str, holdout: bool) -> Eval {
    Eval {
        name: name.to_string(),
        task: "what is the answer?".to_string(),
        workflow: None,
        check: "true".to_string(),
        timeout_secs: None,
        holdout,
    }
}

fn call(name: &str) -> ToolCall {
    ToolCall {
        id: "1".to_string(),
        function: FunctionCall { name: name.to_string(), arguments: Json::Null },
    }
}

fn traced() -> Vec<AgentLoopEvent> {
    vec![
        AgentLoopEvent::Started { system: None, messages: Vec::new() },
        AgentLoopEvent::Assistant {
            content: None,
            tool_calls: vec![call("shell"), call("grep")],
            usage: None,
        },
        AgentLoopEvent::ToolResult { call_index: 0, content: "ERROR: no such file".to_string() },
        AgentLoopEvent::ToolResult { call_index: 1, content: "3 matches".to_string() },
        AgentLoopEvent::ToolResult { call_index: 7, content: "DENIED: no".to_string() },
    ]
}

#[test]
fn traces_name_failures_bounces_and_turns() {
    assert_eq!(
        mine_signals(&traced(), 2),
        vec![
            "shell: ERROR: no such file",
            "?: DENIED: no",
            "review bounced the work back 2 time(s)",
            "1 model turn(s) used",
        ]
    );
    assert!(mine_signals(&Vec::new(), 0).is_empty());
}

#[test]
fn an_eval_runs_its_workflow() {
    let names = texts(&["a", "b"]);
    let mut progress = EvalProgress::new();
    assert!(matches!(progress.next(2, 3), EvalStep::Run(0)));
    progress.take(&StageOutcome::Final("one".to_string()), &names);
    assert!(matches!(progress.next(2, 3), EvalStep::Run(1)));
    progress.take(
        &StageOutcome::Reprompt { target: "a".to_string(), instructions: "again".to_string() },
        &names,
    );
    assert_eq!((progress.position, progress.reprompts), (0, 1));
    assert!(matches!(progress.next(2, 3), EvalStep::Run(0)));
    assert!(matches!(
        progress.next(2, 3),
        EvalStep::Stop(w) if w == "stopped after 3 stage runs without finishing"
    ));
    progress.position = 2;
    assert!(matches!(progress.next(2, 3), EvalStep::Done));
    assert_eq!(
        check_stages(&eval("e", false), 0).err().unwrap(),
        "eval `e`: the selected workflow is empty"
    );
}

#[test]
fn runs_are_graded_by_their_check() {
    let mut progress = EvalProgress::new();
    progress.output = "the answer is 42".to_string();
    let passed = grade(
        &eval("graded", false),
        None,
        (true, "ok".to_string()),
        nothing_used(),
        5,
        &progress,
        &traced(),
    );
    assert!(passed.passed && passed.output_excerpt.contains("42"));
    assert_eq!(result_line(&passed), "pass");
    let failed = grade(
        &eval("graded", false),
        None,
        (false, "wrong answer".to_string()),
        nothing_used(),
        5,
        &progress,
        &Vec::new(),
    );
    assert!(!failed.passed && failed.error.is_none());
    assert_eq!(check_line(&failed).unwrap(), "    check: wrong answer");
    let stopped = grade(
        &eval("graded", false),
        Some("boom".to_string()),
        (true, "unused".to_string()),
        nothing_used(),
        5,
        &progress,
        &Vec::new(),
    );
    assert!(!stopped.passed && stopped.check_excerpt.is_empty());
    assert_eq!(result_line(&stopped), "FAIL (boom)");
    assert_eq!(check_excerpt(&b" out \n".to_vec(), &b"err\n".to_vec()), "out err");
}

#[test]
fn the_proposer_never_sees_what_is_held_out() {
    let targets = evolvable_targets(&configured());
    let contents = texts(&["", "plan prompt", "helper prompt"]);
    let history = vec![HistoryEntry {
        at: 1,
        target: "stage:plan".to_string(),
        rationale: "shorter".to_string(),
        adopted: false,
        reason: "regressed".to_string(),
        baseline: String::new(),
        candidate: String::new(),
    }];
    let shown = |secret: &str| {
        let mut seen = outcome("open", false, false, 1);
        seen.check_excerpt = "expected 42".to_string();
        let hidden = outcome(secret, true, true, 1);
        let score = SuiteScore { outcomes: vec![seen, hidden] };
        build_proposer_prompt(&targets, &contents, &score, &history)
    };
    let prompt = shown("secret");
    assert_eq!(prompt, shown("other"));
    assert!(prompt.contains("## target: stage:plan\n```\nplan prompt\n```"), "{prompt}");
    assert!(prompt.contains("(1 additional held-out eval(s) exist;"), "{prompt}");
    assert!(prompt.contains("## eval `open` — FAIL\ncheck output:\nexpected 42\n"), "{prompt}");
    assert!(prompt.contains("- [rejected] stage:plan: shorter — regressed\n"), "{prompt}");
    assert!(prompt.ends_with("Valid targets: lessons, stage:plan, agent:helper\n"), "{prompt}");
}

#[test]
fn verdicts_settle_proposals() {
    let target = Target::Lessons;
    let proposal = Proposal {
        target: "lessons".to_string(),
        content: "x".to_string(),
        rationale: "why".to_string(),
    };
    let worse = suite(vec![outcome("a", false, false, 1)]);
    let better = suite(vec![outcome("a", true, false, 1)]);
    let kept = settle(&target, &proposal, &worse, &better, 7);
    assert!(kept.keep && kept.entry.adopted);
    assert_eq!(kept.line, "✔ adopted (newly passing: a)");
    assert_eq!(kept.change.as_deref(), Some("lessons — why"));
    let dropped = settle(&target, &proposal, &better, &worse, 7);
    assert!(!dropped.keep && dropped.change.is_none());
    assert!(dropped.line.starts_with("✗ reverted (regressed `a`"));
    assert_eq!(
        summary(&better, &texts(&["lessons — why"])).last().unwrap(),
        "review the changes with `git diff`, revert with `git checkout`"
    );
    assert_eq!(
        summary(&better, &Vec::new())[1],
        "no proposals adopted — inputs are unchanged"
    );
}

#[test]
fn suites_are_checked_before_they_run() {
    let targets = vec![Target::Lessons];
    assert!(check_suite(&Vec::new(), &targets).is_err());
    assert_eq!(check_suite(&vec![eval("a", false)], &targets).ok().unwrap().len(), 2);
    let more = evolvable_targets(&configured());
    assert!(check_suite(&vec![eval("a", true)], &more).ok().unwrap().is_empty());
    let evals = vec![eval("a", false), eval("b", true)];
    assert_eq!(select_evals(&evals, &Vec::new()), vec![0, 1]);
    assert_eq!(select_evals(&evals, &texts(&["b"])), vec![1]);
    let config = configured();
    assert_eq!(choose_model(&config, None, Some("e")).ok().unwrap(), "e");
    assert_eq!(choose_model(&config, None, None).ok().unwrap(), "m");
    assert_eq!(choose_model(&config, Some("o"), Some("e")).ok().unwrap(), "o");
    let mut empty = configured();
    empty.stages.clear();
    assert!(choose_model(&empty, None, None).is_err());
}

// --- measuring -------------------------------------------------------------

fn tokens(prompt: u64, completion: u64) -> ModelTokens {
    ModelTokens {
        prompt_tokens: prompt,
        completion_tokens: completion,
        cache_read_tokens: 0,
        reasoning_tokens: 0,
        unpriced_requests: 0,
        unreported_requests: 0,
    }
}

#[test]
fn run_metrics_sum_models_and_scopes() {
    let mut first = tokens(1_000, 100);
    first.cache_read_tokens = 400;
    first.unpriced_requests = 1;
    let mut measured = outcome("e", true, false, 1_650);
    measured.usage = EvalUsage {
        models: vec![("a".to_string(), first), ("b".to_string(), tokens(500, 50))],
        scopes: vec![
            ("agent:helper".to_string(), ScopeUsage { turns: 2, tool_calls: 4 }),
            ("stage:plan".to_string(), ScopeUsage { turns: 3, tool_calls: 7 }),
        ],
    };
    measured.wall_ms = 1_234;
    let metrics = RunMetrics::from_outcome(&measured);
    assert_eq!(metrics.prompt_tokens, 1_500);
    assert_eq!(metrics.completion_tokens, 150);
    assert_eq!(metrics.total_tokens, 1_650);
    assert_eq!(metrics.cache_read_tokens, 400);
    assert_eq!(metrics.unpriced_requests, 1);
    assert_eq!((metrics.turns, metrics.tool_calls), (5, 11));
    assert_eq!(metrics.wall_ms, 1_234);
    assert_eq!(metrics.scopes.len(), 2);
}

#[test]
fn aggregate_reports_pass_rate_and_token_spread() {
    let run = |passed: bool, tokens: u64| RunMetrics {
        passed,
        error: None,
        prompt_tokens: tokens,
        completion_tokens: 0,
        cache_read_tokens: 0,
        reasoning_tokens: 0,
        total_tokens: tokens,
        unpriced_requests: 0,
        unreported_requests: 0,
        turns: 4,
        tool_calls: 6,
        wall_ms: 100,
        scopes: Vec::new(),
    };
    let aggregate = Aggregate::over(&vec![run(true, 1_000), run(false, 3_000)]);
    let mean = |sum: u128| sum as f64 / aggregate.runs as f64;
    assert_eq!(aggregate.runs, 2);
    assert!((mean(aggregate.passed as u128) - 0.5).abs() < f64::EPSILON);
    assert!((mean(aggregate.token_sum) - 2_000.0).abs() < f64::EPSILON);
    assert_eq!(
        (aggregate.min_total_tokens, aggregate.max_total_tokens),
        (1_000, 3_000)
    );
    assert!((mean(aggregate.turn_sum) - 4.0).abs() < f64::EPSILON);
    assert!((mean(aggregate.tool_call_sum) - 6.0).abs() < f64::EPSILON);
}

#[test]
fn reports_group_runs_by_eval() {
    let rounds = vec![
        outcome("b", true, false, 1),
        outcome("a", false, true, 1),
        outcome("b", false, false, 1),
        outcome("a", true, true, 1),
    ];
    let all = reports(&rounds);
    let shown: Vec<(&str, bool, usize, usize)> = all
        .iter()
        .map(|r| (r.name.as_str(), r.holdout, r.aggregate.runs, r.aggregate.passed))
        .collect();
    assert_eq!(shown, vec![("b", false, 2, 1), ("a", true, 2, 1)]);
    assert!(reports(&Vec::new()).is_empty());
}

#[test]
fn measuring_needs_evals_runs_and_known_names() {
    let evals = vec![eval("a", false)];
    assert!(check_request(&evals, 1, &texts(&["a"])).is_ok());
    assert_eq!(
        check_request(&Vec::new(), 1, &Vec::new()).err().unwrap(),
        "no [[eval]] entries configured — soa eval needs scored tasks to measure"
    );
    assert_eq!(
        check_request(&evals, 0, &Vec::new()).err().unwrap(),
        "--runs must be at least 1"
    );
    assert_eq!(
        check_request(&evals, 1, &texts(&["z"])).err().unwrap(),
        "no eval named `z` (see the [[eval]] entries in the config)"
    );
}

#[test]
fn suites_describe_themselves() {
    let one = suite(vec![outcome("a", true, false, 900), outcome("b", false, false, 100)]);
    assert!(one.describe().starts_with("1/2 passing · "), "{}", one.describe());
    let twice = SuiteStats {
        runs: vec![
            SuiteScore { outcomes: vec![outcome("a", true, false, 1)] },
            SuiteScore { outcomes: vec![outcome("a", false, false, 3)] },
        ],
    };
    assert!(twice.describe().starts_with("0/1 passing in all 2 run(s) · mean "));
    assert!(!twice.representative().outcomes[0].passed);
    assert_eq!((twice.passes(0), twice.eval_count(), twice.mean_tokens()), (1, 1, 2));
    assert!(!twice.all_green());
}

#[test]
fn wide_numbers_add_multiply_and_order() {
    let big = Wide::from(u64::MAX);
    let square = big.times(&big);
    assert!(big.below(&square));
    assert!(square.below(&square.sum(&Wide::from(1))));
    assert!(!square.below(&square));
}

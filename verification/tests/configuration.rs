use soa::config::{
    expand_env, template_vars, Agent, Config, DataBoundary, EnvError, McpServer, Mode, Model,
    Provider, ProviderAdapterKind, Settings, Stage, Workflow,
};
use soa::effects::ToolEffect;
use soa::loading::{
    ancestors, context_candidates, fill_config, prompt_source, resolve_context_files, PromptSource,
};
use soa::table::Table;

fn provider(base_url: &str) -> Provider {
    Provider {
        base_url: base_url.to_string(),
        api_key: None,
        stream: true,
        data_boundary: DataBoundary::Local,
        adapter: ProviderAdapterKind::OpenAiChatCompletions,
        headers: Table::new(),
    }
}

fn model(provider: &str, id: &str) -> Model {
    Model {
        provider: provider.to_string(),
        model: id.to_string(),
        max_tokens: None,
        context_tokens: None,
        fallback: Vec::new(),
        allow_external_fallback: false,
    }
}

fn stage(name: &str, model: &str) -> Stage {
    Stage {
        name: name.to_string(),
        model: model.to_string(),
        mode: Mode::ReadOnly,
        mcp: Vec::new(),
        web_search: false,
        web_fetch: false,
        system_prompt: None,
        system_prompt_file: None,
        prompt: None,
        max_turns: None,
        max_tokens: None,
        can_reprompt: Vec::new(),
        subagents: Vec::new(),
        skills: Vec::new(),
        shell: false,
        shell_allow: Vec::new(),
        files: false,
        require_approval: false,
        approval_effects: Vec::new(),
        auto_approve: Vec::new(),
    }
}

fn agent(model: &str, description: &str) -> Agent {
    Agent {
        description: description.to_string(),
        model: model.to_string(),
        mode: Mode::ReadOnly,
        mcp: Vec::new(),
        web_search: false,
        web_fetch: false,
        system_prompt: None,
        system_prompt_file: None,
        max_turns: None,
        max_tokens: None,
        subagents: Vec::new(),
        skills: Vec::new(),
        shell: false,
        shell_allow: Vec::new(),
        files: false,
        require_approval: false,
        approval_effects: Vec::new(),
        auto_approve: Vec::new(),
    }
}

fn minimal() -> Config {
    let mut config = Config {
        settings: Settings::default(),
        providers: Table::new(),
        models: Table::new(),
        mcp: Table::new(),
        agents: Table::new(),
        workflows: Table::new(),
        stages: vec![stage("answer", "default")],
        hooks: Vec::new(),
        base_dir: "/cfg".to_string(),
        project_contexts: Vec::new(),
    };
    config.providers.insert("local".to_string(), provider("http://localhost:11434/v1"));
    config.models.insert("default".to_string(), model("local", "qwen3:8b"));
    config
}

fn texts(items: &[&str]) -> Vec<String> {
    items.iter().map(|s| s.to_string()).collect()
}

fn workflow(stages: &[&str]) -> Workflow {
    Workflow { description: String::new(), stages: texts(stages) }
}

fn problem(config: &Config) -> String {
    config.validate(None).err().expect("a problem is found")
}

#[test]
fn minimal_config_parses() {
    let config = minimal();
    assert!(config.validate(None).is_ok());
    assert_eq!(config.stages.len(), 1);
    assert_eq!(config.stages[0].mode, Mode::ReadOnly);
    assert_eq!(config.settings.default_max_turns, 16);
}

#[test]
fn unknown_model_rejected() {
    let mut config = minimal();
    config.stages[0].model = "nope".to_string();
    let err = problem(&config);
    assert!(err.contains("unknown model"), "{err}");
}

#[test]
fn web_search_requires_searxng_url() {
    let mut config = minimal();
    config.stages[0].web_search = true;
    let err = problem(&config);
    assert!(err.contains("searxng_url"), "{err}");
}

#[test]
fn previous_in_first_stage_rejected() {
    let mut config = minimal();
    config.stages[0].prompt = Some("{{previous}}".to_string());
    let err = problem(&config);
    assert!(err.contains("first stage"), "{err}");
}

#[test]
fn forward_stage_reference_rejected() {
    let mut config = minimal();
    let mut second = stage("second", "default");
    second.prompt = Some("{{stage.third}}".to_string());
    config.stages.push(second);
    let err = problem(&config);
    assert!(err.contains("stage.third"), "{err}");
}

#[test]
fn fallback_references_validated() {
    let mut config = minimal();
    let mut wrong = model("local", "qwen3:8b");
    wrong.fallback = texts(&["ghost", "default"]);
    config.models.insert("default".to_string(), wrong);
    let err = problem(&config);
    assert!(err.contains("unknown fallback model `ghost`"), "{err}");
    assert!(err.contains("model `default` lists itself as a fallback"), "{err}");

    let mut config = minimal();
    let mut right = model("local", "qwen3:8b");
    right.fallback = texts(&["backup"]);
    config.models.insert("default".to_string(), right);
    config.models.insert("backup".to_string(), model("local", "qwen3:4b"));
    assert!(config.validate(None).is_ok());
}

fn with_cloud(consent: bool) -> Config {
    let mut config = minimal();
    let mut local = model("local", "qwen3:8b");
    local.fallback = texts(&["cloud"]);
    local.allow_external_fallback = consent;
    config.models.insert("default".to_string(), local);
    let mut cloud = provider("https://api.example.invalid/v1");
    cloud.data_boundary = DataBoundary::External;
    config.providers.insert("cloud".to_string(), cloud);
    config.models.insert("cloud".to_string(), model("cloud", "proprietary-coder"));
    config
}

#[test]
fn external_fallback_requires_explicit_consent() {
    let error = problem(&with_cloud(false));
    assert!(error.contains("local data boundary to external"), "{error}");
    assert!(error.contains("allow_external_fallback = true"), "{error}");
    assert!(with_cloud(true).validate(None).is_ok());
}

#[test]
fn additional_approval_effects_require_approval_mode() {
    let mut config = minimal();
    config.stages[0].approval_effects = vec![ToolEffect::NetworkEgress];
    let error = problem(&config);
    assert!(error.contains("approval_effects"), "{error}");
    assert!(error.contains("require_approval = true"), "{error}");

    config.stages[0].require_approval = true;
    assert!(config.validate(None).is_ok());
}

#[test]
fn agent_references_validated() {
    let mut config = minimal();
    config.stages[0].subagents = texts(&["nope"]);
    let err = problem(&config);
    assert!(err.contains("unknown agent `nope`"), "{err}");

    let mut config = minimal();
    let mut helper = agent("missing", "");
    helper.subagents = texts(&["ghost"]);
    config.agents.insert("helper".to_string(), helper);
    let err = problem(&config);
    assert!(err.contains("agent `helper` references unknown model `missing`"), "{err}");
    assert!(err.contains("unknown agent `ghost`"), "{err}");

    let mut config = minimal();
    config.stages[0].subagents = texts(&["helper"]);
    config.agents.insert("helper".to_string(), agent("default", "helps"));
    assert!(config.validate(None).is_ok());
}

#[test]
fn workflow_validation_and_resolution() {
    let mut config = minimal();
    config.workflows.insert("bad".to_string(), workflow(&["answer", "ghost", "answer"]));
    let err = problem(&config);
    assert!(err.contains("unknown stage `ghost`"), "{err}");
    assert!(err.contains("more than once"), "{err}");

    let mut config = minimal();
    config.settings.default_workflow = Some("nope".to_string());
    config.workflows.insert("w".to_string(), workflow(&["answer"]));
    let err = problem(&config);
    assert!(err.contains("unknown workflow `nope`"), "{err}");

    // Resolution precedence: explicit > default_workflow > "default" > all stages.
    let mut config = minimal();
    config.stages.push(stage("second", "default"));
    config.workflows.insert("default".to_string(), workflow(&["second"]));
    config.workflows.insert("full".to_string(), workflow(&["answer", "second"]));
    assert!(config.validate(None).is_ok());
    assert_eq!(config.resolve_workflow(Some("full")).unwrap(), vec![0, 1]);
    assert_eq!(config.resolve_workflow(None).unwrap(), vec![1]); // named "default"
    assert!(config.resolve_workflow(Some("nope")).is_err());

    // No workflows at all: declaration order.
    let config = minimal();
    assert_eq!(config.resolve_workflow(None).unwrap(), vec![0]);
}

#[test]
fn unknown_reprompt_target_rejected() {
    let mut config = minimal();
    config.stages[0].can_reprompt = texts(&["answer", "nope"]);
    let err = problem(&config);
    assert!(err.contains("can_reprompt references unknown stage `nope`"), "{err}");
    // Self-reference and any existing stage are fine.
    config.stages[0].can_reprompt = texts(&["answer"]);
    assert!(config.validate(None).is_ok());
}

#[test]
fn env_expansion() {
    let mut env: Table<String> = Table::new();
    env.insert("SOA_TEST_TOKEN".to_string(), "sekrit".to_string());
    assert_eq!(expand_env("Bearer ${SOA_TEST_TOKEN}!", &env).ok().unwrap(), "Bearer sekrit!");
    assert!(expand_env("${SOA_DOES_NOT_EXIST_XYZ}", &env).is_err());
    assert_eq!(expand_env("plain", &env).ok().unwrap(), "plain");
}

#[test]
fn template_var_extraction() {
    assert_eq!(
        template_vars("a {{input}} b {{ stage.plan }} c"),
        vec!["input".to_string(), "stage.plan".to_string()]
    );
}

#[test]
fn environment_faults_have_their_words() {
    let env: Table<String> = Table::new();
    let unset = expand_env("x ${NOPE}", &env).err().unwrap();
    assert!(matches!(unset, EnvError::Unset(_)));
    assert_eq!(unset.message(), "environment variable `NOPE` referenced in config is not set");
    let open = expand_env("x ${NOPE", &env).err().unwrap();
    assert!(matches!(open, EnvError::Unterminated(_)));
    assert_eq!(open.message(), "unterminated ${...} reference in `x ${NOPE`");
}

#[test]
fn references_are_replaced_where_secrets_stand() {
    let mut config = minimal();
    config.settings.searxng_url = Some("http://${HOST}".to_string());
    let mut local = provider("http://${HOST}/v1");
    local.api_key = Some("${KEY}".to_string());
    config.providers.insert("local".to_string(), local);
    let mut headers: Table<String> = Table::new();
    headers.insert("x-key".to_string(), "k=${KEY}".to_string());
    config.mcp.insert(
        "docs".to_string(),
        McpServer::Http {
            url: "http://${HOST}/mcp".to_string(),
            auth_token: Some("${KEY}".to_string()),
            headers,
            readonly_tools: Vec::new(),
        },
    );
    config.stages[0].prompt = Some("keep ${HOST}".to_string());
    let mut env: Table<String> = Table::new();
    env.insert("HOST".to_string(), "h".to_string());
    env.insert("KEY".to_string(), "s".to_string());
    let filled = fill_config(config, &env).ok().unwrap();
    assert_eq!(filled.settings.searxng_url.as_deref(), Some("http://h"));
    let local = filled.providers.get("local").unwrap();
    assert_eq!(local.base_url, "http://h/v1");
    assert_eq!(local.api_key.as_deref(), Some("s"));
    match filled.mcp.get("docs").unwrap() {
        McpServer::Http { url, auth_token, headers, .. } => {
            assert_eq!(url, "http://h/mcp");
            assert_eq!(auth_token.as_deref(), Some("s"));
            assert_eq!(headers.get("x-key").unwrap(), "k=s");
        }
        McpServer::Stdio { .. } => panic!("an endpoint stays one"),
    }
    // Prompts are left alone.
    assert_eq!(filled.stages[0].prompt.as_deref(), Some("keep ${HOST}"));

    let mut config = minimal();
    config.settings.searxng_url = Some("${FIRST}".to_string());
    config.providers.insert("local".to_string(), provider("${SECOND}"));
    let fault = fill_config(config, &env).err().unwrap();
    assert!(fault.message().contains("`FIRST`"));
}

#[test]
fn prompts_come_from_one_place() {
    let mut s = stage("plan", "default");
    assert!(s.resolve_system_prompt("/cfg", None).unwrap().is_none());
    s.system_prompt = Some("inline".to_string());
    assert_eq!(s.resolve_system_prompt("/cfg", None).unwrap().as_deref(), Some("inline"));
    s.system_prompt = None;
    s.system_prompt_file = Some("p.md".to_string());
    assert!(matches!(
        prompt_source(&s.system_prompt, &s.system_prompt_file, "/cfg"),
        PromptSource::File(path) if path == "/cfg/p.md"
    ));
    assert_eq!(
        s.resolve_system_prompt("/cfg", Some("text".to_string())).unwrap().as_deref(),
        Some("text")
    );
    assert_eq!(
        s.resolve_system_prompt("/cfg", None).err().unwrap(),
        "stage `plan`: cannot read system_prompt_file /cfg/p.md"
    );
    let mut a = agent("default", "helps");
    a.system_prompt_file = Some("/abs/p.md".to_string());
    assert_eq!(
        a.resolve_system_prompt("/cfg", None).err().unwrap(),
        "cannot read system_prompt_file /abs/p.md"
    );
}

#[test]
fn instructions_are_looked_for_upward() {
    assert_eq!(
        context_candidates("SOA.md", "/r/a/b"),
        vec!["/r/a/b/SOA.md", "/r/a/SOA.md", "/r/SOA.md", "/SOA.md"]
    );
    assert_eq!(context_candidates("/etc/x.md", "/r"), vec!["/etc/x.md"]);
    assert_eq!(
        context_candidates("SOA.md", "a/b"),
        vec!["a/b/SOA.md", "a/SOA.md", "SOA.md"]
    );
    assert_eq!(ancestors("a/b"), vec!["a/b", "a", ""]);
    assert_eq!(ancestors("./a"), vec!["./a", ".", ""]);
    assert_eq!(ancestors("../a"), vec!["../a", "..", ""]);
    assert_eq!(ancestors("."), vec![".", ""]);
    assert_eq!(ancestors(""), vec![""]);
    assert_eq!(ancestors("/"), vec!["/"]);
}

#[test]
fn resolves_context_files_in_order_walking_up() {
    let mut files: Table<String> = Table::new();
    let entries =
        |names: &[&str]| names.iter().map(|name| name.to_string()).collect::<Vec<String>>();
    let nested = "/r/a/b";

    // Walk-up discovery: found in an ancestor of the working directory.
    files.insert("/r/SOA.md".to_string(), "top instructions".to_string());
    let found = resolve_context_files(&entries(&["SOA.md"]), nested, &files);
    assert_eq!(found.len(), 1);
    assert_eq!(found[0].content, "top instructions");
    assert_eq!(found[0].path, "/r/SOA.md");

    // The nearest file wins for each entry independently.
    files.insert("/r/a/b/SOA.md".to_string(), "near instructions".to_string());
    let found = resolve_context_files(&entries(&["SOA.md"]), nested, &files);
    assert_eq!(found[0].content, "near instructions");

    // Multiple entries source in the listed order, not discovery depth;
    // missing and blank ones are skipped; duplicates source once.
    files.insert("/r/AGENTS.md".to_string(), "agent instructions".to_string());
    files.insert("/r/a/b/BLANK.md".to_string(), "  \n".to_string());
    let listed = entries(&["AGENTS.md", "BLANK.md", "MISSING.md", "SOA.md", "AGENTS.md"]);
    let found = resolve_context_files(&listed, nested, &files);
    assert_eq!(
        found.iter().map(|c| c.content.as_str()).collect::<Vec<_>>(),
        vec!["agent instructions", "near instructions"]
    );

    // Another way to write a path leads to the same file.
    files.insert("/r/./AGENTS.md".to_string(), "agent instructions".to_string());
    let listed = entries(&["AGENTS.md", "/r/./AGENTS.md"]);
    assert_eq!(resolve_context_files(&listed, nested, &files).len(), 1);
}

#[test]
fn an_absent_stage_list_is_a_problem() {
    let mut config = minimal();
    config.stages.clear();
    assert!(config.validate(None).is_err());
}

//! Configuration: its shape, its defaults, and the rules it must meet.

use vstd::prelude::*;
use vstd::string::*;

use crate::effects::ToolEffect;
use crate::find;
use crate::table::Table;
use crate::text;

verus! {

/// The whole configuration.
pub struct Config {
    pub settings: Settings,
    pub providers: Table<Provider>,
    pub models: Table<Model>,
    pub mcp: Table<McpServer>,
    /// Subagents that stages and other agents can delegate tasks to.
    pub agents: Table<Agent>,
    /// Named pipelines: ordered lists of stage names.
    pub workflows: Table<Workflow>,
    pub stages: Vec<Stage>,
    /// Shell commands bound to tool-call events.
    pub hooks: Vec<Hook>,
    /// Directory that holds the configuration file.
    pub base_dir: String,
    /// Project instructions appended to every system prompt, in order.
    pub project_contexts: Vec<ProjectContext>,
}

/// One project-instructions file.
pub struct ProjectContext {
    pub path: String,
    pub content: String,
}

/// What a project-instructions file stands for.
pub struct ContextView {
    pub path: Seq<char>,
    pub content: Seq<char>,
}

impl View for ProjectContext {
    type V = ContextView;

    open spec fn view(&self) -> ContextView {
        ContextView { path: self.path@, content: self.content@ }
    }
}

/// The views of project-instructions files.
pub open spec fn contexts_view(list: Seq<ProjectContext>) -> Seq<ContextView> {
    Seq::new(list.len(), |i: int| list[i]@)
}

/// Settings that hold for the whole run.
pub struct Settings {
    /// Base URL of a SearXNG instance.
    pub searxng_url: Option<String>,
    pub searxng_max_results: usize,
    /// Cap on model round-trips per stage, where the stage sets none.
    pub default_max_turns: u32,
    /// Stage executions allowed in one run.
    pub max_stage_runs: u32,
    /// Longest tool result that enters a conversation; 0 lifts the cap.
    pub max_tool_output_chars: usize,
    /// How deep agent delegation may nest.
    pub max_agent_depth: u32,
    /// Dispatch a round's tool calls together where each is safe.
    pub parallel_tools: bool,
    /// Retries of a failed provider request.
    pub provider_retries: u32,
    pub request_timeout_secs: u64,
    pub shell_timeout_secs: u64,
    /// Directory of skills, relative to the configuration file.
    pub skills_dir: Option<String>,
    /// Workflow used when none is asked for.
    pub default_workflow: Option<String>,
    /// Project-instruction files.
    pub context_files: Vec<String>,
    /// Model that distills sessions into lessons.
    pub reflect_model: Option<String>,
}

/// A named pipeline over the stages.
pub struct Workflow {
    pub description: String,
    /// Stage names in execution order.
    pub stages: Vec<String>,
}

/// A shell command bound to a tool-call event.
pub struct Hook {
    pub event: HookEvent,
    /// Wildcard pattern for the call descriptor.
    pub pattern: String,
    pub command: String,
    pub timeout_secs: Option<u64>,
}

/// When a hook runs.
#[derive(Debug, Clone, Copy, PartialEq, Eq, Structural)]
pub enum HookEvent {
    PreTool,
    PostTool,
}

/// The wire protocol of an endpoint.
#[derive(Debug, Clone, Copy, PartialEq, Eq, Structural)]
pub enum ProviderAdapterKind {
    OpenAiChatCompletions,
    AnthropicMessages,
}

/// A model endpoint.
pub struct Provider {
    pub base_url: String,
    pub api_key: Option<String>,
    /// Stream responses token by token.
    pub stream: bool,
    /// Whether requests leave the trusted local boundary.
    pub data_boundary: DataBoundary,
    pub adapter: ProviderAdapterKind,
    pub headers: Table<String>,
}

/// Where the data of a request goes.
#[derive(Debug, Clone, Copy, PartialEq, Eq, Structural)]
pub enum DataBoundary {
    Local,
    External,
}

/// A named model.
pub struct Model {
    /// Key into the providers.
    pub provider: String,
    /// Model id as the provider knows it.
    pub model: String,
    pub max_tokens: Option<u32>,
    /// The model's context window, in tokens.
    pub context_tokens: Option<u64>,
    /// Other models to fail over to, in order.
    pub fallback: Vec<String>,
    /// Permit the fallback chain to cross to an external provider.
    pub allow_external_fallback: bool,
}

/// A tool server.
#[allow(inconsistent_fields)]
pub enum McpServer {
    /// A local process.
    Stdio {
        command: String,
        args: Vec<String>,
        env: Table<String>,
        readonly_tools: Vec<String>,
    },
    /// A streamable-HTTP endpoint.
    Http {
        url: String,
        auth_token: Option<String>,
        headers: Table<String>,
        readonly_tools: Vec<String>,
    },
}

impl McpServer {
    /// Tools to treat as read-only whatever the server says of them.
    pub open spec fn readonly_tools_spec(self) -> Seq<String> {
        match self {
            McpServer::Stdio { readonly_tools, .. } => readonly_tools@,
            McpServer::Http { readonly_tools, .. } => readonly_tools@,
        }
    }

    /// Tools to treat as read-only whatever the server says of them.
    pub fn readonly_tools(&self) -> (r: &Vec<String>)
        ensures
            r@ == self.readonly_tools_spec(),
    {
        match self {
            McpServer::Stdio { readonly_tools, .. } => readonly_tools,
            McpServer::Http { readonly_tools, .. } => readonly_tools,
        }
    }
}

/// A subagent: a model with its own prompt, mode and tools.
pub struct Agent {
    pub description: String,
    /// Key into the models.
    pub model: String,
    pub mode: Mode,
    pub mcp: Vec<String>,
    pub web_search: bool,
    pub web_fetch: bool,
    pub system_prompt: Option<String>,
    pub system_prompt_file: Option<String>,
    pub max_turns: Option<u32>,
    pub max_tokens: Option<u32>,
    /// Agents that this agent may delegate to.
    pub subagents: Vec<String>,
    pub skills: Vec<String>,
    /// Offer the shell tool.
    pub shell: bool,
    /// Wildcard patterns that a shell command must match; empty lifts it.
    pub shell_allow: Vec<String>,
    /// Offer the file tools.
    pub files: bool,
    /// Pause gated effects for approval.
    pub require_approval: bool,
    /// Effects gated beside mutation and process execution.
    pub approval_effects: Vec<ToolEffect>,
    /// Calls matching these patterns skip the prompt.
    pub auto_approve: Vec<String>,
}

/// Whether a context may change state.
#[derive(Debug, Clone, Copy, PartialEq, Eq, Structural)]
pub enum Mode {
    /// Only tools that are known read-only.
    ReadOnly,
    /// All tools.
    ReadWrite,
}

/// One stage of the pipeline.
pub struct Stage {
    pub name: String,
    /// Key into the models.
    pub model: String,
    pub mode: Mode,
    /// Keys into the tool servers.
    pub mcp: Vec<String>,
    pub web_search: bool,
    pub web_fetch: bool,
    pub system_prompt: Option<String>,
    pub system_prompt_file: Option<String>,
    /// User-message template.
    pub prompt: Option<String>,
    pub max_turns: Option<u32>,
    pub max_tokens: Option<u32>,
    /// Stages this stage may hand control back to.
    pub can_reprompt: Vec<String>,
    /// Keys into the agents.
    pub subagents: Vec<String>,
    pub skills: Vec<String>,
    pub shell: bool,
    pub shell_allow: Vec<String>,
    pub files: bool,
    pub require_approval: bool,
    pub approval_effects: Vec<ToolEffect>,
    pub auto_approve: Vec<String>,
}

// ---------------------------------------------------------------------------
// Defaults
// ---------------------------------------------------------------------------

/// The project-instruction files looked for by default.
pub fn default_context_files() -> (r: Vec<String>)
    ensures
        text::views(r@) == seq!["SOA.md"@],
{
    let mut r: Vec<String> = Vec::new();
    r.push("SOA.md".to_owned());
    assert(text::views(r@) =~= seq!["SOA.md"@]);
    r
}

/// Seconds before a shell command is killed.
pub fn default_shell_timeout() -> (r: u64)
    ensures
        r == 120,
{
    120
}

/// Results of one web search.
pub fn default_search_results() -> (r: usize)
    ensures
        r == 8,
{
    8
}

/// Model round-trips per stage.
pub fn default_max_turns() -> (r: u32)
    ensures
        r == 16,
{
    16
}

/// Stage executions per run.
pub fn default_max_stage_runs() -> (r: u32)
    ensures
        r == 24,
{
    24
}

/// Characters of a tool result.
pub fn default_max_tool_output_chars() -> (r: usize)
    ensures
        r == 30_000,
{
    30_000
}

/// Levels of delegation.
pub fn default_max_agent_depth() -> (r: u32)
    ensures
        r == 2,
{
    2
}

/// Retries of a provider request.
pub fn default_provider_retries() -> (r: u32)
    ensures
        r == 3,
{
    3
}

/// Whether safe tool rounds run together.
pub fn default_parallel_tools() -> (r: bool)
    ensures
        r,
{
    true
}

/// Seconds before a provider request times out.
pub fn default_timeout() -> (r: u64)
    ensures
        r == 600,
{
    600
}

/// The pattern of a hook that names none: every call.
pub fn default_hook_match() -> (r: String)
    ensures
        r@ == "*"@,
{
    "*".to_owned()
}

impl Default for Settings {
    fn default() -> (r: Settings)
        ensures
            r.searxng_url is None,
            r.searxng_max_results == 8,
            r.default_max_turns == 16,
            r.max_stage_runs == 24,
            r.max_tool_output_chars == 30_000,
            r.max_agent_depth == 2,
            r.parallel_tools,
            r.provider_retries == 3,
            r.request_timeout_secs == 600,
            r.shell_timeout_secs == 120,
            r.skills_dir is None,
            r.default_workflow is None,
            text::views(r.context_files@) == seq!["SOA.md"@],
            r.reflect_model is None,
    {
        Settings {
            searxng_url: None,
            searxng_max_results: default_search_results(),
            default_max_turns: default_max_turns(),
            max_stage_runs: default_max_stage_runs(),
            max_tool_output_chars: default_max_tool_output_chars(),
            max_agent_depth: default_max_agent_depth(),
            parallel_tools: default_parallel_tools(),
            provider_retries: default_provider_retries(),
            request_timeout_secs: default_timeout(),
            shell_timeout_secs: default_shell_timeout(),
            skills_dir: None,
            default_workflow: None,
            context_files: default_context_files(),
            reflect_model: None,
        }
    }
}

// ---------------------------------------------------------------------------
// Templates
// ---------------------------------------------------------------------------

/// The template of a stage that sets none.
pub open spec fn default_prompt(is_first: bool) -> Seq<char> {
    if is_first {
        "{{input}}"@
    } else {
        "# Task\n{{input}}\n\n# Input from previous stage\n{{previous}}"@
    }
}

impl Stage {
    /// The stage's template.
    pub open spec fn template(self, is_first: bool) -> Seq<char> {
        match self.prompt {
            Some(p) => p@,
            None => default_prompt(is_first),
        }
    }

    /// The stage's template: its own, else the task alone for the first
    /// stage, else the task and the previous stage's output.
    pub fn prompt_template(&self, is_first: bool) -> (r: String)
        ensures
            r@ == self.template(is_first),
    {
        match &self.prompt {
            Some(p) => p.clone(),
            None => if is_first {
                "{{input}}".to_owned()
            } else {
                "# Task\n{{input}}\n\n# Input from previous stage\n{{previous}}".to_owned()
            },
        }
    }
}

/// The names between `{{` and `}}` from `from` on.
pub open spec fn template_vars_spec(template: Seq<char>, from: int) -> Seq<Seq<char>>
    decreases template.len() - from,
{
    proof {
        reveal_strlit("{{");
        reveal_strlit("}}");
        if 0 <= from {
            find::lemma_find(template, "{{"@, from);
            let i = find::find_spec(template, "{{"@, from);
            if i is Some {
                find::lemma_find(template, "}}"@, i->0 + 2);
            }
        }
    }
    if from < 0 || from > template.len() {
        seq![]
    } else {
        match find::find_spec(template, "{{"@, from) {
            None => seq![],
            Some(i) => match find::find_spec(template, "}}"@, i + 2) {
                None => seq![],
                Some(j) => seq![text::trim_spec(template.subrange(i + 2, j))] + template_vars_spec(
                    template,
                    j + 2,
                ),
            },
        }
    }
}

/// Extract `{{var}}` placeholder names from a template.
pub fn template_vars(template: &str) -> (vars: Vec<String>)
    ensures
        text::views(vars@) == template_vars_spec(template@, 0),
{
    let v = text::chars(template);
    let opening = text::chars("{{");
    let closing = text::chars("}}");
    proof {
        reveal_strlit("{{");
        reveal_strlit("}}");
    }
    let ghost whole = template_vars_spec(v@, 0);
    let mut vars: Vec<String> = Vec::new();
    let mut from: usize = 0;
    assert(text::views(vars@) + whole =~= whole);
    loop
        invariant
            v@ == template@,
            opening@ == "{{"@,
            closing@ == "}}"@,
            opening@.len() == 2,
            closing@.len() == 2,
            from <= v@.len(),
            whole == template_vars_spec(v@, 0),
            whole == text::views(vars@) + template_vars_spec(v@, from as int),
        decreases v@.len() - from,
    {
        match find::find_in(v.as_slice(), opening.as_slice(), from) {
            None => {
                assert(text::views(vars@) + seq![] =~= text::views(vars@));
                return vars;
            },
            Some(i) => match find::find_in(v.as_slice(), closing.as_slice(), i + 2) {
                None => {
                    assert(text::views(vars@) + seq![] =~= text::views(vars@));
                    return vars;
                },
                Some(j) => {
                    let inner = text::text_range(v.as_slice(), i + 2, j);
                    let name = text::trim(inner.as_str());
                    let ghost before = text::views(vars@);
                    let ghost rest = template_vars_spec(v@, j + 2);
                    let ghost added = name@;
                    text::add_text(&mut vars, name);
                    assert(before + (seq![added] + rest) =~= before.push(added) + rest);
                    from = j + 2;
                },
            },
        }
    }
}

// ---------------------------------------------------------------------------
// Environment references
// ---------------------------------------------------------------------------

/// Why an environment reference cannot be replaced.
pub enum EnvError {
    /// `${` without `}` in this text.
    Unterminated(String),
    /// A variable that is not set.
    Unset(String),
}

/// What an environment error stands for.
pub enum EnvFault {
    Unterminated(Seq<char>),
    Unset(Seq<char>),
}

impl View for EnvError {
    type V = EnvFault;

    open spec fn view(&self) -> EnvFault {
        match self {
            EnvError::Unterminated(s) => EnvFault::Unterminated(s@),
            EnvError::Unset(s) => EnvFault::Unset(s@),
        }
    }
}

/// The words for an environment error.
pub open spec fn env_fault_text(fault: EnvFault) -> Seq<char> {
    match fault {
        EnvFault::Unterminated(s) => "unterminated ${...} reference in `"@ + s + "`"@,
        EnvFault::Unset(s) => "environment variable `"@ + s
            + "` referenced in config is not set"@,
    }
}

impl EnvError {
    /// The words for the error.
    pub fn message(&self) -> (out: String)
        ensures
            out@ == env_fault_text(self@),
    {
        match self {
            EnvError::Unterminated(s) => text::cat3(
                "unterminated ${...} reference in `",
                s.as_str(),
                "`",
            ),
            EnvError::Unset(s) => text::cat3(
                "environment variable `",
                s.as_str(),
                "` referenced in config is not set",
            ),
        }
    }
}

/// The text from `from` on with `${VAR}` replaced by the variable's value.
pub open spec fn expand_env_spec(input: Seq<char>, env: Table<String>, from: int) -> Result<
    Seq<char>,
    EnvFault,
>
    decreases input.len() - from,
{
    proof {
        reveal_strlit("${");
        if 0 <= from {
            find::lemma_find(input, "${"@, from);
            let i = find::find_spec(input, "${"@, from);
            if i is Some {
                find::lemma_find(input, seq!['}'], i->0 + 2);
            }
        }
    }
    if from < 0 || from > input.len() {
        Ok(seq![])
    } else {
        match find::find_spec(input, "${"@, from) {
            None => Ok(input.skip(from)),
            Some(i) => match find::find_spec(input, seq!['}'], i + 2) {
                None => Err(EnvFault::Unterminated(input)),
                Some(j) => {
                    let name = input.subrange(i + 2, j);
                    if !env.has_name(name) {
                        Err(EnvFault::Unset(name))
                    } else {
                        match expand_env_spec(input, env, j + 1) {
                            Ok(rest) => Ok(input.subrange(from, i) + env.at(name)@ + rest),
                            Err(e) => Err(e),
                        }
                    }
                },
            },
        }
    }
}

/// Replace `${VAR}` with the value of the environment variable `VAR`. A
/// reference to an unset variable is an error.
pub fn expand_env(input: &str, env: &Table<String>) -> (r: Result<String, EnvError>)
    ensures
        match r {
            Ok(s) => expand_env_spec(input@, *env, 0) == Ok::<Seq<char>, EnvFault>(s@),
            Err(e) => expand_env_spec(input@, *env, 0) == Err::<Seq<char>, EnvFault>(e@),
        },
{
    let v = text::chars(input);
    let opening = text::chars("${");
    let mut closing: Vec<char> = Vec::new();
    closing.push('}');
    assert(closing@ =~= seq!['}']);
    proof {
        reveal_strlit("${");
    }
    let ghost whole = expand_env_spec(v@, *env, 0);
    let mut out = String::new();
    let mut from: usize = 0;
    assert(whole is Ok ==> out@ + whole->Ok_0 =~= whole->Ok_0);
    loop
        invariant
            v@ == input@,
            opening@ == "${"@,
            opening@.len() == 2,
            closing@ == seq!['}'],
            from <= v@.len(),
            whole == expand_env_spec(v@, *env, 0),
            whole == (match expand_env_spec(v@, *env, from as int) {
                Ok(rest) => Ok::<Seq<char>, EnvFault>(out@ + rest),
                Err(e) => Err(e),
            }),
        decreases v@.len() - from,
    {
        match find::find_in(v.as_slice(), opening.as_slice(), from) {
            None => {
                let rest = text::text_range(v.as_slice(), from, v.len());
                assert(rest@ =~= v@.skip(from as int));
                out.append(rest.as_str());
                return Ok(out);
            },
            Some(i) => {
                let head = text::text_range(v.as_slice(), from, i);
                match find::find_in(v.as_slice(), closing.as_slice(), i + 2) {
                    None => {
                        return Err(EnvError::Unterminated(input.to_owned()));
                    },
                    Some(j) => {
                        let name = text::text_range(v.as_slice(), i + 2, j);
                        match env.get(name.as_str()) {
                            None => {
                                return Err(EnvError::Unset(name));
                            },
                            Some(value) => {
                                let ghost before = out@;
                                out.append(head.as_str());
                                out.append(value.as_str());
                                let ghost rest = expand_env_spec(v@, *env, j + 1);
                                assert(rest is Ok ==> before + (head@ + value@ + rest->Ok_0)
                                    =~= out@ + rest->Ok_0);
                                from = j + 1;
                            },
                        }
                    },
                }
            },
        }
    }
}

} // verus!

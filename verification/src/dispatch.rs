//! One tool call, from its arguments to the text of its result: how it is
//! described, whether it may run, and what is to be run.

use vstd::prelude::*;
use vstd::string::*;

use crate::approval::{Approvals, Decision};
use crate::config::Config;
use crate::effects;
use crate::effects::{ToolEffect, ToolEffects};
use crate::files;
use crate::files::FileRequest;
use crate::json;
use crate::json::Json;
use crate::mcp::McpManager;
use crate::model::ToolCall;
use crate::numbers;
use crate::text;
use crate::tools;
use crate::toolset;
use crate::toolset::ToolBinding;

verus! {

// ---------------------------------------------------------------------------
// Policy
// ---------------------------------------------------------------------------

/// Approval policy for one call, derived from its owning context.
pub struct CallPolicy<'a> {
    /// Whether this call's effects require approval in its context.
    pub require_approval: bool,
    pub auto_approve: &'a Vec<String>,
}

impl<'a> CallPolicy<'a> {
    /// Whether a call needs approval: its context asks for it, and the tool
    /// mutates, runs a process, or has one of the listed effects.
    pub fn approval_required(
        context_requires: bool,
        additional_effects: &[ToolEffect],
        tool_effects: ToolEffects,
    ) -> (r: bool)
        ensures
            r == effects::approval_spec(context_requires, additional_effects@, tool_effects@),
    {
        effects::approval_required(context_requires, additional_effects, tool_effects)
    }

    /// The policy for a context's tool.
    pub fn for_tool(
        context_requires: bool,
        additional_effects: &[ToolEffect],
        auto_approve: &'a Vec<String>,
        tool_effects: ToolEffects,
    ) -> (r: CallPolicy<'a>)
        ensures
            r.require_approval == effects::approval_spec(
                context_requires,
                additional_effects@,
                tool_effects@,
            ),
            r.auto_approve == auto_approve,
    {
        CallPolicy {
            require_approval: effects::approval_required(
                context_requires,
                additional_effects,
                tool_effects,
            ),
            auto_approve,
        }
    }
}

/// Whether a round's calls may run beside each other: there are several, and
/// each resolves to a tool that is safe for it. `safe` holds, call by call,
/// whether its tool is, and nothing where no tool has that name.
pub fn parallel_round(enabled: bool, calls: &Vec<ToolCall>, safe: &Vec<Option<bool>>) -> (r: bool)
    requires
        safe@.len() == calls@.len(),
    ensures
        r == (enabled && calls@.len() > 1 && forall|i: int|
            0 <= i < safe@.len() ==> #[trigger] safe@[i] == Some(true)),
{
    if !enabled || calls.len() <= 1 {
        return false;
    }
    let mut i: usize = 0;
    while i < safe.len()
        invariant
            i <= safe@.len(),
            forall|k: int| 0 <= k < i ==> #[trigger] safe@[k] == Some(true),
        decreases safe@.len() - i,
    {
        match safe[i] {
            Some(flag) => {
                if !flag {
                    assert(safe@[i as int] != Some(true));
                    return false;
                }
            },
            None => {
                assert(safe@[i as int] != Some(true));
                return false;
            },
        }
        i = i + 1;
    }
    true
}

// ---------------------------------------------------------------------------
// Description
// ---------------------------------------------------------------------------

/// How a call is presented to the approver and matched against patterns.
pub struct CallDescriptor {
    pub descriptor: String,
    pub detail: String,
    /// What an "always" grant would cover for the rest of the session.
    pub always_pattern: String,
    /// Whether a pattern may approve the call: compound shell commands need
    /// an approval of their own.
    pub pattern_safe: bool,
}

/// What a description stands for.
pub struct DescriptorView {
    pub descriptor: Seq<char>,
    pub detail: Seq<char>,
    pub always_pattern: Seq<char>,
    pub pattern_safe: bool,
}

impl View for CallDescriptor {
    type V = DescriptorView;

    open spec fn view(&self) -> DescriptorView {
        DescriptorView {
            descriptor: self.descriptor@,
            detail: self.detail@,
            always_pattern: self.always_pattern@,
            pattern_safe: self.pattern_safe,
        }
    }
}

/// Compact JSON of a call's arguments.
pub open spec fn preview_spec(arguments: json::JsonView) -> Seq<char> {
    if arguments is Null {
        "{}"@
    } else {
        json::printed(arguments)
    }
}

/// Compact JSON of a call's arguments; none at all are shown as an empty
/// object.
pub fn arguments_preview(arguments: &Json) -> (r: String)
    ensures
        r@ == preview_spec(arguments@),
{
    match arguments {
        Json::Null => "{}".to_owned(),
        _ => json::print(arguments),
    }
}

/// A text, or a question mark.
pub open spec fn or_unknown(s: Option<Seq<char>>) -> Seq<char> {
    match s {
        Some(s) => s,
        None => "?"@,
    }
}

/// The first word of a text, or a question mark.
pub open spec fn first_word(s: Seq<char>) -> Seq<char> {
    let words = text::words_spec(s);
    if words.len() > 0 {
        words[0]
    } else {
        "?"@
    }
}

/// How a call is presented.
pub open spec fn descriptor_spec(
    binding: toolset::BindingView,
    arguments: json::JsonView,
) -> DescriptorView {
    let shown = text::truncate_spec(preview_spec(arguments), 200);
    match binding {
        toolset::BindingView::Mcp { server, tool } => {
            let name = toolset::sanitized(server + "__"@ + tool);
            DescriptorView {
                descriptor: name,
                detail: shown,
                always_pattern: name,
                pattern_safe: true,
            }
        },
        toolset::BindingView::WebSearch => DescriptorView {
            descriptor: tools::WEB_SEARCH_TOOL@,
            detail: shown,
            always_pattern: tools::WEB_SEARCH_TOOL@,
            pattern_safe: true,
        },
        toolset::BindingView::WebFetch => {
            let url = or_unknown(arguments.text_field("url"@));
            DescriptorView {
                descriptor: tools::WEB_FETCH_TOOL@ + " "@ + text::truncate_spec(url, 160),
                detail: text::truncate_spec(url, 200),
                always_pattern: tools::WEB_FETCH_TOOL@ + " *"@,
                pattern_safe: true,
            }
        },
        toolset::BindingView::Shell { .. } => {
            let command = text::trim_spec(arguments.text_or_empty("command"@));
            DescriptorView {
                descriptor: "shell "@ + text::truncate_spec(command, 160),
                detail: command,
                always_pattern: "shell "@ + first_word(command) + " *"@,
                pattern_safe: tools::simple_command(command),
            }
        },
        toolset::BindingView::Agent { agent } => DescriptorView {
            descriptor: "agent__"@ + agent,
            detail: text::truncate_spec(arguments.text_or_empty("task"@), 200),
            always_pattern: "agent__"@ + agent,
            pattern_safe: true,
        },
        toolset::BindingView::File { op } => {
            let path = or_unknown(arguments.text_field("path"@));
            DescriptorView {
                descriptor: files::file_tool_name(op) + " "@ + text::truncate_spec(path, 160),
                detail: shown,
                always_pattern: files::file_tool_name(op) + " *"@,
                pattern_safe: true,
            }
        },
    }
}

fn known_text(arguments: &Json, name: &str) -> (r: String)
    ensures
        r@ == or_unknown(arguments@.text_field(name@)),
{
    match arguments.text_field(name) {
        Some(s) => s.to_owned(),
        None => "?".to_owned(),
    }
}

/// Describe a call for the approver and for pattern matching.
pub fn call_descriptor(binding: &ToolBinding, arguments: &Json) -> (r: CallDescriptor)
    ensures
        r@ == descriptor_spec(binding@, arguments@),
{
    let preview = arguments_preview(arguments);
    let shown = text::truncate(preview.as_str(), 200);
    match binding {
        ToolBinding::Mcp { server, tool } => {
            let full = text::cat3(server.as_str(), "__", tool.as_str());
            let name = toolset::sanitize_tool_name(full.as_str());
            CallDescriptor {
                descriptor: name.clone(),
                detail: shown,
                always_pattern: name,
                pattern_safe: true,
            }
        },
        ToolBinding::WebSearch => CallDescriptor {
            descriptor: tools::WEB_SEARCH_TOOL.to_owned(),
            detail: shown,
            always_pattern: tools::WEB_SEARCH_TOOL.to_owned(),
            pattern_safe: true,
        },
        ToolBinding::WebFetch => {
            let url = known_text(arguments, "url");
            let short = text::truncate(url.as_str(), 160);
            CallDescriptor {
                descriptor: text::cat3(tools::WEB_FETCH_TOOL, " ", short.as_str()),
                detail: text::truncate(url.as_str(), 200),
                always_pattern: text::cat2(tools::WEB_FETCH_TOOL, " *"),
                pattern_safe: true,
            }
        },
        ToolBinding::Shell { .. } => {
            let given = arguments.text_or_empty("command");
            let command = text::trim(given.as_str());
            let words = text::words(command.as_str());
            assert(text::views(words@).len() == words@.len());
            let first = if words.len() > 0 {
                words[0].clone()
            } else {
                "?".to_owned()
            };
            let short = text::truncate(command.as_str(), 160);
            let simple = tools::shell_command_is_simple(command.as_str());
            CallDescriptor {
                descriptor: text::cat2("shell ", short.as_str()),
                detail: command,
                always_pattern: text::cat3("shell ", first.as_str(), " *"),
                pattern_safe: simple,
            }
        },
        ToolBinding::Agent { agent } => {
            let task = arguments.text_or_empty("task");
            CallDescriptor {
                descriptor: text::cat2("agent__", agent.as_str()),
                detail: text::truncate(task.as_str(), 200),
                always_pattern: text::cat2("agent__", agent.as_str()),
                pattern_safe: true,
            }
        },
        ToolBinding::File { op } => {
            let path = known_text(arguments, "path");
            let short = text::truncate(path.as_str(), 160);
            let name = op.tool_name();
            CallDescriptor {
                descriptor: text::cat3(name, " ", short.as_str()),
                detail: shown,
                always_pattern: text::cat2(name, " *"),
                pattern_safe: true,
            }
        },
    }
}

// ---------------------------------------------------------------------------
// Gate
// ---------------------------------------------------------------------------

/// Whether a call may run.
pub enum Gate {
    Allowed,
    /// It is refused, with the reply to the model.
    Refused(String),
    /// The approver has to be asked.
    Ask,
}

/// What a gate stands for.
pub enum GateView {
    Allowed,
    Refused(Seq<char>),
    Ask,
}

impl View for Gate {
    type V = GateView;

    open spec fn view(&self) -> GateView {
        match self {
            Gate::Allowed => GateView::Allowed,
            Gate::Refused(s) => GateView::Refused(s@),
            Gate::Ask => GateView::Ask,
        }
    }
}

/// Whether a pattern approves a call beforehand.
pub open spec fn pre_approved(
    d: DescriptorView,
    auto_approve: Seq<Seq<char>>,
    granted: Seq<Seq<char>>,
) -> bool {
    d.pattern_safe && (tools::any_match(auto_approve, d.descriptor) || tools::any_match(
        granted,
        d.descriptor,
    ))
}

/// The reply where there is no approver.
pub open spec fn unattended_text(descriptor: Seq<char>) -> Seq<char> {
    "DENIED: `"@ + descriptor
        + "` requires approval, but this session has no interactive approver. Ask the user to add a matching auto_approve pattern or to run interactively."@
}

/// The reply where the approver declines.
pub open spec fn declined_text(descriptor: Seq<char>) -> Seq<char> {
    "DENIED: the user declined `"@ + descriptor
        + "`. Do not retry the same call; adjust your approach or ask for guidance."@
}

/// Whether a call may run, before the approver is asked.
pub open spec fn gate_spec(
    d: DescriptorView,
    require_approval: bool,
    auto_approve: Seq<Seq<char>>,
    approvals: Approvals,
) -> GateView {
    if !require_approval || pre_approved(
        d,
        auto_approve,
        text::views(approvals.session_allow@),
    ) {
        GateView::Allowed
    } else if !approvals.interactive {
        GateView::Refused(unattended_text(d.descriptor))
    } else {
        GateView::Ask
    }
}

/// Decide whether a call may run, has to be refused, or is put to the
/// approver.
pub fn gate(described: &CallDescriptor, policy: &CallPolicy, approvals: &Approvals) -> (r: Gate)
    ensures
        r@ == gate_spec(
            described@,
            policy.require_approval,
            text::views(policy.auto_approve@),
            *approvals,
        ),
{
    if !policy.require_approval {
        return Gate::Allowed;
    }
    let descriptor = described.descriptor.as_str();
    if described.pattern_safe && (tools::matches_any(policy.auto_approve, descriptor)
        || approvals.session_allowed(descriptor)) {
        return Gate::Allowed;
    }
    if !approvals.is_interactive() {
        return Gate::Refused(
            text::cat3(
                "DENIED: `",
                descriptor,
                "` requires approval, but this session has no interactive approver. Ask the user to add a matching auto_approve pattern or to run interactively.",
            ),
        );
    }
    Gate::Ask
}

/// Act on the approver's answer: a denial is the reply to the model, an
/// "always" is remembered for the session.
pub fn after_answer(described: &CallDescriptor, decision: Decision, approvals: &mut Approvals) -> (r:
    Result<(), String>)
    ensures
        match r {
            Ok(()) => decision != Decision::Deny,
            Err(e) => decision == Decision::Deny && e@ == declined_text(described.descriptor@),
        },
        final(approvals).interactive == old(approvals).interactive,
        text::views(final(approvals).session_allow@) == (if decision == Decision::AlwaysAllow {
            text::views(old(approvals).session_allow@).push(described.always_pattern@)
        } else {
            text::views(old(approvals).session_allow@)
        }),
{
    match decision {
        Decision::Approve => Ok(()),
        Decision::AlwaysAllow => {
            approvals.allow_always(described.always_pattern.clone());
            Ok(())
        },
        Decision::Deny => Err(
            text::cat3(
                "DENIED: the user declined `",
                described.descriptor.as_str(),
                "`. Do not retry the same call; adjust your approach or ask for guidance.",
            ),
        ),
    }
}

/// A compound shell command is never approved by a pattern: where approval
/// is required, it is put to the approver or refused, whatever was granted.
pub proof fn law_compound_commands_need_their_own_approval(
    arguments: json::JsonView,
    allow: Seq<Seq<char>>,
    auto_approve: Seq<Seq<char>>,
    approvals: Approvals,
)
    requires
        !tools::simple_command(text::trim_spec(arguments.text_or_empty("command"@))),
    ensures
        gate_spec(
            descriptor_spec(toolset::BindingView::Shell { allow }, arguments),
            true,
            auto_approve,
            approvals,
        ) !is Allowed,
{
}

/// Without an approver nothing that needs approval runs, unless a pattern
/// approves it beforehand.
pub proof fn law_unattended_sessions_refuse(
    d: DescriptorView,
    auto_approve: Seq<Seq<char>>,
    approvals: Approvals,
)
    requires
        !approvals.interactive,
        !pre_approved(d, auto_approve, text::views(approvals.session_allow@)),
    ensures
        gate_spec(d, true, auto_approve, approvals) is Refused,
{
}

// ---------------------------------------------------------------------------
// What is to be run
// ---------------------------------------------------------------------------

/// What a call asks to be done.
#[allow(inconsistent_fields)]
pub enum ToolRequest {
    /// Nothing: the reply is known.
    Reply(String),
    WebSearch { endpoint: String, query: String, max_results: usize },
    WebFetch { url: String },
    Mcp { server: String, tool: String, arguments: Json },
    Agent { agent: String, task: String },
    Shell { command: String, timeout_secs: u64 },
    File(FileRequest),
}

/// What a request stands for.
#[allow(inconsistent_fields)]
pub enum ToolRequestView {
    Reply(Seq<char>),
    WebSearch { endpoint: Seq<char>, query: Seq<char>, max_results: usize },
    WebFetch { url: Seq<char> },
    Mcp { server: Seq<char>, tool: Seq<char>, arguments: json::JsonView },
    Agent { agent: Seq<char>, task: Seq<char> },
    Shell { command: Seq<char>, timeout_secs: u64 },
    File(files::FileRequestView),
}

impl View for ToolRequest {
    type V = ToolRequestView;

    open spec fn view(&self) -> ToolRequestView {
        match self {
            ToolRequest::Reply(s) => ToolRequestView::Reply(s@),
            ToolRequest::WebSearch { endpoint, query, max_results } => ToolRequestView::WebSearch {
                endpoint: endpoint@,
                query: query@,
                max_results: *max_results,
            },
            ToolRequest::WebFetch { url } => ToolRequestView::WebFetch { url: url@ },
            ToolRequest::Mcp { server, tool, arguments } => ToolRequestView::Mcp {
                server: server@,
                tool: tool@,
                arguments: arguments@,
            },
            ToolRequest::Agent { agent, task } => ToolRequestView::Agent {
                agent: agent@,
                task: task@,
            },
            ToolRequest::Shell { command, timeout_secs } => ToolRequestView::Shell {
                command: command@,
                timeout_secs: *timeout_secs,
            },
            ToolRequest::File(request) => ToolRequestView::File(request@),
        }
    }
}

/// The reply to a restricted shell's compound command.
pub const SIMPLE_ONLY_TEXT: &'static str = "ERROR: command not permitted — shell_allow accepts one simple command; pipes, command lists, redirections, subshells, and command substitutions require an unrestricted shell grant";

/// What a shell call asks for.
pub open spec fn shell_request(allow: Seq<Seq<char>>, command: Seq<char>, timeout_secs: u64) -> ToolRequestView {
    if text::trim_spec(command).len() == 0 {
        ToolRequestView::Reply("ERROR: `command` must be a non-empty string"@)
    } else if allow.len() > 0 && !tools::simple_command(command) {
        ToolRequestView::Reply(SIMPLE_ONLY_TEXT@)
    } else if !tools::allowed_spec(allow, command) {
        ToolRequestView::Reply(
            "ERROR: command not permitted here — allowed patterns: "@ + text::join_spec(
                allow,
                ", "@,
            ),
        )
    } else {
        ToolRequestView::Shell { command, timeout_secs }
    }
}

/// The arguments as an object, or the reply where they are none.
pub open spec fn object_of(arguments: json::JsonView) -> Result<json::JsonView, Seq<char>> {
    match arguments {
        json::JsonView::Object(_) => Ok(arguments),
        json::JsonView::Null => Ok(json::JsonView::Object(seq![])),
        _ => Err(
            "ERROR: tool arguments were not a JSON object: "@ + text::truncate_spec(
                json::printed(arguments),
                200,
            ),
        ),
    }
}

/// What a call with arguments in order asks for, or the words of an error
/// that ends the loop.
pub open spec fn bound_request(
    binding: toolset::BindingView,
    arguments: json::JsonView,
    c: Config,
    m: McpManager,
) -> Result<ToolRequestView, Seq<char>> {
    match binding {
        toolset::BindingView::WebSearch => {
            let query = arguments.text_or_empty("query"@);
            if query.len() == 0 {
                Ok(
                    ToolRequestView::Reply(
                        "ERROR: web_search requires a non-empty `query` string"@,
                    ),
                )
            } else {
                match c.settings.searxng_url {
                    Some(endpoint) => Ok(
                        ToolRequestView::WebSearch {
                            endpoint: endpoint@,
                            query,
                            max_results: c.settings.searxng_max_results,
                        },
                    ),
                    None => Err("searxng_url is not configured"@),
                }
            }
        },
        toolset::BindingView::WebFetch => {
            let url = text::trim_spec(arguments.text_or_empty("url"@));
            if url.len() == 0 {
                Ok(ToolRequestView::Reply("ERROR: web_fetch requires a non-empty `url` string"@))
            } else {
                Ok(ToolRequestView::WebFetch { url })
            }
        },
        toolset::BindingView::Mcp { server, tool } => if m.connections.has_name(server) {
            Ok(ToolRequestView::Mcp { server, tool, arguments })
        } else {
            Err("mcp server `"@ + server + "` is not connected"@)
        },
        toolset::BindingView::Agent { agent } => {
            let task = arguments.text_or_empty("task"@);
            if text::trim_spec(task).len() == 0 {
                Ok(ToolRequestView::Reply("ERROR: the agent needs a non-empty `task` string"@))
            } else {
                Ok(ToolRequestView::Agent { agent, task })
            }
        },
        toolset::BindingView::Shell { allow } => Ok(
            shell_request(
                allow,
                arguments.text_or_empty("command"@),
                c.settings.shell_timeout_secs,
            ),
        ),
        toolset::BindingView::File { op } => match files::request_spec(op, arguments) {
            Ok(request) => Ok(ToolRequestView::File(request)),
            Err(e) => Ok(ToolRequestView::Reply(e)),
        },
    }
}

/// What a call asks for, or the words of an error that ends the loop.
pub open spec fn request_spec(
    binding: toolset::BindingView,
    arguments: json::JsonView,
    c: Config,
    m: McpManager,
) -> Result<ToolRequestView, Seq<char>> {
    match object_of(arguments) {
        Err(reply) => Ok(ToolRequestView::Reply(reply)),
        Ok(object) => bound_request(binding, object, c, m),
    }
}

fn shell_call(allow: &Vec<String>, command: String, timeout_secs: u64) -> (r: ToolRequest)
    ensures
        r@ == shell_request(text::views(allow@), command@, timeout_secs),
{
    assert(text::views(allow@).len() == allow@.len());
    let trimmed = text::trim(command.as_str());
    if trimmed.as_str().is_empty() {
        return ToolRequest::Reply("ERROR: `command` must be a non-empty string".to_owned());
    }
    if allow.len() > 0 && !tools::shell_command_is_simple(command.as_str()) {
        return ToolRequest::Reply(SIMPLE_ONLY_TEXT.to_owned());
    }
    if !tools::command_allowed(allow, command.as_str()) {
        return ToolRequest::Reply(
            text::cat2(
                "ERROR: command not permitted here — allowed patterns: ",
                text::join(allow, ", ").as_str(),
            ),
        );
    }
    ToolRequest::Shell { command, timeout_secs }
}

fn bound_call(binding: &ToolBinding, arguments: &Json, config: &Config, manager: &McpManager) -> (r:
    Result<ToolRequest, String>)
    ensures
        match r {
            Ok(request) => bound_request(binding@, arguments@, *config, *manager) == Ok::<
                ToolRequestView,
                Seq<char>,
            >(request@),
            Err(e) => bound_request(binding@, arguments@, *config, *manager) == Err::<
                ToolRequestView,
                Seq<char>,
            >(e@),
        },
{
    match binding {
        ToolBinding::WebSearch => {
            let query = arguments.text_or_empty("query");
            if query.as_str().is_empty() {
                return Ok(
                    ToolRequest::Reply(
                        "ERROR: web_search requires a non-empty `query` string".to_owned(),
                    ),
                );
            }
            match &config.settings.searxng_url {
                Some(endpoint) => Ok(
                    ToolRequest::WebSearch {
                        endpoint: endpoint.clone(),
                        query,
                        max_results: config.settings.searxng_max_results,
                    },
                ),
                None => Err("searxng_url is not configured".to_owned()),
            }
        },
        ToolBinding::WebFetch => {
            let given = arguments.text_or_empty("url");
            let url = text::trim(given.as_str());
            if url.as_str().is_empty() {
                return Ok(
                    ToolRequest::Reply(
                        "ERROR: web_fetch requires a non-empty `url` string".to_owned(),
                    ),
                );
            }
            Ok(ToolRequest::WebFetch { url })
        },
        ToolBinding::Mcp { server, tool } => {
            match manager.get(server.as_str()) {
                Some(_) => Ok(
                    ToolRequest::Mcp {
                        server: server.clone(),
                        tool: tool.clone(),
                        arguments: arguments.clone(),
                    },
                ),
                None => Err(text::cat3("mcp server `", server.as_str(), "` is not connected")),
            }
        },
        ToolBinding::Agent { agent } => {
            let task = arguments.text_or_empty("task");
            let trimmed = text::trim(task.as_str());
            if trimmed.as_str().is_empty() {
                return Ok(
                    ToolRequest::Reply(
                        "ERROR: the agent needs a non-empty `task` string".to_owned(),
                    ),
                );
            }
            Ok(ToolRequest::Agent { agent: agent.clone(), task })
        },
        ToolBinding::Shell { allow } => {
            let command = arguments.text_or_empty("command");
            Ok(shell_call(allow, command, config.settings.shell_timeout_secs))
        },
        ToolBinding::File { op } => match files::read_request(*op, arguments) {
            Ok(request) => Ok(ToolRequest::File(request)),
            Err(e) => Ok(ToolRequest::Reply(e)),
        },
    }
}

/// Read a call's arguments and say what is to be run. No arguments stand for
/// an empty object; other malformed ones, and missing ones, are answered to
/// the model. The error ends the loop.
pub fn prepare_call(
    binding: &ToolBinding,
    arguments: &Json,
    config: &Config,
    manager: &McpManager,
) -> (r: Result<ToolRequest, String>)
    ensures
        match r {
            Ok(request) => request_spec(binding@, arguments@, *config, *manager) == Ok::<
                ToolRequestView,
                Seq<char>,
            >(request@),
            Err(e) => request_spec(binding@, arguments@, *config, *manager) == Err::<
                ToolRequestView,
                Seq<char>,
            >(e@),
        },
{
    match arguments {
        Json::Object(_) => bound_call(binding, arguments, config, manager),
        Json::Null => {
            let none: Vec<(String, Json)> = Vec::new();
            let empty = Json::Object(none);
            assert(json::json_view(empty)->Object_0 =~= seq![]);
            bound_call(binding, &empty, config, manager)
        },
        _ => {
            let shown = text::truncate(json::print(arguments).as_str(), 200);
            Ok(
                ToolRequest::Reply(
                    text::cat2("ERROR: tool arguments were not a JSON object: ", shown.as_str()),
                ),
            )
        },
    }
}

/// The reply to the model where running a call failed.
pub open spec fn failure_spec(binding: toolset::BindingView, error: Seq<char>) -> Seq<char> {
    match binding {
        toolset::BindingView::WebSearch => "ERROR: web search failed: "@ + error,
        toolset::BindingView::WebFetch => "ERROR: web fetch failed: "@ + error,
        toolset::BindingView::Agent { agent } => "ERROR: agent `"@ + agent + "` failed: "@ + error,
        _ => "ERROR: "@ + error,
    }
}

/// The reply to the model where running a call failed: a failure is told,
/// it does not end the loop.
pub fn failure_reply(binding: &ToolBinding, error: &str) -> (r: String)
    ensures
        r@ == failure_spec(binding@, error@),
{
    match binding {
        ToolBinding::WebSearch => text::cat2("ERROR: web search failed: ", error),
        ToolBinding::WebFetch => text::cat2("ERROR: web fetch failed: ", error),
        ToolBinding::Agent { agent } => text::cat4(
            "ERROR: agent `",
            agent.as_str(),
            "` failed: ",
            error,
        ),
        _ => text::cat2("ERROR: ", error),
    }
}

/// A result as the model sees it.
pub open spec fn clamped(output: Seq<char>, max_chars: nat) -> Seq<char> {
    if max_chars == 0 || output.len() <= max_chars {
        output
    } else {
        output.take(max_chars as int) + "\n… [tool output truncated: "@ + numbers::decimal_spec(
            output.len(),
        ) + " characters total, showing the first "@ + numbers::decimal_spec(max_chars)
            + ". Re-run the tool with a narrower query (e.g. a specific subdirectory or file) to see the rest.]"@
    }
}

/// Cut a result to its first characters, telling the model what was cut; a
/// limit of zero is none.
pub fn clamp_tool_output(output: String, max_chars: usize) -> (r: String)
    ensures
        r@ == clamped(output@, max_chars as nat),
{
    let total: usize = output.as_str().unicode_len();
    if max_chars == 0 || total <= max_chars {
        return output;
    }
    let kept = text::take(output.as_str(), max_chars);
    assert(kept@ =~= output@.take(max_chars as int));
    let mut r = kept;
    r.append("\n… [tool output truncated: ");
    r.append(numbers::decimal_len(total).as_str());
    r.append(" characters total, showing the first ");
    r.append(numbers::decimal_len(max_chars).as_str());
    r.append(
        ". Re-run the tool with a narrower query (e.g. a specific subdirectory or file) to see the rest.]",
    );
    r
}

} // verus!

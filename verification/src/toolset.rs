//! The tools that a model context is offered, and what each of them can do.

use vstd::prelude::*;
use vstd::string::*;

use crate::chain;
use crate::config::{Agent, Config, McpServer, Mode, Stage};
use crate::effects;
use crate::effects::{ToolEffect, ToolEffects};
use crate::files;
use crate::files::FileOp;
use crate::mcp;
use crate::mcp::{McpConnection, McpManager, McpTool};
use crate::model;
use crate::model::ToolDefinition;
use crate::text;
use crate::tools;

verus! {

// ---------------------------------------------------------------------------
// Tools
// ---------------------------------------------------------------------------

/// Where a tool call is routed when the model makes it.
pub enum ToolBinding {
    Mcp { server: String, tool: String },
    WebSearch,
    /// Fetch a URL and return its readable text.
    WebFetch,
    /// Delegate the call's `task` to a configured subagent.
    Agent { agent: String },
    /// Run the call's `command` with `sh -c`, restricted to these patterns
    /// where there are any.
    Shell { allow: Vec<String> },
    /// A built-in file tool, rooted at the working directory.
    File { op: FileOp },
}

/// What a binding stands for.
pub enum BindingView {
    Mcp { server: Seq<char>, tool: Seq<char> },
    WebSearch,
    WebFetch,
    Agent { agent: Seq<char> },
    Shell { allow: Seq<Seq<char>> },
    File { op: FileOp },
}

impl View for ToolBinding {
    type V = BindingView;

    open spec fn view(&self) -> BindingView {
        match self {
            ToolBinding::Mcp { server, tool } => BindingView::Mcp { server: server@, tool: tool@ },
            ToolBinding::WebSearch => BindingView::WebSearch,
            ToolBinding::WebFetch => BindingView::WebFetch,
            ToolBinding::Agent { agent } => BindingView::Agent { agent: agent@ },
            ToolBinding::Shell { allow } => BindingView::Shell { allow: text::views(allow@) },
            ToolBinding::File { op } => BindingView::File { op: *op },
        }
    }
}

/// A tool as a context offers it.
pub struct StageTool {
    pub definition: ToolDefinition,
    pub binding: ToolBinding,
    pub effects: ToolEffects,
}

/// What an offered tool stands for.
pub struct ToolView {
    pub definition: model::DefinitionView,
    pub binding: BindingView,
    pub effects: Set<ToolEffect>,
}

impl View for StageTool {
    type V = ToolView;

    open spec fn view(&self) -> ToolView {
        ToolView {
            definition: self.definition@,
            binding: self.binding@,
            effects: self.effects@,
        }
    }
}

/// The views of a list of tools.
pub open spec fn tools_view(list: Seq<StageTool>) -> Seq<ToolView> {
    Seq::new(list.len(), |i: int| list[i]@)
}

/// What a context, a stage or an agent, exposes to its model.
pub struct ToolProfile<'a> {
    pub owner: &'a str,
    pub mode: Mode,
    pub mcp: &'a Vec<String>,
    pub web_search: bool,
    pub web_fetch: bool,
    pub subagents: &'a Vec<String>,
    pub shell: bool,
    pub shell_allow: &'a Vec<String>,
    pub files: bool,
}

/// What a profile stands for.
pub struct ProfileView {
    pub owner: Seq<char>,
    pub mode: Mode,
    pub mcp: Seq<Seq<char>>,
    pub web_search: bool,
    pub web_fetch: bool,
    pub subagents: Seq<Seq<char>>,
    pub shell: bool,
    pub shell_allow: Seq<Seq<char>>,
    pub files: bool,
}

impl<'a> View for ToolProfile<'a> {
    type V = ProfileView;

    open spec fn view(&self) -> ProfileView {
        ProfileView {
            owner: self.owner@,
            mode: self.mode,
            mcp: text::views(self.mcp@),
            web_search: self.web_search,
            web_fetch: self.web_fetch,
            subagents: text::views(self.subagents@),
            shell: self.shell,
            shell_allow: text::views(self.shell_allow@),
            files: self.files,
        }
    }
}

/// What a stage exposes.
pub open spec fn stage_profile(s: Stage) -> ProfileView {
    ProfileView {
        owner: s.name@,
        mode: s.mode,
        mcp: text::views(s.mcp@),
        web_search: s.web_search,
        web_fetch: s.web_fetch,
        subagents: text::views(s.subagents@),
        shell: s.shell,
        shell_allow: text::views(s.shell_allow@),
        files: s.files,
    }
}

/// What an agent exposes.
pub open spec fn agent_profile(a: Agent, name: Seq<char>) -> ProfileView {
    ProfileView {
        owner: name,
        mode: a.mode,
        mcp: text::views(a.mcp@),
        web_search: a.web_search,
        web_fetch: a.web_fetch,
        subagents: text::views(a.subagents@),
        shell: a.shell,
        shell_allow: text::views(a.shell_allow@),
        files: a.files,
    }
}

impl Stage {
    /// What the stage exposes to its model.
    pub fn tool_profile(&self) -> (r: ToolProfile<'_>)
        ensures
            r@ == stage_profile(*self),
    {
        ToolProfile {
            owner: self.name.as_str(),
            mode: self.mode,
            mcp: &self.mcp,
            web_search: self.web_search,
            web_fetch: self.web_fetch,
            subagents: &self.subagents,
            shell: self.shell,
            shell_allow: &self.shell_allow,
            files: self.files,
        }
    }
}

impl Agent {
    /// What the agent exposes to its model.
    pub fn tool_profile<'a>(&'a self, name: &'a str) -> (r: ToolProfile<'a>)
        ensures
            r@ == agent_profile(*self, name@),
    {
        ToolProfile {
            owner: name,
            mode: self.mode,
            mcp: &self.mcp,
            web_search: self.web_search,
            web_fetch: self.web_fetch,
            subagents: &self.subagents,
            shell: self.shell,
            shell_allow: &self.shell_allow,
            files: self.files,
        }
    }
}

// ---------------------------------------------------------------------------
// Names
// ---------------------------------------------------------------------------

/// Characters of an advertised name.
pub const MAX_TOOL_NAME: usize = 64;

/// Whether an advertised name may hold a character.
pub open spec fn name_char(c: char) -> bool {
    text::ascii_alnum(c) || c == '_' || c == '-'
}

/// A text with a dash for each character that no advertised name may hold.
pub open spec fn dashed(name: Seq<char>) -> Seq<char> {
    Seq::new(
        name.len(),
        |i: int|
            if name_char(name[i]) {
                name[i]
            } else {
                '-'
            },
    )
}

/// The advertised form of a name.
pub open spec fn sanitized(name: Seq<char>) -> Seq<char> {
    text::take_spec(dashed(name), MAX_TOOL_NAME as nat)
}

/// Whether a tool may be advertised under a name.
pub open spec fn may_be_advertised(name: Seq<char>) -> bool {
    &&& 0 < name.len() <= MAX_TOOL_NAME
    &&& forall|i: int| 0 <= i < name.len() ==> name_char(#[trigger] name[i])
}

/// The advertised form of a name: letters, digits, `_` and `-` only, and at
/// most 64 of them.
pub fn sanitize_tool_name(name: &str) -> (r: String)
    ensures
        r@ == sanitized(name@),
        r@.len() <= MAX_TOOL_NAME,
        forall|i: int| 0 <= i < r@.len() ==> name_char(#[trigger] r@[i]),
{
    let v = text::chars(name);
    let mut cleaned: Vec<char> = Vec::new();
    let mut i: usize = 0;
    while i < v.len()
        invariant
            i <= v@.len(),
            v@ == name@,
            cleaned@.len() == i,
            forall|k: int| 0 <= k < i ==> #[trigger] cleaned@[k] == dashed(name@)[k],
        decreases v@.len() - i,
    {
        let c = v[i];
        if text::is_ascii_alnum(c) || c == '_' || c == '-' {
            cleaned.push(c);
        } else {
            cleaned.push('-');
        }
        i = i + 1;
    }
    assert(cleaned@ =~= dashed(name@));
    let whole = text::text(cleaned.as_slice());
    text::take(whole.as_str(), MAX_TOOL_NAME)
}

// ---------------------------------------------------------------------------
// Assembly
// ---------------------------------------------------------------------------

/// The one effect given.
pub open spec fn only(effect: ToolEffect) -> Set<ToolEffect> {
    Set::<ToolEffect>::empty().insert(effect)
}

/// What a server's tool can do.
pub open spec fn mcp_effects(read_only: bool, over_network: bool) -> Set<ToolEffect> {
    let base = if read_only {
        only(ToolEffect::ExternalRead)
    } else {
        only(ToolEffect::ExternalMutation)
    };
    if over_network {
        base.insert(ToolEffect::NetworkEgress)
    } else {
        base
    }
}

/// A server's tool as a context offers it, named after server and tool.
pub open spec fn mcp_tool(server: Seq<char>, over_network: bool, read_only: bool, t: McpTool) -> ToolView {
    ToolView {
        definition: model::DefinitionView {
            name: sanitized(server + "__"@ + t.name@),
            description: match t.description {
                Some(d) => d@,
                None => ""@,
            },
            parameters: t.input_schema@,
        },
        binding: BindingView::Mcp { server, tool: t.name@ },
        effects: mcp_effects(read_only, over_network),
    }
}

/// The tools of one server that a context offers: in read-only mode only
/// those that are read-only.
pub open spec fn server_part(
    mode: Mode,
    server: Seq<char>,
    over_network: bool,
    overrides: Seq<String>,
    list: Seq<McpTool>,
) -> Seq<ToolView>
    decreases list.len(),
{
    if list.len() == 0 {
        seq![]
    } else {
        let rest = server_part(mode, server, over_network, overrides, list.drop_last());
        let t = list.last();
        let read_only = mcp::read_only_spec(overrides, t);
        if mode == Mode::ReadOnly && !read_only {
            rest
        } else {
            rest.push(mcp_tool(server, over_network, read_only, t))
        }
    }
}

/// Whether a server is reached over the network.
pub open spec fn is_http(c: Config, server: Seq<char>) -> bool {
    c.mcp.has_name(server) && c.mcp.at(server) is Http
}

/// The tools of a context's servers, or the words for the first server that
/// is not connected.
pub open spec fn mcp_part(mode: Mode, servers: Seq<Seq<char>>, c: Config, m: McpManager) -> Result<
    Seq<ToolView>,
    Seq<char>,
>
    decreases servers.len(),
{
    if servers.len() == 0 {
        Ok(seq![])
    } else {
        let server = servers.last();
        match mcp_part(mode, servers.drop_last(), c, m) {
            Err(e) => Err(e),
            Ok(done) => if m.connections.has_name(server) {
                let connection = m.connections.at(server);
                Ok(
                    done + server_part(
                        mode,
                        server,
                        is_http(c, server),
                        connection.readonly_overrides@,
                        connection.tools@,
                    ),
                )
            } else {
                Err("mcp server `"@ + server + "` is not connected"@)
            },
        }
    }
}

/// The file tools of a context.
pub open spec fn file_part(mode: Mode) -> Seq<ToolView> {
    let ops = files::file_ops(mode == Mode::ReadWrite);
    Seq::new(
        ops.len(),
        |i: int|
            ToolView {
                definition: files::file_definition(ops[i]),
                binding: BindingView::File { op: ops[i] },
                effects: only(
                    if files::reads_only(ops[i]) {
                        ToolEffect::FilesystemRead
                    } else {
                        ToolEffect::FilesystemWrite
                    },
                ),
            },
    )
}

/// One tool, or none.
pub open spec fn granted(grant: bool, tool: ToolView) -> Seq<ToolView> {
    if grant {
        seq![tool]
    } else {
        seq![]
    }
}

/// The web search as a context offers it.
pub open spec fn search_tool() -> ToolView {
    ToolView {
        definition: tools::web_search_spec(),
        binding: BindingView::WebSearch,
        effects: only(ToolEffect::NetworkEgress),
    }
}

/// The page fetch as a context offers it.
pub open spec fn fetch_tool() -> ToolView {
    ToolView {
        definition: tools::web_fetch_spec(),
        binding: BindingView::WebFetch,
        effects: only(ToolEffect::NetworkEgress),
    }
}

/// The shell as a context offers it.
pub open spec fn shell_tool(timeout_secs: nat, allow: Seq<Seq<char>>) -> ToolView {
    ToolView {
        definition: tools::shell_spec(timeout_secs, allow),
        binding: BindingView::Shell { allow },
        effects: only(ToolEffect::ProcessExecute),
    }
}

/// The built-in tools of a context. The shell is an explicit grant, offered
/// in either mode; the mode decides on the file tools that write.
pub open spec fn builtin_part(p: ProfileView, c: Config) -> Seq<ToolView> {
    granted(p.web_search, search_tool()) + granted(p.web_fetch, fetch_tool()) + granted(
        p.shell,
        shell_tool(c.settings.shell_timeout_secs as nat, p.shell_allow),
    ) + if p.files {
        file_part(p.mode)
    } else {
        seq![]
    }
}

/// All that a list of tools can do.
pub open spec fn combined(list: Seq<ToolView>) -> Set<ToolEffect>
    decreases list.len(),
{
    if list.len() == 0 {
        Set::empty()
    } else {
        combined(list.drop_last()).union(list.last().effects)
    }
}

/// What an agent can do: all that its own tools can, an external mutation
/// where it may write at all, and network egress where a model of its chain
/// is external.
pub open spec fn agent_effects(a: Agent, nested: Seq<ToolView>, c: Config) -> Set<ToolEffect> {
    let reach = combined(nested);
    let written = if a.mode == Mode::ReadWrite {
        reach.insert(ToolEffect::ExternalMutation)
    } else {
        reach
    };
    if chain::reaches_external(c, a.model@) {
        written.insert(ToolEffect::NetworkEgress)
    } else {
        written
    }
}

/// What the model is told of every agent.
pub const AGENT_TEXT: &'static str = " Runs as a separate agent with its own tools and no memory of this conversation: give it one complete, self-contained task and it returns its final answer.";

/// What the model is told of the task.
pub const TASK_TEXT: &'static str = "The complete task, including all context the agent needs";

/// What the model is told of an agent.
pub open spec fn agent_about(a: Agent, name: Seq<char>) -> Seq<char> {
    (if a.description@.len() == 0 {
        "Delegate a task to the `"@ + name + "` agent."@
    } else {
        a.description@
    }) + AGENT_TEXT@
}

/// An agent as a context offers it.
pub open spec fn agent_tool(a: Agent, name: Seq<char>, reach: Set<ToolEffect>) -> ToolView {
    ToolView {
        definition: tools::one_text_tool(
            sanitized("agent__"@ + name),
            agent_about(a, name),
            "task"@,
            TASK_TEXT@,
        ),
        binding: BindingView::Agent { agent: name },
        effects: reach,
    }
}

/// Delegation levels that are left below a depth.
pub open spec fn levels(c: Config, depth: nat) -> nat {
    if depth < c.settings.max_agent_depth {
        (c.settings.max_agent_depth - depth) as nat
    } else {
        0
    }
}

/// The agents that a context offers, or the words for the first problem: in
/// read-only mode only those that can change nothing.
pub open spec fn agent_part(
    mode: Mode,
    names: Seq<Seq<char>>,
    c: Config,
    m: McpManager,
    depth: nat,
) -> Result<Seq<ToolView>, Seq<char>>
    decreases levels(c, depth), 0nat, names.len(),
{
    if names.len() == 0 || depth >= c.settings.max_agent_depth {
        Ok(seq![])
    } else {
        let name = names.last();
        match agent_part(mode, names.drop_last(), c, m, depth) {
            Err(e) => Err(e),
            Ok(done) => if !c.agents.has_name(name) {
                Err("unknown agent `"@ + name + "`"@)
            } else {
                let agent = c.agents.at(name);
                match assembled(agent_profile(agent, name), c, m, depth + 1) {
                    Err(e) => Err(e),
                    Ok(nested) => {
                        let reach = agent_effects(agent, nested, c);
                        if mode == Mode::ReadOnly && effects::mutating_spec(reach) {
                            Ok(done)
                        } else {
                            Ok(done.push(agent_tool(agent, name, reach)))
                        }
                    },
                }
            },
        }
    }
}

/// The tools that a context offers, or the words for the first problem.
pub open spec fn assembled(p: ProfileView, c: Config, m: McpManager, depth: nat) -> Result<
    Seq<ToolView>,
    Seq<char>,
>
    decreases levels(c, depth), 1nat, 0nat,
{
    match mcp_part(p.mode, p.mcp, c, m) {
        Err(e) => Err(e),
        Ok(served) => match agent_part(p.mode, p.subagents, c, m, depth) {
            Err(e) => Err(e),
            Ok(agents) => Ok(served + builtin_part(p, c) + agents),
        },
    }
}

fn add_tool(list: &mut Vec<StageTool>, tool: StageTool)
    ensures
        tools_view(final(list)@) == tools_view(old(list)@).push(tool@),
{
    let ghost before = list@;
    list.push(tool);
    assert(tools_view(list@) =~= tools_view(before).push(tool@));
}

fn add_server_tools(
    list: &mut Vec<StageTool>,
    mode: Mode,
    server: &str,
    over_network: bool,
    connection: &McpConnection,
)
    ensures
        tools_view(final(list)@) == tools_view(old(list)@) + server_part(
            mode,
            server@,
            over_network,
            connection.readonly_overrides@,
            connection.tools@,
        ),
{
    let ghost start = tools_view(list@);
    let ghost overrides = connection.readonly_overrides@;
    let offered = &connection.tools;
    let ghost all = offered@;
    let mut i: usize = 0;
    assert(start + server_part(mode, server@, over_network, overrides, all.take(0)) =~= start);
    while i < offered.len()
        invariant
            i <= offered@.len(),
            offered@ == all,
            overrides == connection.readonly_overrides@,
            tools_view(list@) == start + server_part(
                mode,
                server@,
                over_network,
                overrides,
                all.take(i as int),
            ),
        decreases offered@.len() - i,
    {
        assert(all.take(i + 1).drop_last() =~= all.take(i as int));
        assert(all.take(i + 1).last() == all[i as int]);
        let t = &offered[i];
        let ghost done = server_part(mode, server@, over_network, overrides, all.take(i as int));
        let read_only = connection.is_read_only(t);
        if !(mode == Mode::ReadOnly && !read_only) {
            let mut reach = if read_only {
                ToolEffects::one(ToolEffect::ExternalRead)
            } else {
                ToolEffects::one(ToolEffect::ExternalMutation)
            };
            if over_network {
                reach.insert(ToolEffect::NetworkEgress);
            }
            let full = text::cat3(server, "__", t.name.as_str());
            let tool = StageTool {
                definition: ToolDefinition {
                    name: sanitize_tool_name(full.as_str()),
                    description: match &t.description {
                        Some(d) => d.clone(),
                        None => "".to_owned(),
                    },
                    parameters: t.input_schema.clone(),
                },
                binding: ToolBinding::Mcp { server: server.to_owned(), tool: t.name.clone() },
                effects: reach,
            };
            let ghost expected = mcp_tool(server@, over_network, read_only, *t);
            assert(tool@ == expected);
            add_tool(list, tool);
            assert(start + done.push(expected) =~= (start + done).push(expected));
        }
        i = i + 1;
    }
    assert(all.take(all.len() as int) =~= all);
}

fn add_servers(
    list: &mut Vec<StageTool>,
    mode: Mode,
    servers: &Vec<String>,
    config: &Config,
    manager: &McpManager,
) -> (r: Result<(), String>)
    requires
        old(list)@.len() == 0,
    ensures
        match r {
            Ok(()) => mcp_part(mode, text::views(servers@), *config, *manager) == Ok::<
                Seq<ToolView>,
                Seq<char>,
            >(tools_view(final(list)@)),
            Err(e) => mcp_part(mode, text::views(servers@), *config, *manager) == Err::<
                Seq<ToolView>,
                Seq<char>,
            >(e@),
        },
{
    let ghost all = text::views(servers@);
    let mut i: usize = 0;
    assert(tools_view(list@) =~= seq![]);
    while i < servers.len()
        invariant
            i <= servers@.len(),
            all == text::views(servers@),
            mcp_part(mode, all.take(i as int), *config, *manager) == Ok::<
                Seq<ToolView>,
                Seq<char>,
            >(tools_view(list@)),
        decreases servers@.len() - i,
    {
        assert(all.take(i + 1).drop_last() =~= all.take(i as int));
        assert(all.take(i + 1).last() == servers@[i as int]@);
        let server = servers[i].as_str();
        match manager.get(server) {
            Some(connection) => {
                let over_network = match config.mcp.get(server) {
                    Some(McpServer::Http { .. }) => true,
                    _ => false,
                };
                assert(over_network == is_http(*config, server@));
                add_server_tools(list, mode, server, over_network, connection);
            },
            None => {
                proof {
                    lemma_mcp_error(mode, all, *config, *manager, i + 1);
                }
                return Err(text::cat3("mcp server `", server, "` is not connected"));
            },
        }
        i = i + 1;
    }
    assert(all.take(servers@.len() as int) =~= all);
    Ok(())
}

/// The first problem stays the problem, whatever servers follow.
proof fn lemma_mcp_error(mode: Mode, servers: Seq<Seq<char>>, c: Config, m: McpManager, n: int)
    requires
        0 <= n <= servers.len(),
        mcp_part(mode, servers.take(n), c, m) is Err,
    ensures
        mcp_part(mode, servers, c, m) == mcp_part(mode, servers.take(n), c, m),
    decreases servers.len() - n,
{
    if n == servers.len() {
        assert(servers.take(n) =~= servers);
    } else {
        assert(servers.take(n + 1).drop_last() =~= servers.take(n));
        lemma_mcp_error(mode, servers, c, m, n + 1);
    }
}

/// The first problem stays the problem, whatever agents follow.
proof fn lemma_agent_error(
    mode: Mode,
    names: Seq<Seq<char>>,
    c: Config,
    m: McpManager,
    depth: nat,
    n: int,
)
    requires
        0 <= n <= names.len(),
        depth < c.settings.max_agent_depth,
        agent_part(mode, names.take(n), c, m, depth) is Err,
    ensures
        agent_part(mode, names, c, m, depth) == agent_part(mode, names.take(n), c, m, depth),
    decreases names.len() - n,
{
    if n == names.len() {
        assert(names.take(n) =~= names);
    } else {
        assert(names.take(n + 1).drop_last() =~= names.take(n));
        lemma_agent_error(mode, names, c, m, depth, n + 1);
    }
}

fn add_builtins(list: &mut Vec<StageTool>, profile: &ToolProfile, config: &Config)
    ensures
        tools_view(final(list)@) == tools_view(old(list)@) + builtin_part(profile@, *config),
{
    let ghost start = tools_view(list@);
    let ghost p = profile@;
    let ghost a = granted(p.web_search, search_tool());
    let ghost b = granted(p.web_fetch, fetch_tool());
    let ghost shell = shell_tool(config.settings.shell_timeout_secs as nat, p.shell_allow);
    let ghost s = granted(p.shell, shell);
    if profile.web_search {
        add_tool(
            list,
            StageTool {
                definition: tools::web_search_definition(),
                binding: ToolBinding::WebSearch,
                effects: ToolEffects::one(ToolEffect::NetworkEgress),
            },
        );
    }
    assert(tools_view(list@) =~= start + a);
    if profile.web_fetch {
        add_tool(
            list,
            StageTool {
                definition: tools::web_fetch_definition(),
                binding: ToolBinding::WebFetch,
                effects: ToolEffects::one(ToolEffect::NetworkEgress),
            },
        );
    }
    assert(tools_view(list@) =~= start + (a + b));
    if profile.shell {
        let tool = StageTool {
            definition: tools::shell_definition(
                config.settings.shell_timeout_secs,
                profile.shell_allow,
            ),
            binding: ToolBinding::Shell { allow: text::copy_list(profile.shell_allow) },
            effects: ToolEffects::one(ToolEffect::ProcessExecute),
        };
        assert(tool@ == shell);
        add_tool(list, tool);
    }
    assert(tools_view(list@) =~= start + (a + b + s));
    if profile.files {
        add_files(list, profile.mode);
    }
    assert(tools_view(list@) =~= start + builtin_part(p, *config));
}

fn add_files(list: &mut Vec<StageTool>, mode: Mode)
    ensures
        tools_view(final(list)@) == tools_view(old(list)@) + file_part(mode),
{
    let ghost start = tools_view(list@);
    let ghost part = file_part(mode);
    let ghost ops = files::file_ops(mode == Mode::ReadWrite);
    let definitions = files::definitions(mode == Mode::ReadWrite);
    let mut i: usize = 0;
    assert(start + part.take(0) =~= start);
    while i < definitions.len()
        invariant
            i <= definitions@.len(),
            definitions@.len() == ops.len(),
            part.len() == ops.len(),
            part == file_part(mode),
            ops == files::file_ops(mode == Mode::ReadWrite),
            forall|k: int|
                0 <= k < ops.len() ==> (#[trigger] definitions@[k]).1 == ops[k]
                    && definitions@[k].0@ == files::file_definition(ops[k]) && definitions@[k].2
                    == files::reads_only(ops[k]),
            tools_view(list@) == start + part.take(i as int),
        decreases definitions@.len() - i,
    {
        let entry = &definitions[i];
        let tool = StageTool {
            definition: entry.0.clone(),
            binding: ToolBinding::File { op: entry.1 },
            effects: ToolEffects::one(
                if entry.2 {
                    ToolEffect::FilesystemRead
                } else {
                    ToolEffect::FilesystemWrite
                },
            ),
        };
        assert(tool@ == part[i as int]);
        add_tool(list, tool);
        assert(start + part.take(i + 1) =~= (start + part.take(i as int)).push(part[i as int]));
        i = i + 1;
    }
    assert(part.take(part.len() as int) =~= part);
}

fn all_effects(list: &Vec<StageTool>) -> (r: ToolEffects)
    ensures
        r@ == combined(tools_view(list@)),
{
    let ghost all = tools_view(list@);
    let mut r = ToolEffects::none();
    let mut i: usize = 0;
    while i < list.len()
        invariant
            i <= list@.len(),
            all == tools_view(list@),
            r@ == combined(all.take(i as int)),
        decreases list@.len() - i,
    {
        assert(all.take(i + 1).drop_last() =~= all.take(i as int));
        assert(all.take(i + 1).last() == list@[i as int]@);
        r = r.union(list[i].effects);
        i = i + 1;
    }
    assert(all.take(list@.len() as int) =~= all);
    r
}

fn agent_entry(agent: &Agent, name: &str, reach: ToolEffects) -> (r: StageTool)
    ensures
        r@ == agent_tool(*agent, name@, reach@),
{
    let mut about = if agent.description.as_str().is_empty() {
        text::cat3("Delegate a task to the `", name, "` agent.")
    } else {
        agent.description.clone()
    };
    about.append(AGENT_TEXT);
    let full = text::cat2("agent__", name);
    let advertised = sanitize_tool_name(full.as_str());
    StageTool {
        definition: tools::text_tool(advertised.as_str(), about.as_str(), "task", TASK_TEXT),
        binding: ToolBinding::Agent { agent: name.to_owned() },
        effects: reach,
    }
}

/// Assemble the tools visible to a context, applying mode and effect
/// filters. A server's tools are named `<server>__<tool>`, agents
/// `agent__<name>`. `depth` is how many delegation levels deep the context
/// is already: agents stop being offered at `settings.max_agent_depth`.
pub fn assemble_tools(
    profile: &ToolProfile,
    config: &Config,
    manager: &McpManager,
    depth: u32,
) -> (r: Result<Vec<StageTool>, String>)
    ensures
        match r {
            Ok(list) => assembled(profile@, *config, *manager, depth as nat) == Ok::<
                Seq<ToolView>,
                Seq<char>,
            >(tools_view(list@)),
            Err(e) => assembled(profile@, *config, *manager, depth as nat) == Err::<
                Seq<ToolView>,
                Seq<char>,
            >(e@),
        },
    decreases levels(*config, depth as nat),
{
    let ghost p = profile@;
    let mut list: Vec<StageTool> = Vec::new();
    match add_servers(&mut list, profile.mode, profile.mcp, config, manager) {
        Ok(()) => {},
        Err(e) => {
            return Err(e);
        },
    }
    let ghost served = tools_view(list@);
    add_builtins(&mut list, profile, config);
    let ghost start = tools_view(list@);
    assert(start == served + builtin_part(p, *config));
    let ghost all = p.subagents;
    if depth < config.settings.max_agent_depth {
        let mut i: usize = 0;
        let ghost mut done: Seq<ToolView> = seq![];
        assert(start + done =~= start);
        while i < profile.subagents.len()
            invariant
                i <= profile.subagents@.len(),
                depth < config.settings.max_agent_depth,
                all == text::views(profile.subagents@),
                p == profile@,
                p.subagents == all,
                mcp_part(p.mode, p.mcp, *config, *manager) == Ok::<Seq<ToolView>, Seq<char>>(
                    served,
                ),
                agent_part(p.mode, all.take(i as int), *config, *manager, depth as nat) == Ok::<
                    Seq<ToolView>,
                    Seq<char>,
                >(done),
                tools_view(list@) == start + done,
            decreases profile.subagents@.len() - i,
        {
            assert(all.take(i + 1).drop_last() =~= all.take(i as int));
            assert(all.take(i + 1).last() == profile.subagents@[i as int]@);
            let name = profile.subagents[i].as_str();
            match config.agents.get(name) {
                None => {
                    proof {
                        lemma_agent_error(p.mode, all, *config, *manager, depth as nat, i + 1);
                    }
                    return Err(text::cat3("unknown agent `", name, "`"));
                },
                Some(agent) => {
                    let nested_profile = agent.tool_profile(name);
                    match assemble_tools(&nested_profile, config, manager, depth + 1) {
                        Err(e) => {
                            proof {
                                lemma_agent_error(
                                    p.mode,
                                    all,
                                    *config,
                                    *manager,
                                    depth as nat,
                                    i + 1,
                                );
                            }
                            return Err(e);
                        },
                        Ok(nested) => {
                            let mut reach = all_effects(&nested);
                            if agent.mode == Mode::ReadWrite {
                                reach.insert(ToolEffect::ExternalMutation);
                            }
                            if chain::model_chain_reaches_external(config, agent.model.as_str()) {
                                reach.insert(ToolEffect::NetworkEgress);
                            }
                            assert(reach@ == agent_effects(*agent, tools_view(nested@), *config));
                            if profile.mode != Mode::ReadOnly || reach.read_only_safe() {
                                let tool = agent_entry(agent, name, reach);
                                let ghost entry = tool@;
                                add_tool(&mut list, tool);
                                assert(start + done.push(entry) =~= (start + done).push(entry));
                                proof {
                                    done = done.push(entry);
                                }
                            }
                        },
                    }
                },
            }
            i = i + 1;
        }
        assert(all.take(profile.subagents@.len() as int) =~= all);
    } else {
        assert(start + seq![] =~= start);
    }
    Ok(list)
}

// ---------------------------------------------------------------------------
// Laws
// ---------------------------------------------------------------------------

proof fn lemma_server_part_safe(
    server: Seq<char>,
    over_network: bool,
    overrides: Seq<String>,
    list: Seq<McpTool>,
    i: int,
)
    requires
        0 <= i < server_part(Mode::ReadOnly, server, over_network, overrides, list).len(),
    ensures
        !effects::mutating_spec(
            server_part(Mode::ReadOnly, server, over_network, overrides, list)[i].effects,
        ),
    decreases list.len(),
{
    let rest = server_part(Mode::ReadOnly, server, over_network, overrides, list.drop_last());
    if i < rest.len() {
        lemma_server_part_safe(server, over_network, overrides, list.drop_last(), i);
    }
}

proof fn lemma_mcp_part_safe(servers: Seq<Seq<char>>, c: Config, m: McpManager, i: int)
    requires
        mcp_part(Mode::ReadOnly, servers, c, m) is Ok,
        0 <= i < mcp_part(Mode::ReadOnly, servers, c, m)->Ok_0.len(),
    ensures
        !effects::mutating_spec(mcp_part(Mode::ReadOnly, servers, c, m)->Ok_0[i].effects),
    decreases servers.len(),
{
    let done = mcp_part(Mode::ReadOnly, servers.drop_last(), c, m)->Ok_0;
    if i < done.len() {
        lemma_mcp_part_safe(servers.drop_last(), c, m, i);
    } else {
        let server = servers.last();
        let connection = m.connections.at(server);
        lemma_server_part_safe(
            server,
            is_http(c, server),
            connection.readonly_overrides@,
            connection.tools@,
            i - done.len(),
        );
    }
}

proof fn lemma_agent_part_safe(
    names: Seq<Seq<char>>,
    c: Config,
    m: McpManager,
    depth: nat,
    i: int,
)
    requires
        agent_part(Mode::ReadOnly, names, c, m, depth) is Ok,
        0 <= i < agent_part(Mode::ReadOnly, names, c, m, depth)->Ok_0.len(),
    ensures
        !effects::mutating_spec(agent_part(Mode::ReadOnly, names, c, m, depth)->Ok_0[i].effects),
    decreases names.len(),
{
    let done = agent_part(Mode::ReadOnly, names.drop_last(), c, m, depth)->Ok_0;
    if i < done.len() {
        lemma_agent_part_safe(names.drop_last(), c, m, depth, i);
    }
}

/// A read-only context is offered nothing that can change state or run
/// processes, but for the shell where it was granted outright: what a
/// delegated agent can reach counts as well.
pub proof fn law_read_only_contexts_change_nothing(
    p: ProfileView,
    c: Config,
    m: McpManager,
    depth: nat,
    i: int,
)
    requires
        p.mode == Mode::ReadOnly,
        assembled(p, c, m, depth) is Ok,
        0 <= i < assembled(p, c, m, depth)->Ok_0.len(),
    ensures
        ({
            let tool = assembled(p, c, m, depth)->Ok_0[i];
            effects::mutating_spec(tool.effects) ==> p.shell && tool.binding is Shell
        }),
{
    let served = mcp_part(p.mode, p.mcp, c, m)->Ok_0;
    let built = builtin_part(p, c);
    if i < served.len() {
        lemma_mcp_part_safe(p.mcp, c, m, i);
    } else if i < served.len() + built.len() {
        let a = granted(p.web_search, search_tool());
        let b = granted(p.web_fetch, fetch_tool());
        let s = granted(
            p.shell,
            shell_tool(c.settings.shell_timeout_secs as nat, p.shell_allow),
        );
        let k = i - served.len();
        assert(built[k] == assembled(p, c, m, depth)->Ok_0[i]);
        if k >= a.len() + b.len() + s.len() {
            let j = k - a.len() - b.len() - s.len();
            assert(built[k] == file_part(p.mode)[j]);
            files::law_read_only_contexts_get_no_write_tools(j);
        }
    } else {
        lemma_agent_part_safe(p.subagents, c, m, depth, i - served.len() - built.len());
    }
}

/// Delegation is bounded: at the greatest depth no agent is offered.
pub proof fn law_delegation_is_bounded(
    p: ProfileView,
    c: Config,
    m: McpManager,
    depth: nat,
    i: int,
)
    requires
        depth >= c.settings.max_agent_depth,
        assembled(p, c, m, depth) is Ok,
        0 <= i < assembled(p, c, m, depth)->Ok_0.len(),
    ensures
        !(assembled(p, c, m, depth)->Ok_0[i].binding is Agent),
{
    let served = mcp_part(p.mode, p.mcp, c, m)->Ok_0;
    if i < served.len() {
        lemma_mcp_part_bindings(p.mode, p.mcp, c, m, i);
    } else {
        assert(assembled(p, c, m, depth)->Ok_0[i] == builtin_part(p, c)[i - served.len()]);
    }
}

proof fn lemma_server_part_bindings(
    mode: Mode,
    server: Seq<char>,
    over_network: bool,
    overrides: Seq<String>,
    list: Seq<McpTool>,
    i: int,
)
    requires
        0 <= i < server_part(mode, server, over_network, overrides, list).len(),
    ensures
        server_part(mode, server, over_network, overrides, list)[i].binding is Mcp,
        may_be_advertised(
            server_part(mode, server, over_network, overrides, list)[i].definition.name,
        ),
    decreases list.len(),
{
    let rest = server_part(mode, server, over_network, overrides, list.drop_last());
    if i < rest.len() {
        lemma_server_part_bindings(mode, server, over_network, overrides, list.drop_last(), i);
    } else {
        reveal_strlit("__");
        lemma_sanitized(server + "__"@ + list.last().name@);
    }
}

proof fn lemma_mcp_part_bindings(
    mode: Mode,
    servers: Seq<Seq<char>>,
    c: Config,
    m: McpManager,
    i: int,
)
    requires
        mcp_part(mode, servers, c, m) is Ok,
        0 <= i < mcp_part(mode, servers, c, m)->Ok_0.len(),
    ensures
        mcp_part(mode, servers, c, m)->Ok_0[i].binding is Mcp,
        may_be_advertised(mcp_part(mode, servers, c, m)->Ok_0[i].definition.name),
    decreases servers.len(),
{
    let done = mcp_part(mode, servers.drop_last(), c, m)->Ok_0;
    if i < done.len() {
        lemma_mcp_part_bindings(mode, servers.drop_last(), c, m, i);
    } else {
        let server = servers.last();
        let connection = m.connections.at(server);
        lemma_server_part_bindings(
            mode,
            server,
            is_http(c, server),
            connection.readonly_overrides@,
            connection.tools@,
            i - done.len(),
        );
    }
}

proof fn lemma_sanitized(name: Seq<char>)
    requires
        name.len() > 0,
    ensures
        may_be_advertised(sanitized(name)),
{
    let whole = dashed(name);
    assert forall|i: int| 0 <= i < whole.len() implies name_char(#[trigger] whole[i]) by {}
}

proof fn lemma_agent_part_names(
    mode: Mode,
    names: Seq<Seq<char>>,
    c: Config,
    m: McpManager,
    depth: nat,
    i: int,
)
    requires
        agent_part(mode, names, c, m, depth) is Ok,
        0 <= i < agent_part(mode, names, c, m, depth)->Ok_0.len(),
    ensures
        may_be_advertised(agent_part(mode, names, c, m, depth)->Ok_0[i].definition.name),
    decreases names.len(),
{
    let done = agent_part(mode, names.drop_last(), c, m, depth)->Ok_0;
    if i < done.len() {
        lemma_agent_part_names(mode, names.drop_last(), c, m, depth, i);
    } else {
        reveal_strlit("agent__");
        lemma_sanitized("agent__"@ + names.last());
    }
}

proof fn lemma_own_names(op: FileOp)
    ensures
        may_be_advertised(files::file_tool_name(op)),
        may_be_advertised(search_tool().definition.name),
        may_be_advertised(fetch_tool().definition.name),
        may_be_advertised(tools::SHELL_TOOL@),
{
    reveal_strlit("read_file");
    reveal_strlit("write_file");
    reveal_strlit("edit_file");
    reveal_strlit("edit_lines");
    reveal_strlit("list_dir");
    reveal_strlit("glob");
    reveal_strlit("grep");
    reveal_strlit("web_search");
    reveal_strlit("web_fetch");
    reveal_strlit("shell");
}

/// Every tool that a context offers has a name that a model may be told: one
/// to 64 letters, digits, `_` and `-`, whatever servers and agents are
/// called.
pub proof fn law_offered_names_may_be_advertised(
    p: ProfileView,
    c: Config,
    m: McpManager,
    depth: nat,
    i: int,
)
    requires
        assembled(p, c, m, depth) is Ok,
        0 <= i < assembled(p, c, m, depth)->Ok_0.len(),
    ensures
        may_be_advertised(assembled(p, c, m, depth)->Ok_0[i].definition.name),
{
    let served = mcp_part(p.mode, p.mcp, c, m)->Ok_0;
    let built = builtin_part(p, c);
    if i < served.len() {
        lemma_mcp_part_bindings(p.mode, p.mcp, c, m, i);
    } else if i < served.len() + built.len() {
        let k = i - served.len();
        assert(built[k] == assembled(p, c, m, depth)->Ok_0[i]);
        match built[k].binding {
            BindingView::File { op } => {
                lemma_own_names(op);
            },
            _ => {
                lemma_own_names(FileOp::Read);
            },
        }
    } else {
        lemma_agent_part_names(p.mode, p.subagents, c, m, depth, i - served.len() - built.len());
    }
}

} // verus!

//! Tool servers: the tools they offer and the text of their results.

use vstd::prelude::*;
use vstd::string::*;

use crate::config::{Config, McpServer};
use crate::json;
use crate::json::Json;
use crate::table::Table;
use crate::text;

verus! {

/// A tool that a server offers.
pub struct McpTool {
    pub name: String,
    pub description: Option<String>,
    /// JSON Schema of the arguments.
    pub input_schema: Json,
    /// The server's own annotation that the tool changes nothing.
    pub read_only_hint: Option<bool>,
}

/// A connected server, as far as decisions depend on it.
pub struct McpConnection {
    pub name: String,
    pub tools: Vec<McpTool>,
    /// Tools that the configuration declares read-only.
    pub readonly_overrides: Vec<String>,
}

/// Whether a server's tool is read-only: by the server's annotation, or by
/// the configuration.
pub open spec fn read_only_spec(overrides: Seq<String>, tool: McpTool) -> bool {
    tool.read_only_hint == Some(true) || text::views(overrides).contains(tool.name@)
}

impl McpConnection {
    /// Whether a tool is read-only: the server annotates it so, or the
    /// configuration lists it.
    pub fn is_read_only(&self, tool: &McpTool) -> (r: bool)
        ensures
            r == read_only_spec(self.readonly_overrides@, *tool),
    {
        let hinted = match tool.read_only_hint {
            Some(hint) => hint,
            None => false,
        };
        hinted || text::listed(&self.readonly_overrides, tool.name.as_str())
    }
}

/// The connections of a run, by the server's configured name.
pub struct McpManager {
    pub connections: Table<McpConnection>,
}

impl McpManager {
    /// The connection of a server.
    pub fn get(&self, name: &str) -> (r: Option<&McpConnection>)
        ensures
            match r {
                Some(c) => self.connections.has_name(name@) && *c == self.connections.at(name@),
                None => !self.connections.has_name(name@),
            },
    {
        self.connections.get(name)
    }
}

/// The names that are still to be connected: each once, in order of their
/// first mention.
pub open spec fn to_connect(servers: Seq<Seq<char>>) -> Seq<Seq<char>>
    decreases servers.len(),
{
    if servers.len() == 0 {
        seq![]
    } else {
        let before = to_connect(servers.drop_last());
        if before.contains(servers.last()) {
            before
        } else {
            before.push(servers.last())
        }
    }
}

/// The servers to connect, each once, in order of their first mention.
pub fn connect_order(servers: &Vec<String>) -> (out: Vec<String>)
    ensures
        text::views(out@) == to_connect(text::views(servers@)),
{
    let ghost all = text::views(servers@);
    let mut out: Vec<String> = Vec::new();
    let mut i: usize = 0;
    assert(text::views(out@) =~= seq![]);
    while i < servers.len()
        invariant
            i <= servers@.len(),
            all == text::views(servers@),
            text::views(out@) == to_connect(all.take(i as int)),
        decreases servers@.len() - i,
    {
        assert(all.take(i + 1).drop_last() =~= all.take(i as int));
        assert(all.take(i + 1).last() == servers@[i as int]@);
        if !text::listed(&out, servers[i].as_str()) {
            text::add_text(&mut out, servers[i].clone());
        }
        i = i + 1;
    }
    assert(all.take(servers@.len() as int) =~= all);
    out
}

/// What a tool call returned: its text blocks, its structured content, and
/// whether the tool reports an error.
pub struct CallResult {
    pub texts: Vec<String>,
    pub structured: Option<Json>,
    pub is_error: Option<bool>,
}

/// The text that the model is shown of a result.
pub open spec fn call_text_spec(tool: Seq<char>, result: CallResult) -> Seq<char> {
    let joined = text::join_spec(text::views(result.texts@), "\n"@);
    let content = match result.structured {
        Some(value) => if joined.len() == 0 {
            json::printed(value@)
        } else {
            joined
        },
        None => joined,
    };
    if result.is_error == Some(true) {
        "ERROR from tool `"@ + tool + "`: "@ + content
    } else if content.len() == 0 {
        "(tool returned no output)"@
    } else {
        content
    }
}

/// Flatten a tool's result to text for the model: the text blocks, or the
/// structured content where there are none. A tool's failure is told in the
/// text.
pub fn call_text(tool: &str, result: &CallResult) -> (r: String)
    ensures
        r@ == call_text_spec(tool@, *result),
{
    let joined = text::join(&result.texts, "\n");
    let content = match &result.structured {
        Some(value) => if joined.as_str().is_empty() {
            json::print(value)
        } else {
            joined
        },
        None => joined,
    };
    let failed = match result.is_error {
        Some(flag) => flag,
        None => false,
    };
    if failed {
        text::cat4("ERROR from tool `", tool, "`: ", content.as_str())
    } else if content.as_str().is_empty() {
        "(tool returned no output)".to_owned()
    } else {
        content
    }
}

// ---------------------------------------------------------------------------
// Reconnecting
// ---------------------------------------------------------------------------

/// What follows a call that failed before the tool could answer.
pub enum McpStep {
    /// Connect anew and call once more.
    Reconnect,
    /// Fail, with these words for what was tried.
    Fail(String),
}

/// What follows a failed call: one new connection is tried, after which a
/// second failure counts.
pub fn after_failed_call(server: &str, tool: &str, reconnected: bool) -> (r: McpStep)
    ensures
        match r {
            McpStep::Reconnect => !reconnected,
            McpStep::Fail(words) => reconnected && words@ == "mcp `"@ + server@ + "`: `"@ + tool@
                + "` failed again after reconnect"@,
        },
{
    if !reconnected {
        return McpStep::Reconnect;
    }
    McpStep::Fail(text::cat5("mcp `", server, "`: `", tool, "` failed again after reconnect"))
}

/// The words for a connection that could not be made anew.
pub fn reconnect_failed(server: &str) -> (r: String)
    ensures
        r@ == "mcp `"@ + server@ + "`: reconnect after failed call also failed"@,
{
    text::cat3("mcp `", server, "`: reconnect after failed call also failed")
}

/// Whether a caller has to connect anew: another may have done so since the
/// caller's own call began, as the count of connections tells.
pub fn must_reconnect(observed: u64, current: u64) -> (r: bool)
    ensures
        r == (observed == current),
{
    observed == current
}

/// The words for a server that is not configured.
pub open spec fn unknown_server_text(name: Seq<char>) -> Seq<char> {
    "unknown mcp server `"@ + name + "`"@
}

/// The configuration of a server.
pub fn server_config<'a>(config: &'a Config, name: &str) -> (r: Result<&'a McpServer, String>)
    ensures
        match r {
            Ok(server) => config.mcp.has_name(name@) && *server == config.mcp.at(name@),
            Err(words) => !config.mcp.has_name(name@) && words@ == unknown_server_text(name@),
        },
{
    match config.mcp.get(name) {
        Some(server) => Ok(server),
        None => Err(text::cat3("unknown mcp server `", name, "`")),
    }
}

} // verus!

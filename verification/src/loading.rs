//! Making a configuration ready for use: environment references are replaced,
//! prompts and project instructions are found.

use vstd::prelude::*;
use vstd::string::*;

use crate::config;
use crate::config::{
    Agent, Config, EnvError, McpServer, ProjectContext, Provider, Settings, Stage,
};
use crate::model;
use crate::paths;
use crate::table::Table;
use crate::text;

verus! {

// ---------------------------------------------------------------------------
// Environment references
// ---------------------------------------------------------------------------

/// What a text is once its references are replaced.
pub open spec fn filled(input: Seq<char>, env: Table<String>) -> Result<
    Seq<char>,
    config::EnvFault,
> {
    config::expand_env_spec(input, env, 0)
}

/// The first text from one on whose references cannot be replaced, and why.
pub open spec fn fault_from(
    fields: Seq<Seq<char>>,
    env: Table<String>,
    from: int,
) -> Option<config::EnvFault>
    decreases fields.len() - from,
{
    if from < 0 || from >= fields.len() {
        None
    } else {
        match filled(fields[from], env) {
            Ok(_) => fault_from(fields, env, from + 1),
            Err(e) => Some(e),
        }
    }
}

/// The first fault in texts.
pub open spec fn fault_in(fields: Seq<Seq<char>>, env: Table<String>) -> Option<config::EnvFault> {
    fault_from(fields, env, 0)
}

proof fn lemma_fault_joined(a: Seq<Seq<char>>, b: Seq<Seq<char>>, env: Table<String>, from: int)
    requires
        0 <= from <= a.len(),
    ensures
        fault_from(a + b, env, from) == (match fault_from(a, env, from) {
            Some(e) => Some(e),
            None => fault_from(b, env, 0),
        }),
    decreases a.len() - from,
{
    if from < a.len() {
        assert((a + b)[from] == a[from]);
        lemma_fault_joined(a, b, env, from + 1);
    } else {
        lemma_fault_shifted(a, b, env, 0);
    }
}

proof fn lemma_fault_shifted(a: Seq<Seq<char>>, b: Seq<Seq<char>>, env: Table<String>, from: int)
    requires
        0 <= from <= b.len(),
    ensures
        fault_from(a + b, env, a.len() + from) == fault_from(b, env, from),
    decreases b.len() - from,
{
    if from < b.len() {
        assert((a + b)[a.len() + from] == b[from]);
        lemma_fault_shifted(a, b, env, from + 1);
    }
}

/// A text that may be missing, as a list.
pub open spec fn if_any(value: Option<String>) -> Seq<Seq<char>> {
    match value {
        Some(s) => seq![s@],
        None => seq![],
    }
}

/// The values of a table, row by row.
pub open spec fn values_of(t: Table<String>) -> Seq<Seq<char>> {
    Seq::new(t.entries@.len(), |i: int| t.entries@[i].1@)
}

/// The texts of a provider that may hold references.
pub open spec fn provider_fields(p: Provider) -> Seq<Seq<char>> {
    seq![p.base_url@] + if_any(p.api_key)
}

/// The texts of a tool server that may hold references.
pub open spec fn server_fields(s: McpServer) -> Seq<Seq<char>> {
    match s {
        McpServer::Stdio { env, .. } => values_of(env),
        McpServer::Http { url, auth_token, headers, .. } => seq![url@] + if_any(auth_token)
            + values_of(headers),
    }
}

/// The texts of providers, from one on.
pub open spec fn providers_fields(rows: Seq<(String, Provider)>) -> Seq<Seq<char>>
    decreases rows.len(),
{
    if rows.len() == 0 {
        seq![]
    } else {
        providers_fields(rows.drop_last()) + provider_fields(rows.last().1)
    }
}

/// The texts of tool servers, from one on.
pub open spec fn servers_fields(rows: Seq<(String, McpServer)>) -> Seq<Seq<char>>
    decreases rows.len(),
{
    if rows.len() == 0 {
        seq![]
    } else {
        servers_fields(rows.drop_last()) + server_fields(rows.last().1)
    }
}

/// The texts of a configuration that may hold references, in the order in
/// which they are looked at. Prompts are not among them.
pub open spec fn fields_of(c: Config) -> Seq<Seq<char>> {
    if_any(c.settings.searxng_url) + providers_fields(c.providers.entries@) + servers_fields(
        c.mcp.entries@,
    )
}

/// Whether a text is another one with its references replaced.
pub open spec fn fills(after: Seq<char>, before: Seq<char>, env: Table<String>) -> bool {
    filled(before, env) == Ok::<Seq<char>, config::EnvFault>(after)
}

/// The same of a text that may be missing.
pub open spec fn fills_any(after: Option<String>, before: Option<String>, env: Table<String>) -> bool {
    match (after, before) {
        (Some(a), Some(b)) => fills(a@, b@, env),
        (None, None) => true,
        _ => false,
    }
}

/// The same of the values of a table; its names stay.
pub open spec fn fills_table(after: Table<String>, before: Table<String>, env: Table<String>) -> bool {
    &&& after.names() == before.names()
    &&& forall|i: int|
        0 <= i < before.entries@.len() ==> fills(
            (#[trigger] after.entries@[i]).1@,
            before.entries@[i].1@,
            env,
        )
}

/// Whether a provider is another one with its references replaced.
pub open spec fn fills_provider(after: Provider, before: Provider, env: Table<String>) -> bool {
    &&& fills(after.base_url@, before.base_url@, env)
    &&& fills_any(after.api_key, before.api_key, env)
    &&& after.stream == before.stream
    &&& after.data_boundary == before.data_boundary
    &&& after.adapter == before.adapter
    &&& after.headers == before.headers
}

/// Whether a tool server is another one with its references replaced.
pub open spec fn fills_server(after: McpServer, before: McpServer, env: Table<String>) -> bool {
    match (after, before) {
        (
            McpServer::Stdio { command: c, args: a, env: e, readonly_tools: r },
            McpServer::Stdio { command, args, env: vars, readonly_tools },
        ) => c == command && a == args && r == readonly_tools && fills_table(e, vars, env),
        (
            McpServer::Http { url: u, auth_token: t, headers: h, readonly_tools: r },
            McpServer::Http { url, auth_token, headers, readonly_tools },
        ) => r == readonly_tools && fills(u@, url@, env) && fills_any(t, auth_token, env)
            && fills_table(h, headers, env),
        _ => false,
    }
}

/// Whether settings are others with their references replaced.
pub open spec fn fills_settings(after: Settings, before: Settings, env: Table<String>) -> bool {
    &&& fills_any(after.searxng_url, before.searxng_url, env)
    &&& after == (Settings { searxng_url: after.searxng_url, ..before })
}

/// Whether a configuration is another one with its references replaced:
/// nothing else differs.
pub open spec fn fills_config(after: Config, before: Config, env: Table<String>) -> bool {
    &&& fills_settings(after.settings, before.settings, env)
    &&& after.providers.names() == before.providers.names()
    &&& forall|i: int|
        0 <= i < before.providers.entries@.len() ==> fills_provider(
            (#[trigger] after.providers.entries@[i]).1,
            before.providers.entries@[i].1,
            env,
        )
    &&& after.mcp.names() == before.mcp.names()
    &&& forall|i: int|
        0 <= i < before.mcp.entries@.len() ==> fills_server(
            (#[trigger] after.mcp.entries@[i]).1,
            before.mcp.entries@[i].1,
            env,
        )
    &&& after == (Config {
        settings: after.settings,
        providers: after.providers,
        mcp: after.mcp,
        ..before
    })
}

fn fill_any(value: Option<String>, env: &Table<String>) -> (r: Result<Option<String>, EnvError>)
    ensures
        match r {
            Ok(after) => fault_in(if_any(value), *env) is None && fills_any(after, value, *env),
            Err(e) => fault_in(if_any(value), *env) == Some(e@),
        },
{
    reveal_with_fuel(fault_from, 2);
    match value {
        Some(s) => match config::expand_env(s.as_str(), env) {
            Ok(after) => Ok(Some(after)),
            Err(e) => Err(e),
        },
        None => Ok(None),
    }
}

fn fill_table(t: Table<String>, env: &Table<String>) -> (r: Result<Table<String>, EnvError>)
    ensures
        match r {
            Ok(after) => fault_in(values_of(t), *env) is None && fills_table(after, t, *env),
            Err(e) => fault_in(values_of(t), *env) == Some(e@),
        },
{
    let ghost all = values_of(t);
    let mut entries: Vec<(String, String)> = Vec::new();
    let mut i: usize = 0;
    while i < t.entries.len()
        invariant
            i <= t.entries@.len(),
            all == values_of(t),
            entries@.len() == i,
            fault_in(all, *env) == fault_from(all, *env, i as int),
            forall|k: int|
                0 <= k < i ==> (#[trigger] entries@[k]).0@ == t.entries@[k].0@ && fills(
                    entries@[k].1@,
                    t.entries@[k].1@,
                    *env,
                ),
        decreases t.entries@.len() - i,
    {
        assert(all[i as int] == t.entries@[i as int].1@);
        match config::expand_env(t.entries[i].1.as_str(), env) {
            Ok(after) => {
                entries.push((t.entries[i].0.clone(), after));
            },
            Err(e) => {
                return Err(e);
            },
        }
        i = i + 1;
    }
    let out = Table { entries };
    assert(out.names() =~= t.names());
    Ok(out)
}

fn fill_provider(p: Provider, env: &Table<String>) -> (r: Result<Provider, EnvError>)
    ensures
        match r {
            Ok(after) => fault_in(provider_fields(p), *env) is None && fills_provider(
                after,
                p,
                *env,
            ),
            Err(e) => fault_in(provider_fields(p), *env) == Some(e@),
        },
{
    reveal_with_fuel(fault_from, 2);
    proof {
        lemma_fault_joined(seq![p.base_url@], if_any(p.api_key), *env, 0);
        assert(seq![p.base_url@][0] == p.base_url@);
    }
    let base_url = match config::expand_env(p.base_url.as_str(), env) {
        Ok(s) => s,
        Err(e) => {
            return Err(e);
        },
    };
    let api_key = match fill_any(p.api_key, env) {
        Ok(s) => s,
        Err(e) => {
            return Err(e);
        },
    };
    Ok(
        Provider {
            base_url,
            api_key,
            stream: p.stream,
            data_boundary: p.data_boundary,
            adapter: p.adapter,
            headers: p.headers,
        },
    )
}

fn fill_server(s: McpServer, env: &Table<String>) -> (r: Result<McpServer, EnvError>)
    ensures
        match r {
            Ok(after) => fault_in(server_fields(s), *env) is None && fills_server(after, s, *env),
            Err(e) => fault_in(server_fields(s), *env) == Some(e@),
        },
{
    reveal_with_fuel(fault_from, 2);
    match s {
        McpServer::Stdio { command, args, env: vars, readonly_tools } => {
            match fill_table(vars, env) {
                Ok(vars) => Ok(McpServer::Stdio { command, args, env: vars, readonly_tools }),
                Err(e) => Err(e),
            }
        },
        McpServer::Http { url, auth_token, headers, readonly_tools } => {
            proof {
                let first = seq![url@];
                assert(first[0] == url@);
                lemma_fault_joined(first, if_any(auth_token), *env, 0);
                lemma_fault_joined(first + if_any(auth_token), values_of(headers), *env, 0);
            }
            let url = match config::expand_env(url.as_str(), env) {
                Ok(u) => u,
                Err(e) => {
                    return Err(e);
                },
            };
            let auth_token = match fill_any(auth_token, env) {
                Ok(t) => t,
                Err(e) => {
                    return Err(e);
                },
            };
            match fill_table(headers, env) {
                Ok(headers) => Ok(McpServer::Http { url, auth_token, headers, readonly_tools }),
                Err(e) => Err(e),
            }
        },
    }
}

proof fn lemma_providers_prefix(rows: Seq<(String, Provider)>, n: int, env: Table<String>)
    requires
        0 <= n <= rows.len(),
        fault_in(providers_fields(rows.take(n)), env) is Some,
    ensures
        fault_in(providers_fields(rows), env) == fault_in(providers_fields(rows.take(n)), env),
    decreases rows.len() - n,
{
    if n == rows.len() {
        assert(rows.take(n) =~= rows);
    } else {
        assert(rows.take(n + 1).drop_last() =~= rows.take(n));
        lemma_fault_joined(
            providers_fields(rows.take(n)),
            provider_fields(rows.take(n + 1).last().1),
            env,
            0,
        );
        lemma_providers_prefix(rows, n + 1, env);
    }
}

proof fn lemma_servers_prefix(rows: Seq<(String, McpServer)>, n: int, env: Table<String>)
    requires
        0 <= n <= rows.len(),
        fault_in(servers_fields(rows.take(n)), env) is Some,
    ensures
        fault_in(servers_fields(rows), env) == fault_in(servers_fields(rows.take(n)), env),
    decreases rows.len() - n,
{
    if n == rows.len() {
        assert(rows.take(n) =~= rows);
    } else {
        assert(rows.take(n + 1).drop_last() =~= rows.take(n));
        lemma_fault_joined(
            servers_fields(rows.take(n)),
            server_fields(rows.take(n + 1).last().1),
            env,
            0,
        );
        lemma_servers_prefix(rows, n + 1, env);
    }
}

fn fill_providers(t: Table<Provider>, env: &Table<String>) -> (r: Result<Table<Provider>, EnvError>)
    ensures
        match r {
            Ok(after) => {
                &&& fault_in(providers_fields(t.entries@), *env) is None
                &&& after.names() == t.names()
                &&& forall|i: int|
                    0 <= i < t.entries@.len() ==> fills_provider(
                        (#[trigger] after.entries@[i]).1,
                        t.entries@[i].1,
                        *env,
                    )
            },
            Err(e) => fault_in(providers_fields(t.entries@), *env) == Some(e@),
        },
{
    let ghost rows = t.entries@;
    let mut left = t.entries;
    let mut done: Vec<(String, Provider)> = Vec::new();
    assert(fault_in(providers_fields(rows.take(0)), *env) is None);
    assert(rows.skip(0) =~= rows);
    while left.len() > 0
        invariant
            rows == t.entries@,
            done@.len() + left@.len() == rows.len(),
            left@ == rows.skip(done@.len() as int),
            fault_in(providers_fields(rows.take(done@.len() as int)), *env) is None,
            forall|k: int|
                0 <= k < done@.len() ==> (#[trigger] done@[k]).0 == rows[k].0 && fills_provider(
                    done@[k].1,
                    rows[k].1,
                    *env,
                ),
        decreases left@.len(),
    {
        let ghost n = done@.len() as int;
        proof {
            assert(rows.take(n + 1).drop_last() =~= rows.take(n));
            assert(rows.take(n + 1).last() == rows[n]);
            lemma_fault_joined(
                providers_fields(rows.take(n)),
                provider_fields(rows[n].1),
                *env,
                0,
            );
        }
        let (name, provider) = left.remove(0);
        assert(left@ =~= rows.skip(n + 1));
        match fill_provider(provider, env) {
            Ok(after) => {
                done.push((name, after));
            },
            Err(e) => {
                proof {
                    lemma_providers_prefix(rows, n + 1, *env);
                }
                return Err(e);
            },
        }
    }
    assert(rows.take(rows.len() as int) =~= rows);
    let out = Table { entries: done };
    assert(out.names() =~= t.names());
    Ok(out)
}

fn fill_servers(t: Table<McpServer>, env: &Table<String>) -> (r: Result<Table<McpServer>, EnvError>)
    ensures
        match r {
            Ok(after) => {
                &&& fault_in(servers_fields(t.entries@), *env) is None
                &&& after.names() == t.names()
                &&& forall|i: int|
                    0 <= i < t.entries@.len() ==> fills_server(
                        (#[trigger] after.entries@[i]).1,
                        t.entries@[i].1,
                        *env,
                    )
            },
            Err(e) => fault_in(servers_fields(t.entries@), *env) == Some(e@),
        },
{
    let ghost rows = t.entries@;
    let mut left = t.entries;
    let mut done: Vec<(String, McpServer)> = Vec::new();
    assert(fault_in(servers_fields(rows.take(0)), *env) is None);
    assert(rows.skip(0) =~= rows);
    while left.len() > 0
        invariant
            rows == t.entries@,
            done@.len() + left@.len() == rows.len(),
            left@ == rows.skip(done@.len() as int),
            fault_in(servers_fields(rows.take(done@.len() as int)), *env) is None,
            forall|k: int|
                0 <= k < done@.len() ==> (#[trigger] done@[k]).0 == rows[k].0 && fills_server(
                    done@[k].1,
                    rows[k].1,
                    *env,
                ),
        decreases left@.len(),
    {
        let ghost n = done@.len() as int;
        proof {
            assert(rows.take(n + 1).drop_last() =~= rows.take(n));
            assert(rows.take(n + 1).last() == rows[n]);
            lemma_fault_joined(servers_fields(rows.take(n)), server_fields(rows[n].1), *env, 0);
        }
        let (name, server) = left.remove(0);
        assert(left@ =~= rows.skip(n + 1));
        match fill_server(server, env) {
            Ok(after) => {
                done.push((name, after));
            },
            Err(e) => {
                proof {
                    lemma_servers_prefix(rows, n + 1, *env);
                }
                return Err(e);
            },
        }
    }
    assert(rows.take(rows.len() as int) =~= rows);
    let out = Table { entries: done };
    assert(out.names() =~= t.names());
    Ok(out)
}

/// Replace the environment references of a configuration in the places that
/// hold secrets or differ by machine. Prompts are left as they are.
pub fn fill_config(c: Config, env: &Table<String>) -> (r: Result<Config, EnvError>)
    ensures
        match r {
            Ok(after) => fault_in(fields_of(c), *env) is None && fills_config(after, c, *env),
            Err(e) => fault_in(fields_of(c), *env) == Some(e@),
        },
{
    let ghost first = if_any(c.settings.searxng_url);
    let ghost second = providers_fields(c.providers.entries@);
    let ghost third = servers_fields(c.mcp.entries@);
    proof {
        lemma_fault_joined(first, second, *env, 0);
        lemma_fault_joined(first + second, third, *env, 0);
    }
    let mut settings = c.settings;
    let url = match fill_any(settings.searxng_url, env) {
        Ok(url) => url,
        Err(e) => {
            return Err(e);
        },
    };
    settings.searxng_url = url;
    let providers = match fill_providers(c.providers, env) {
        Ok(t) => t,
        Err(e) => {
            return Err(e);
        },
    };
    let mcp = match fill_servers(c.mcp, env) {
        Ok(t) => t,
        Err(e) => {
            return Err(e);
        },
    };
    Ok(
        Config {
            settings,
            providers,
            models: c.models,
            mcp,
            agents: c.agents,
            workflows: c.workflows,
            stages: c.stages,
            hooks: c.hooks,
            base_dir: c.base_dir,
            project_contexts: c.project_contexts,
        },
    )
}

// ---------------------------------------------------------------------------
// Prompts
// ---------------------------------------------------------------------------

/// Where a system prompt comes from.
pub enum PromptSource {
    Nothing,
    Inline(String),
    /// A file, which has still to be read.
    File(String),
}

/// Where a system prompt comes from: the file stands under the directory of
/// the configuration.
pub open spec fn source_is(
    r: PromptSource,
    inline: Option<String>,
    file: Option<String>,
    base: Seq<char>,
) -> bool {
    match (inline, file) {
        (Some(words), _) => r matches PromptSource::Inline(s) && s@ == words@,
        (None, Some(path)) => r matches PromptSource::File(s) && s@ == paths::under_spec(
            base,
            path@,
        ),
        (None, None) => r is Nothing,
    }
}

/// Where a system prompt comes from. Not both an inline prompt and a file may
/// be given.
pub fn prompt_source(inline: &Option<String>, file: &Option<String>, base: &str) -> (r: PromptSource)
    requires
        !(*inline is Some && *file is Some),
    ensures
        source_is(r, *inline, *file, base@),
{
    match inline {
        Some(words) => PromptSource::Inline(words.clone()),
        None => match file {
            Some(path) => PromptSource::File(paths::under(base, path.as_str())),
            None => PromptSource::Nothing,
        },
    }
}

/// What a system prompt is, where `read` is what its file holds, or nothing if
/// the file cannot be read.
pub open spec fn prompt_spec(
    inline: Option<String>,
    file: Option<String>,
    base: Seq<char>,
    read: Option<Seq<char>>,
) -> Result<Option<Seq<char>>, Seq<char>> {
    match (inline, file) {
        (Some(words), _) => Ok(Some(words@)),
        (None, Some(path)) => match read {
            Some(content) => Ok(Some(content)),
            None => Err(
                "cannot read system_prompt_file "@ + paths::under_spec(base, path@),
            ),
        },
        (None, None) => Ok(None),
    }
}

/// Resolve a system prompt.
pub fn resolve_prompt_source(
    inline: &Option<String>,
    file: &Option<String>,
    base: &str,
    read: Option<String>,
) -> (r: Result<Option<String>, String>)
    requires
        !(*inline is Some && *file is Some),
    ensures
        match r {
            Ok(prompt) => prompt_spec(*inline, *file, base@, model::option_text(read)) == Ok::<
                Option<Seq<char>>,
                Seq<char>,
            >(model::option_text(prompt)),
            Err(words) => prompt_spec(*inline, *file, base@, model::option_text(read)) == Err::<
                Option<Seq<char>>,
                Seq<char>,
            >(words@),
        },
{
    match prompt_source(inline, file, base) {
        PromptSource::Nothing => Ok(None),
        PromptSource::Inline(words) => Ok(Some(words)),
        PromptSource::File(path) => match read {
            Some(content) => Ok(Some(content)),
            None => Err(text::cat2("cannot read system_prompt_file ", path.as_str())),
        },
    }
}

impl Stage {
    /// The stage's system prompt, where `read` is what its prompt file holds,
    /// or nothing if the file cannot be read.
    pub fn resolve_system_prompt(&self, base_dir: &str, read: Option<String>) -> (r: Result<
        Option<String>,
        String,
    >)
        requires
            !(self.system_prompt is Some && self.system_prompt_file is Some),
        ensures
            ({
                let found = prompt_spec(
                    self.system_prompt,
                    self.system_prompt_file,
                    base_dir@,
                    model::option_text(read),
                );
                match r {
                    Ok(prompt) => found == Ok::<Option<Seq<char>>, Seq<char>>(
                        model::option_text(prompt),
                    ),
                    Err(words) => found is Err && words@ == "stage `"@ + self.name@ + "`: "@
                        + found->Err_0,
                }
            }),
    {
        match resolve_prompt_source(&self.system_prompt, &self.system_prompt_file, base_dir, read) {
            Ok(prompt) => Ok(prompt),
            Err(words) => Err(text::cat4("stage `", self.name.as_str(), "`: ", words.as_str())),
        }
    }
}

impl Agent {
    /// The agent's system prompt, where `read` is what its prompt file holds,
    /// or nothing if the file cannot be read.
    pub fn resolve_system_prompt(&self, base_dir: &str, read: Option<String>) -> (r: Result<
        Option<String>,
        String,
    >)
        requires
            !(self.system_prompt is Some && self.system_prompt_file is Some),
        ensures
            ({
                let found = prompt_spec(
                    self.system_prompt,
                    self.system_prompt_file,
                    base_dir@,
                    model::option_text(read),
                );
                match r {
                    Ok(prompt) => found == Ok::<Option<Seq<char>>, Seq<char>>(
                        model::option_text(prompt),
                    ),
                    Err(words) => found == Err::<Option<Seq<char>>, Seq<char>>(words@),
                }
            }),
    {
        resolve_prompt_source(&self.system_prompt, &self.system_prompt_file, base_dir, read)
    }
}

// ---------------------------------------------------------------------------
// Project instructions
// ---------------------------------------------------------------------------

/// Whether a path begins with a dot for the working directory, which is then a
/// part of it.
pub open spec fn led_by_dot(path: Seq<char>) -> bool {
    path.len() > 0 && path[0] == '.' && (path.len() == 1 || path[1] == '/')
}

fn is_led_by_dot(path: &str) -> (r: bool)
    ensures
        r == led_by_dot(path@),
{
    let chars = text::chars(path);
    chars.len() > 0 && chars[0] == '.' && (chars.len() == 1 || chars[1] == '/')
}

/// The parts of a path, one below the other: the components, and the dot that
/// may lead a relative path.
pub open spec fn parts_spec(path: Seq<char>) -> Seq<Seq<char>> {
    if led_by_dot(path) {
        seq!["."@] + paths::components_spec(path)
    } else {
        paths::components_spec(path)
    }
}

/// Where a path starts: at the root, or at no place in particular.
pub open spec fn start_spec(path: Seq<char>) -> Seq<char> {
    if paths::is_absolute_spec(path) {
        "/"@
    } else {
        ""@
    }
}

/// A directory and those above it, as far as `n` parts go, the nearest first.
pub open spec fn upward(start: Seq<char>, parts: Seq<Seq<char>>, n: nat) -> Seq<Seq<char>>
    decreases n,
{
    if n == 0 {
        seq![start]
    } else {
        seq![start + text::join_spec(parts.take(n as int), "/"@)] + upward(
            start,
            parts,
            (n - 1) as nat,
        )
    }
}

/// A directory and those above it: up to the root, or for a relative one up
/// to the empty path.
pub open spec fn ancestors_spec(cwd: Seq<char>) -> Seq<Seq<char>> {
    upward(start_spec(cwd), parts_spec(cwd), parts_spec(cwd).len())
}

fn path_parts(path: &str) -> (r: Vec<String>)
    ensures
        text::views(r@) == parts_spec(path@),
{
    let components = paths::components(path);
    if !is_led_by_dot(path) {
        return components;
    }
    let ghost all = text::views(components@);
    let mut out: Vec<String> = Vec::new();
    assert(text::views(out@) =~= seq![]);
    text::add_text(&mut out, ".".to_owned());
    let mut i: usize = 0;
    assert(text::views(out@) =~= seq!["."@] + all.take(0));
    while i < components.len()
        invariant
            i <= components@.len(),
            all == text::views(components@),
            text::views(out@) == seq!["."@] + all.take(i as int),
        decreases components@.len() - i,
    {
        text::add_text(&mut out, components[i].clone());
        assert((seq!["."@] + all.take(i as int)).push(all[i as int]) =~= seq!["."@] + all.take(
            i + 1,
        ));
        i = i + 1;
    }
    assert(all.take(all.len() as int) =~= all);
    out
}

/// A directory and those above it, the nearest first.
pub fn ancestors(cwd: &str) -> (r: Vec<String>)
    ensures
        text::views(r@) == ancestors_spec(cwd@),
{
    let mut out: Vec<String> = Vec::new();
    assert(text::views(out@) =~= seq![]);
    let start: &str = if paths::is_absolute(cwd) {
        "/"
    } else {
        ""
    };
    let mut parts = path_parts(cwd);
    let ghost all = text::views(parts@);
    let ghost whole = upward(start@, all, all.len());
    assert(all.take(all.len() as int) =~= all);
    assert(text::views(out@) + whole =~= whole);
    while parts.len() > 0
        invariant
            parts@.len() <= all.len(),
            text::views(parts@) == all.take(parts@.len() as int),
            whole == upward(start@, all, all.len()),
            text::views(out@) + upward(start@, all, parts@.len()) == whole,
        decreases parts@.len(),
    {
        let ghost n = parts@.len();
        let ghost before = text::views(out@);
        let joined = text::join(&parts, "/");
        let dir = text::cat2(start, joined.as_str());
        let ghost shown = dir@;
        text::add_text(&mut out, dir);
        assert(before.push(shown) + upward(start@, all, (n - 1) as nat) =~= before + (seq![shown]
            + upward(start@, all, (n - 1) as nat)));
        let ghost listed = text::views(parts@);
        parts.pop();
        assert(text::views(parts@) =~= all.take(parts@.len() as int)) by {
            assert(text::views(parts@) =~= listed.drop_last());
        }
    }
    let ghost before = text::views(out@);
    text::add_text(&mut out, start.to_owned());
    assert(before.push(start@) =~= before + upward(start@, all, 0));
    out
}

/// The paths at which an entry is looked for.
pub open spec fn candidates_spec(entry: Seq<char>, cwd: Seq<char>) -> Seq<Seq<char>> {
    if paths::is_absolute_spec(entry) {
        seq![entry]
    } else {
        Seq::new(
            ancestors_spec(cwd).len(),
            |i: int| paths::under_spec(ancestors_spec(cwd)[i], entry),
        )
    }
}

/// The paths at which a project-instructions file is looked for: the first that
/// can be read counts.
pub fn context_candidates(entry: &str, cwd: &str) -> (r: Vec<String>)
    ensures
        text::views(r@) == candidates_spec(entry@, cwd@),
{
    let mut out: Vec<String> = Vec::new();
    if paths::is_absolute(entry) {
        assert(text::views(out@) =~= seq![]);
        text::add_text(&mut out, entry.to_owned());
        assert(text::views(out@) =~= seq![entry@]);
        return out;
    }
    let dirs = ancestors(cwd);
    let ghost all = candidates_spec(entry@, cwd@);
    let mut i: usize = 0;
    assert(text::views(out@) =~= all.take(0));
    while i < dirs.len()
        invariant
            i <= dirs@.len(),
            text::views(dirs@) == ancestors_spec(cwd@),
            !paths::is_absolute_spec(entry@),
            all == candidates_spec(entry@, cwd@),
            text::views(out@) == all.take(i as int),
        decreases dirs@.len() - i,
    {
        assert(text::views(dirs@)[i as int] == dirs@[i as int]@);
        text::add_text(&mut out, paths::under(dirs[i].as_str(), entry));
        assert(all.take(i as int).push(all[i as int]) =~= all.take(i + 1));
        i = i + 1;
    }
    assert(all.take(all.len() as int) =~= all);
    out
}

/// Whether two paths are the same, part by part.
pub open spec fn same_path(a: Seq<char>, b: Seq<char>) -> bool {
    &&& paths::is_absolute_spec(a) == paths::is_absolute_spec(b)
    &&& led_by_dot(a) == led_by_dot(b)
    &&& paths::components_spec(a) == paths::components_spec(b)
}

/// The places of the files that count: none is blank, and none comes twice.
pub open spec fn kept_contexts(found: Seq<config::ContextView>) -> Seq<int>
    decreases found.len(),
{
    if found.len() == 0 {
        seq![]
    } else {
        let before = kept_contexts(found.drop_last());
        let last = found.last();
        if text::trim_spec(last.content).len() > 0 && !path_among(found, before, last.path) {
            before.push(found.len() - 1)
        } else {
            before
        }
    }
}

/// Whether a path is that of a file at one of the places.
pub open spec fn path_among(found: Seq<config::ContextView>, places: Seq<int>, path: Seq<char>) -> bool {
    exists|k: int| 0 <= k < places.len() && same_path(found[#[trigger] places[k]].path, path)
}

fn is_same_path(a: &str, b: &str) -> (r: bool)
    ensures
        r == same_path(a@, b@),
{
    if paths::is_absolute(a) != paths::is_absolute(b) || is_led_by_dot(a) != is_led_by_dot(b) {
        return false;
    }
    let p = paths::components(a);
    let q = paths::components(b);
    let ghost left = text::views(p@);
    let ghost right = text::views(q@);
    if p.len() != q.len() {
        assert(left.len() != right.len());
        return false;
    }
    let mut i: usize = 0;
    while i < p.len()
        invariant
            i <= p@.len(),
            p@.len() == q@.len(),
            left == text::views(p@),
            right == text::views(q@),
            left == paths::components_spec(a@),
            right == paths::components_spec(b@),
            forall|k: int| 0 <= k < i ==> left[k] == right[k],
        decreases p@.len() - i,
    {
        assert(left[i as int] == p@[i as int]@);
        assert(right[i as int] == q@[i as int]@);
        if !text::same(p[i].as_str(), q[i].as_str()) {
            return false;
        }
        i = i + 1;
    }
    assert(left =~= right);
    true
}

/// The files at these places.
pub open spec fn at_places(found: Seq<config::ContextView>, places: Seq<int>) -> Seq<
    config::ContextView,
> {
    Seq::new(places.len(), |i: int| found[places[i]])
}

/// What each entry leads to: the first of its paths that can be read.
pub open spec fn found_contexts(
    entries: Seq<Seq<char>>,
    cwd: Seq<char>,
    files: Table<String>,
) -> Seq<config::ContextView>
    decreases entries.len(),
{
    if entries.len() == 0 {
        seq![]
    } else {
        let before = found_contexts(entries.drop_last(), cwd, files);
        match files.first_named(candidates_spec(entries.last(), cwd), 0) {
            Some(path) => before.push(config::ContextView { path, content: files.at(path)@ }),
            None => before,
        }
    }
}

/// The project instructions that entries lead to.
pub open spec fn resolved_contexts(
    entries: Seq<Seq<char>>,
    cwd: Seq<char>,
    files: Table<String>,
) -> Seq<config::ContextView> {
    let found = found_contexts(entries, cwd, files);
    at_places(found, kept_contexts(found))
}

fn find_contexts(entries: &Vec<String>, cwd: &str, files: &Table<String>) -> (r: Vec<ProjectContext>)
    ensures
        config::contexts_view(r@) == found_contexts(text::views(entries@), cwd@, *files),
{
    let ghost all = text::views(entries@);
    let mut out: Vec<ProjectContext> = Vec::new();
    let mut i: usize = 0;
    assert(config::contexts_view(out@) =~= found_contexts(all.take(0), cwd@, *files));
    while i < entries.len()
        invariant
            i <= entries@.len(),
            all == text::views(entries@),
            config::contexts_view(out@) == found_contexts(all.take(i as int), cwd@, *files),
        decreases entries@.len() - i,
    {
        assert(all.take(i + 1).drop_last() =~= all.take(i as int));
        assert(all.take(i + 1).last() == entries@[i as int]@);
        let candidates = context_candidates(entries[i].as_str(), cwd);
        if let Some(path) = files.first_of(&candidates) {
            if let Some(content) = files.get(path.as_str()) {
                let ghost before = config::contexts_view(out@);
                let context = ProjectContext { path, content: content.clone() };
                let ghost added = context@;
                out.push(context);
                assert(config::contexts_view(out@) =~= before.push(added));
            }
        }
        i = i + 1;
    }
    assert(all.take(entries@.len() as int) =~= all);
    out
}

/// The project instructions that entries lead to, in the order in which they
/// are listed. A relative entry is looked for in the working directory and
/// above it, and the nearest file counts; a blank file does not count, and of
/// two entries that lead to one file only the first does. `files` holds the
/// texts of the paths that can be read.
pub fn resolve_context_files(entries: &Vec<String>, cwd: &str, files: &Table<String>) -> (r: Vec<
    ProjectContext,
>)
    ensures
        config::contexts_view(r@) == resolved_contexts(text::views(entries@), cwd@, *files),
{
    let found = find_contexts(entries, cwd, files);
    let ghost views = config::contexts_view(found@);
    let mut out: Vec<ProjectContext> = Vec::new();
    let ghost mut places: Seq<int> = seq![];
    let mut i: usize = 0;
    assert(views.take(0) =~= seq![]);
    assert(config::contexts_view(out@) =~= at_places(views, places));
    while i < found.len()
        invariant
            i <= found@.len(),
            views == config::contexts_view(found@),
            places == kept_contexts(views.take(i as int)),
            config::contexts_view(out@) == at_places(views, places),
            forall|k: int| 0 <= k < places.len() ==> 0 <= #[trigger] places[k] < i,
        decreases found@.len() - i,
    {
        let ghost part = views.take(i + 1);
        assert(part.drop_last() =~= views.take(i as int));
        assert(part.last() == found@[i as int]@);
        let ghost before = config::contexts_view(out@);
        assert(before.len() == out@.len());
        assert(before.len() == places.len());
        let mut seen = false;
        let mut k: usize = 0;
        while k < out.len()
            invariant
                k <= out@.len(),
                i < found@.len(),
                part == views.take(i + 1),
                before == config::contexts_view(out@),
                before == at_places(views, places),
                out@.len() == places.len(),
                forall|m: int| 0 <= m < places.len() ==> 0 <= #[trigger] places[m] < i,
                views == config::contexts_view(found@),
                seen == exists|m: int|
                    0 <= m < k && same_path(
                        part[#[trigger] places[m]].path,
                        found@[i as int].path@,
                    ),
            decreases out@.len() - k,
        {
            assert(before[k as int] == out@[k as int]@);
            assert(before[k as int] == views[places[k as int]]);
            assert(part[places[k as int]] == views[places[k as int]]);
            if is_same_path(out[k].path.as_str(), found[i].path.as_str()) {
                seen = true;
            }
            k = k + 1;
        }
        assert(seen == path_among(part, places, found@[i as int].path@));
        let trimmed = text::trim(found[i].content.as_str());
        if !trimmed.as_str().is_empty() && !seen {
            let context = ProjectContext {
                path: found[i].path.clone(),
                content: found[i].content.clone(),
            };
            let ghost added = context@;
            out.push(context);
            assert(config::contexts_view(out@) =~= before.push(added));
            assert(views[i as int] == added);
            assert(at_places(views, places.push(i as int)) =~= before.push(added));
            proof {
                places = places.push(i as int);
            }
        }
        i = i + 1;
    }
    assert(views.take(found@.len() as int) =~= views);
    out
}

proof fn lemma_kept(found: Seq<config::ContextView>)
    ensures
        forall|k: int|
            0 <= k < kept_contexts(found).len() ==> 0 <= #[trigger] kept_contexts(found)[k]
                < found.len() && text::trim_spec(found[kept_contexts(found)[k]].content).len() > 0,
        forall|j: int, k: int|
            0 <= j < k < kept_contexts(found).len() ==> #[trigger] kept_contexts(found)[j]
                < #[trigger] kept_contexts(found)[k] && !same_path(
                found[kept_contexts(found)[j]].path,
                found[kept_contexts(found)[k]].path,
            ),
    decreases found.len(),
{
    if found.len() > 0 {
        let rest = found.drop_last();
        lemma_kept(rest);
        let before = kept_contexts(rest);
        let all = kept_contexts(found);
        assert forall|k: int| 0 <= k < all.len() implies 0 <= #[trigger] all[k] < found.len()
            && text::trim_spec(found[all[k]].content).len() > 0 by {
            if k < before.len() {
                assert(all[k] == before[k]);
                assert(rest[before[k]] == found[before[k]]);
            }
        }
        assert forall|j: int, k: int| 0 <= j < k < all.len() implies #[trigger] all[j]
            < #[trigger] all[k] && !same_path(found[all[j]].path, found[all[k]].path) by {
            assert(all[j] == before[j]);
            assert(rest[before[j]] == found[before[j]]);
            if k < before.len() {
                assert(all[k] == before[k]);
                assert(rest[before[k]] == found[before[k]]);
            }
        }
    }
}

/// Project instructions keep the order in which they are listed, none of them
/// is blank, and no file is taken twice.
pub proof fn law_instructions_are_taken_once(found: Seq<config::ContextView>, j: int, k: int)
    requires
        0 <= j < k < kept_contexts(found).len(),
    ensures
        0 <= kept_contexts(found)[j] < kept_contexts(found)[k] < found.len(),
        !same_path(
            found[kept_contexts(found)[j]].path,
            found[kept_contexts(found)[k]].path,
        ),
        text::trim_spec(found[kept_contexts(found)[k]].content).len() > 0,
{
    lemma_kept(found);
    let all = kept_contexts(found);
    assert(all[j] < all[k]);
}

} // verus!

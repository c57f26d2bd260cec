//! Wildcard patterns and the rules on shell commands.

use vstd::prelude::*;
use vstd::string::*;

use crate::model;
use crate::model::ToolDefinition;
use crate::numbers;
use crate::schema;
use crate::text;

verus! {

/// Whether `pattern` matches the whole text: `*` stands for any run of
/// characters, every other character for itself.
pub open spec fn wildcard_spec(pattern: Seq<char>, t: Seq<char>) -> bool
    decreases pattern.len() + t.len(),
{
    if pattern.len() == 0 {
        t.len() == 0
    } else if pattern[0] == '*' {
        wildcard_spec(pattern.skip(1), t) || (t.len() > 0 && wildcard_spec(pattern, t.skip(1)))
    } else {
        t.len() > 0 && t[0] == pattern[0] && wildcard_spec(pattern.skip(1), t.skip(1))
    }
}

/// Whether `pattern` matches the whole text.
pub fn wildcard_match(pattern: &str, subject: &str) -> (r: bool)
    ensures
        r == wildcard_spec(pattern@, subject@),
{
    let p = text::chars(pattern);
    let t = text::chars(subject);
    let n: usize = t.len();
    // row[j] says whether the rest of the pattern matches the text from j;
    // at_end whether it matches the empty text.
    let mut row: Vec<bool> = Vec::new();
    let mut at_end = true;
    let mut j: usize = 0;
    while j < n
        invariant
            n == t@.len(),
            j <= n,
            row@.len() == j,
            forall|k: int|
                0 <= k < j ==> #[trigger] row@[k] == wildcard_spec(
                    p@.skip(p@.len() as int),
                    t@.skip(k),
                ),
        decreases n - j,
    {
        row.push(false);
        j = j + 1;
    }
    let mut i: usize = p.len();
    while i > 0
        invariant
            n == t@.len(),
            i <= p@.len(),
            row@.len() == n,
            at_end == wildcard_spec(p@.skip(i as int), t@.skip(n as int)),
            forall|k: int|
                0 <= k < n ==> #[trigger] row@[k] == wildcard_spec(
                    p@.skip(i as int),
                    t@.skip(k),
                ),
        decreases i,
    {
        i = i - 1;
        let c = p[i];
        let ghost here = p@.skip(i as int);
        let ghost below = p@.skip(i + 1);
        assert(here.skip(1) =~= below);
        assert(here[0] == c);
        let mut right_old = at_end;
        at_end = c == '*' && at_end;
        let mut right_new = at_end;
        let mut at: usize = n;
        while at > 0
            invariant
                n == t@.len(),
                at <= n,
                row@.len() == n,
                here.len() > 0,
                here[0] == c,
                here.skip(1) == below,
                right_old == wildcard_spec(below, t@.skip(at as int)),
                right_new == wildcard_spec(here, t@.skip(at as int)),
                forall|k: int|
                    0 <= k < at ==> #[trigger] row@[k] == wildcard_spec(below, t@.skip(k)),
                forall|k: int|
                    at <= k < n ==> #[trigger] row@[k] == wildcard_spec(here, t@.skip(k)),
            decreases at,
        {
            at = at - 1;
            assert(t@.skip(at as int).skip(1) =~= t@.skip(at + 1));
            assert(t@.skip(at as int)[0] == t@[at as int]);
            let old_here = row[at];
            let new_here = if c == '*' {
                old_here || right_new
            } else {
                t[at] == c && right_old
            };
            row[at] = new_here;
            right_old = old_here;
            right_new = new_here;
        }
    }
    assert(p@.skip(0) =~= p@);
    assert(t@.skip(0) =~= t@);
    if n == 0 {
        at_end
    } else {
        row[0]
    }
}

/// The pattern `*` matches everything.
pub proof fn law_star_matches_everything(t: Seq<char>)
    ensures
        wildcard_spec(seq!['*'], t),
    decreases t.len(),
{
    if t.len() > 0 {
        law_star_matches_everything(t.skip(1));
    } else {
        assert(seq!['*'].skip(1) =~= Seq::<char>::empty());
        assert(wildcard_spec(seq!['*'].skip(1), t));
    }
}

/// A pattern without `*` matches itself and nothing else.
pub proof fn law_plain_pattern_matches_itself_only(pattern: Seq<char>, t: Seq<char>)
    requires
        !pattern.contains('*'),
    ensures
        wildcard_spec(pattern, t) == (pattern == t),
    decreases pattern.len(),
{
    if pattern.len() == 0 {
        if t.len() == 0 {
            assert(pattern =~= t);
        }
    } else {
        assert(pattern[0] != '*');
        if t.len() > 0 {
            assert(!pattern.skip(1).contains('*')) by {
                if pattern.skip(1).contains('*') {
                    let i = choose|i: int|
                        0 <= i < pattern.skip(1).len() && pattern.skip(1)[i] == '*';
                    assert(pattern[i + 1] == '*');
                }
            }
            law_plain_pattern_matches_itself_only(pattern.skip(1), t.skip(1));
            if t[0] == pattern[0] && pattern.skip(1) == t.skip(1) {
                assert(pattern =~= seq![pattern[0]] + pattern.skip(1));
                assert(t =~= seq![t[0]] + t.skip(1));
            }
        }
    }
}

/// Whether one of the patterns matches.
pub open spec fn any_match(patterns: Seq<Seq<char>>, t: Seq<char>) -> bool {
    exists|i: int| 0 <= i < patterns.len() && wildcard_spec(#[trigger] patterns[i], t)
}

/// Whether one of the patterns matches.
pub fn matches_any(patterns: &Vec<String>, subject: &str) -> (r: bool)
    ensures
        r == any_match(text::views(patterns@), subject@),
{
    let mut i: usize = 0;
    while i < patterns.len()
        invariant
            i <= patterns@.len(),
            forall|k: int|
                0 <= k < i ==> !wildcard_spec(#[trigger] text::views(patterns@)[k], subject@),
        decreases patterns@.len() - i,
    {
        assert(text::views(patterns@)[i as int] == patterns@[i as int]@);
        if wildcard_match(patterns[i].as_str(), subject) {
            return true;
        }
        i = i + 1;
    }
    false
}

/// A character with which a shell joins, redirects or substitutes commands.
pub open spec fn is_shell_operator(c: char) -> bool {
    c == '|' || c == '&' || c == ';' || c == '<' || c == '>' || c == '(' || c == ')' || c == '`'
        || c == '\n'
}

/// Whether a command is one simple command: it holds no pipe, command list,
/// redirection, subshell or command substitution.
pub open spec fn simple_command(command: Seq<char>) -> bool {
    forall|i: int| 0 <= i < command.len() ==> !is_shell_operator(#[trigger] command[i])
}

/// Whether a command is one simple command.
pub fn shell_command_is_simple(command: &str) -> (r: bool)
    ensures
        r == simple_command(command@),
{
    let v = text::chars(command);
    let mut i: usize = 0;
    while i < v.len()
        invariant
            i <= v@.len(),
            v@ == command@,
            forall|k: int| 0 <= k < i ==> !is_shell_operator(#[trigger] v@[k]),
        decreases v@.len() - i,
    {
        let c = v[i];
        if c == '|' || c == '&' || c == ';' || c == '<' || c == '>' || c == '(' || c == ')' || c
            == '`' || c == '\n' {
            assert(is_shell_operator(command@[i as int]));
            return false;
        }
        i = i + 1;
    }
    true
}

/// Whether a command is allowed: there are no patterns, or one matches it.
pub open spec fn allowed_spec(allow: Seq<Seq<char>>, command: Seq<char>) -> bool {
    allow.len() == 0 || any_match(allow, text::trim_spec(command))
}

/// Whether a command is allowed: there are no patterns, or one matches it.
pub fn command_allowed(allow: &Vec<String>, command: &str) -> (r: bool)
    ensures
        r == allowed_spec(text::views(allow@), command@),
{
    if allow.len() == 0 {
        return true;
    }
    let trimmed = text::trim(command);
    matches_any(allow, trimmed.as_str())
}

// ---------------------------------------------------------------------------
// Definitions of the built-in tools
// ---------------------------------------------------------------------------

/// The advertised name of the web search.
pub const WEB_SEARCH_TOOL: &'static str = "web_search";

/// The advertised name of the page fetch.
pub const WEB_FETCH_TOOL: &'static str = "web_fetch";

/// The advertised name of the shell.
pub const SHELL_TOOL: &'static str = "shell";

/// What the model is told of the web search.
pub const WEB_SEARCH_TEXT: &'static str = "Search the web. Returns titles, URLs and excerpts of the results.";

/// What the model is told of the page fetch.
pub const WEB_FETCH_TEXT: &'static str = "Fetch a URL and return its readable text.";

/// A tool with one required text argument.
pub open spec fn one_text_tool(
    name: Seq<char>,
    description: Seq<char>,
    argument: Seq<char>,
    about: Seq<char>,
) -> model::DefinitionView {
    model::DefinitionView {
        name,
        description,
        parameters: schema::object_schema_spec(
            seq![schema::prop(argument, "string"@, about)],
            Some(seq![argument]),
        ),
    }
}

/// The definition of a tool with one required text argument.
pub fn text_tool(name: &str, description: &str, argument: &str, about: &str) -> (r: ToolDefinition)
    ensures
        r@ == one_text_tool(name@, description@, argument@, about@),
{
    let mut properties: Vec<schema::Property> = Vec::new();
    properties.push(schema::property(argument, "string", about));
    assert(schema::properties_view(properties@) =~= seq![
        schema::prop(argument@, "string"@, about@),
    ]);
    let mut required: Vec<String> = Vec::new();
    required.push(argument.to_owned());
    assert(text::views(required@) =~= seq![argument@]);
    ToolDefinition {
        name: name.to_owned(),
        description: description.to_owned(),
        parameters: schema::object_schema(&properties, Some(&required)),
    }
}

/// The definition of the web search.
pub open spec fn web_search_spec() -> model::DefinitionView {
    one_text_tool(WEB_SEARCH_TOOL@, WEB_SEARCH_TEXT@, "query"@, "The search query"@)
}

/// The definition of the web search.
pub fn web_search_definition() -> (r: ToolDefinition)
    ensures
        r@ == web_search_spec(),
{
    text_tool(WEB_SEARCH_TOOL, WEB_SEARCH_TEXT, "query", "The search query")
}

/// The definition of the page fetch.
pub open spec fn web_fetch_spec() -> model::DefinitionView {
    one_text_tool(WEB_FETCH_TOOL@, WEB_FETCH_TEXT@, "url"@, "The URL to fetch"@)
}

/// The definition of the page fetch.
pub fn web_fetch_definition() -> (r: ToolDefinition)
    ensures
        r@ == web_fetch_spec(),
{
    text_tool(WEB_FETCH_TOOL, WEB_FETCH_TEXT, "url", "The URL to fetch")
}

/// What the model is told of the shell: its time limit, and the patterns
/// that a restricted one accepts.
pub open spec fn shell_text(timeout_secs: nat, allow: Seq<Seq<char>>) -> Seq<char> {
    let head = "Run a command with `sh -c` in the working directory. It is stopped after "@
        + numbers::decimal_spec(timeout_secs) + " seconds."@;
    if allow.len() == 0 {
        head
    } else {
        head + " Only these command patterns are permitted: "@ + text::join_spec(allow, ", "@)
    }
}

/// The definition of the shell.
pub open spec fn shell_spec(timeout_secs: nat, allow: Seq<Seq<char>>) -> model::DefinitionView {
    one_text_tool(
        SHELL_TOOL@,
        shell_text(timeout_secs, allow),
        "command"@,
        "The command to run"@,
    )
}

/// The definition of the shell.
pub fn shell_definition(timeout_secs: u64, allow: &Vec<String>) -> (r: ToolDefinition)
    ensures
        r@ == shell_spec(timeout_secs as nat, text::views(allow@)),
{
    assert(text::views(allow@).len() == allow@.len());
    let mut description = text::cat3(
        "Run a command with `sh -c` in the working directory. It is stopped after ",
        numbers::decimal(timeout_secs).as_str(),
        " seconds.",
    );
    if allow.len() > 0 {
        description.append(" Only these command patterns are permitted: ");
        description.append(text::join(allow, ", ").as_str());
    }
    text_tool(SHELL_TOOL, description.as_str(), "command", "The command to run")
}

} // verus!

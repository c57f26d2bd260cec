//! What holds of letting tool calls through, running them and hooking into
//! them.

use vstd::prelude::*;
use vstd::string::*;

use crate::anthropic_laws;
use crate::approval::Approvals;
use crate::config::Config;
use crate::config::Hook;
use crate::config::HookEvent;
use crate::dispatch;
use crate::hooks;
use crate::json;
use crate::mcp::McpManager;
use crate::text;
use crate::tools;
use crate::toolset;

verus! {

/// A call is let through exactly where it needs no approval, or where it may
/// be approved by a pattern and one that is configured or was granted matches
/// it. Otherwise the approver is asked, and where there is none it is refused.
pub proof fn law_calls_pass_by_pattern_or_approval(
    d: dispatch::DescriptorView,
    required: bool,
    auto_approve: Seq<Seq<char>>,
    approvals: Approvals,
)
    ensures
        ({
            let gate = dispatch::gate_spec(d, required, auto_approve, approvals);
            let granted = text::views(approvals.session_allow@);
            let patterned = d.pattern_safe && ((exists|i: int|
                0 <= i < auto_approve.len() && tools::wildcard_spec(
                    #[trigger] auto_approve[i],
                    d.descriptor,
                )) || (exists|i: int|
                0 <= i < granted.len() && tools::wildcard_spec(
                    #[trigger] granted[i],
                    d.descriptor,
                )));
            &&& gate is Allowed <==> !required || patterned
            &&& gate is Ask <==> required && !patterned && approvals.interactive
            &&& gate is Refused <==> required && !patterned && !approvals.interactive
        }),
{
}

/// What a pattern has to match for a shell command is `shell` and the command
/// without white space around it, cut to 160 characters; only a simple one may
/// be approved by a pattern, and a lasting grant covers its first word.
pub proof fn law_shell_calls_are_described_by_their_command(
    allow: Seq<Seq<char>>,
    arguments: json::JsonView,
    command: Seq<char>,
)
    requires
        anthropic_laws::says(arguments, "command"@, command),
        text::trim_spec(command) == command,
        command.len() <= 160,
    ensures
        ({
            let d = dispatch::descriptor_spec(toolset::BindingView::Shell { allow }, arguments);
            &&& d.descriptor == "shell "@ + command
            &&& d.detail == command
            &&& d.pattern_safe <==> tools::simple_command(command)
            &&& text::words_spec(command).len() > 0 ==> d.always_pattern == "shell "@
                + text::words_spec(command)[0] + " *"@
        }),
{
}

/// Other calls are described by the tool and what it is aimed at, and may be
/// approved by a pattern.
pub proof fn law_calls_are_described_by_their_aim(
    server: Seq<char>,
    tool: Seq<char>,
    agent: Seq<char>,
    url: Seq<char>,
    arguments: json::JsonView,
)
    requires
        anthropic_laws::says(arguments, "url"@, url),
        url.len() <= 160,
    ensures
        ({
            let d = dispatch::descriptor_spec(
                toolset::BindingView::Mcp { server, tool },
                arguments,
            );
            d.descriptor == toolset::sanitized(server + "__"@ + tool) && d.always_pattern
                == d.descriptor && d.pattern_safe
        }),
        ({
            let d = dispatch::descriptor_spec(toolset::BindingView::Agent { agent }, arguments);
            d.descriptor == "agent__"@ + agent && d.always_pattern == d.descriptor
                && d.pattern_safe
        }),
        ({
            let d = dispatch::descriptor_spec(toolset::BindingView::WebFetch, arguments);
            d.descriptor == "web_fetch"@ + " "@ + url && d.always_pattern == "web_fetch"@ + " *"@
                && d.pattern_safe
        }),
        ({
            let d = dispatch::descriptor_spec(toolset::BindingView::WebSearch, arguments);
            d.descriptor == "web_search"@ && d.always_pattern == "web_search"@ && d.pattern_safe
        }),
{
}

/// A command is run, as it was given, exactly where it is not blank and either
/// any command may run or it is a simple one that a pattern matches.
pub proof fn law_only_permitted_commands_run(
    allow: Seq<Seq<char>>,
    command: Seq<char>,
    timeout_secs: u64,
)
    ensures
        ({
            let r = dispatch::shell_request(allow, command, timeout_secs);
            let permitted = text::trim_spec(command).len() > 0 && (allow.len() == 0 || (
            tools::simple_command(command) && exists|i: int|
                0 <= i < allow.len() && tools::wildcard_spec(
                    #[trigger] allow[i],
                    text::trim_spec(command),
                )));
            &&& permitted ==> r == (dispatch::ToolRequestView::Shell { command, timeout_secs })
            &&& !permitted ==> r is Reply
        }),
{
}

/// A call does what its tool is bound to, with what its arguments say; what is
/// missing is told to the model.
pub proof fn law_calls_do_what_they_are_bound_to(
    arguments: json::JsonView,
    config: Config,
    manager: McpManager,
    word: Seq<char>,
    server: Seq<char>,
    tool: Seq<char>,
    agent: Seq<char>,
    allow: Seq<Seq<char>>,
)
    requires
        arguments is Object,
        text::trim_spec(word).len() > 0,
        text::trim_spec(word) == word,
    ensures
        anthropic_laws::says(arguments, "url"@, word) ==> dispatch::request_spec(
            toolset::BindingView::WebFetch,
            arguments,
            config,
            manager,
        ) == Ok::<_, Seq<char>>(dispatch::ToolRequestView::WebFetch { url: word }),
        arguments.field("url"@) is None ==> (dispatch::request_spec(
            toolset::BindingView::WebFetch,
            arguments,
            config,
            manager,
        ) matches Ok(r) && r is Reply),
        anthropic_laws::says(arguments, "task"@, word) ==> dispatch::request_spec(
            toolset::BindingView::Agent { agent },
            arguments,
            config,
            manager,
        ) == Ok::<_, Seq<char>>(dispatch::ToolRequestView::Agent { agent, task: word }),
        arguments.field("task"@) is None ==> (dispatch::request_spec(
            toolset::BindingView::Agent { agent },
            arguments,
            config,
            manager,
        ) matches Ok(r) && r is Reply),
        anthropic_laws::says(arguments, "query"@, word) && config.settings.searxng_url is Some
            ==> dispatch::request_spec(
            toolset::BindingView::WebSearch,
            arguments,
            config,
            manager,
        ) == Ok::<_, Seq<char>>(
            dispatch::ToolRequestView::WebSearch {
                endpoint: config.settings.searxng_url->0@,
                query: word,
                max_results: config.settings.searxng_max_results,
            },
        ),
        config.settings.searxng_url is None && anthropic_laws::says(arguments, "query"@, word)
            ==> dispatch::request_spec(
            toolset::BindingView::WebSearch,
            arguments,
            config,
            manager,
        ) is Err,
        manager.connections.has_name(server) ==> dispatch::request_spec(
            toolset::BindingView::Mcp { server, tool },
            arguments,
            config,
            manager,
        ) == Ok::<_, Seq<char>>(dispatch::ToolRequestView::Mcp { server, tool, arguments }),
        !manager.connections.has_name(server) ==> dispatch::request_spec(
            toolset::BindingView::Mcp { server, tool },
            arguments,
            config,
            manager,
        ) is Err,
        anthropic_laws::says(arguments, "command"@, word) ==> dispatch::request_spec(
            toolset::BindingView::Shell { allow },
            arguments,
            config,
            manager,
        ) == Ok::<_, Seq<char>>(
            dispatch::shell_request(allow, word, config.settings.shell_timeout_secs),
        ),
{
}

/// Arguments that are no object are refused; none at all stand for an empty
/// one.
pub proof fn law_arguments_are_objects(
    binding: toolset::BindingView,
    arguments: json::JsonView,
    config: Config,
    manager: McpManager,
)
    ensures
        !(arguments is Object) && !(arguments is Null) ==> (dispatch::request_spec(
            binding,
            arguments,
            config,
            manager,
        ) matches Ok(r) && r is Reply),
        arguments is Null ==> dispatch::request_spec(binding, arguments, config, manager)
            == dispatch::request_spec(
            binding,
            json::JsonView::Object(seq![]),
            config,
            manager,
        ),
{
}

/// Output is handed on whole where it is short enough or nothing limits it;
/// else it starts with as many characters as may be shown and says so.
pub proof fn law_long_output_is_cut(output: Seq<char>, max_chars: nat)
    ensures
        max_chars == 0 || output.len() <= max_chars ==> dispatch::clamped(output, max_chars)
            == output,
        0 < max_chars < output.len() ==> {
            let r = dispatch::clamped(output, max_chars);
            &&& r.len() > max_chars
            &&& r.take(max_chars as int) == output.take(max_chars as int)
            &&& r[max_chars as int] == '\n'
        },
{
    reveal_strlit("\n… [tool output truncated: ");
    if 0 < max_chars < output.len() {
        let r = dispatch::clamped(output, max_chars);
        assert(r.take(max_chars as int) =~= output.take(max_chars as int));
        assert(r[max_chars as int] == "\n… [tool output truncated: "@[0]);
    }
}

/// The hooks that run at a call are exactly those for its moment whose pattern
/// matches it, in the order of the configuration.
pub proof fn law_hooks_run_where_they_match(
    list: Seq<Hook>,
    event: HookEvent,
    descriptor: Seq<char>,
)
    ensures
        ({
            let found = hooks::matching_spec(list, event, descriptor);
            &&& forall|i: int|
                #![trigger list[i]]
                0 <= i < list.len() ==> (found.contains(i as nat) <==> list[i].event == event
                    && tools::wildcard_spec(list[i].pattern@, descriptor))
            &&& forall|k: int| 0 <= k < found.len() ==> #[trigger] found[k] < list.len()
            &&& forall|k: int, l: int|
                0 <= k < l < found.len() ==> #[trigger] found[k] < #[trigger] found[l]
        }),
    decreases list.len(),
{
    if list.len() > 0 {
        let fewer = list.drop_last();
        law_hooks_run_where_they_match(fewer, event, descriptor);
        let before = hooks::matching_spec(fewer, event, descriptor);
        let found = hooks::matching_spec(list, event, descriptor);
        let n = list.len() - 1;
        assert(list[n] == list.last());
        assert forall|i: int|
            #![trigger list[i]]
            0 <= i < list.len() implies (found.contains(i as nat) <==> list[i].event == event
            && tools::wildcard_spec(list[i].pattern@, descriptor)) by {
            if i < n {
                assert(fewer[i] == list[i]);
                if before.contains(i as nat) {
                    let k = choose|k: int| 0 <= k < before.len() && before[k] == i as nat;
                    assert(found[k] == i as nat);
                }
                if found.contains(i as nat) {
                    let k = choose|k: int| 0 <= k < found.len() && found[k] == i as nat;
                    assert(before[k] == i as nat);
                }
            } else {
                if hooks::applies(list.last(), event, descriptor) {
                    assert(found[found.len() - 1] == n as nat);
                } else if found.contains(i as nat) {
                    let k = choose|k: int| 0 <= k < found.len() && found[k] == i as nat;
                    assert(before[k] < n);
                }
            }
        }
    }
}

/// A hook after a tool leaves the output alone where it succeeds, and else
/// adds what it said behind the output.
pub proof fn law_hooks_add_to_the_output(
    output: Seq<char>,
    pattern: Seq<char>,
    run: hooks::HookRun,
)
    ensures
        run.exit == Some(0i32) ==> hooks::post_text(output, pattern, run) == output,
        run.exit != Some(0i32) ==> {
            let r = hooks::post_text(output, pattern, run);
            &&& r.take(output.len() as int) == output
            &&& r.len() > output.len() + run.output@.len()
            &&& r.skip(r.len() - run.output@.len()) == run.output@
        },
{
    reveal_strlit("\n\n[post_tool hook `");
    let r = hooks::post_text(output, pattern, run);
    assert(r.take(output.len() as int) =~= output);
    if run.exit != Some(0i32) {
        assert(r.skip(r.len() - run.output@.len()) =~= run.output@);
    }
}

/// A hook is told the moment, the tool, the call, its arguments and, after the
/// tool ran, its output.
pub proof fn law_hooks_are_told_of_the_call(
    event: Seq<char>,
    descriptor: Seq<char>,
    arguments: json::JsonView,
    output: Seq<char>,
)
    ensures
        ({
            let sent = hooks::payload_spec(event, descriptor, arguments, Some(output));
            &&& anthropic_laws::says(sent, "event"@, event)
            &&& anthropic_laws::says(sent, "descriptor"@, descriptor)
            &&& sent.field("arguments"@) == Some(arguments)
            &&& anthropic_laws::says(sent, "output"@, output)
            &&& text::words_spec(descriptor).len() > 0 ==> anthropic_laws::says(
                sent,
                "tool"@,
                text::words_spec(descriptor)[0],
            )
        }),
        hooks::payload_spec(event, descriptor, arguments, None).field("output"@) == Some(
            json::JsonView::Null,
        ),
{
    reveal_strlit("event");
    reveal_strlit("tool");
    reveal_strlit("descriptor");
    reveal_strlit("arguments");
    reveal_strlit("output");
    assert("event"@.len() == 5);
    assert("tool"@.len() == 4);
    assert("descriptor"@.len() == 10);
    assert("arguments"@.len() == 9);
    assert("output"@.len() == 6);
    reveal_with_fuel(json::JsonView::field_from, 6);
}

/// What a hook printed is its output and then its errors, each without white
/// space around it, on lines of their own, up to two thousand characters.
pub proof fn law_hook_output_joins_both_streams(out: Seq<char>, err: Seq<char>)
    requires
        text::trim_spec(out) == out,
        text::trim_spec(err) == err,
        out.len() + err.len() < 2000,
    ensures
        out.len() > 0 && err.len() > 0 ==> hooks::output_spec(out, err) == out + seq!['\n'] + err,
        err.len() == 0 ==> hooks::output_spec(out, err) == out,
        out.len() == 0 ==> hooks::output_spec(out, err) == err,
{
    assert(out.push('\n') + err =~= out + seq!['\n'] + err);
    if out.len() == 0 && err.len() == 0 {
        assert(out =~= err);
    }
}

} // verus!

//! Shell commands bound to tool-call events.
//!
//! A hook applies to the calls whose descriptor its pattern matches. One that
//! runs before a call blocks it by failing; one that runs after a call adds
//! its output to the result by failing.

use vstd::prelude::*;
use vstd::string::*;

use crate::config::{Hook, HookEvent, Settings};
use crate::json;
use crate::json::Json;
use crate::numbers;
use crate::schema;
use crate::search;
use crate::text;
use crate::tools;

verus! {

/// Characters of a hook's output that are kept.
pub const MAX_HOOK_OUTPUT: usize = 2000;

/// Whether a hook applies.
pub open spec fn applies(hook: Hook, event: HookEvent, descriptor: Seq<char>) -> bool {
    hook.event == event && tools::wildcard_spec(hook.pattern@, descriptor)
}

/// The positions of the hooks that apply, in order.
pub open spec fn matching_spec(hooks: Seq<Hook>, event: HookEvent, descriptor: Seq<char>) -> Seq<
    nat,
>
    decreases hooks.len(),
{
    if hooks.len() == 0 {
        seq![]
    } else {
        let rest = matching_spec(hooks.drop_last(), event, descriptor);
        if applies(hooks.last(), event, descriptor) {
            rest.push((hooks.len() - 1) as nat)
        } else {
            rest
        }
    }
}

/// The positions of the hooks that apply to a call, in the order in which
/// they run.
pub fn matching(hooks: &Vec<Hook>, event: HookEvent, descriptor: &str) -> (out: Vec<usize>)
    ensures
        out@.map_values(|i: usize| i as nat) == matching_spec(hooks@, event, descriptor@),
        forall|k: int| 0 <= k < out@.len() ==> #[trigger] out@[k] < hooks@.len(),
{
    let mut out: Vec<usize> = Vec::new();
    let mut i: usize = 0;
    assert(out@.map_values(|i: usize| i as nat) =~= seq![]);
    while i < hooks.len()
        invariant
            i <= hooks@.len(),
            out@.map_values(|i: usize| i as nat) == matching_spec(
                hooks@.take(i as int),
                event,
                descriptor@,
            ),
            forall|k: int| 0 <= k < out@.len() ==> #[trigger] out@[k] < hooks@.len(),
        decreases hooks@.len() - i,
    {
        assert(hooks@.take(i + 1).drop_last() =~= hooks@.take(i as int));
        assert(hooks@.take(i + 1).last() == hooks@[i as int]);
        let hook = &hooks[i];
        if hook.event == event && tools::wildcard_match(hook.pattern.as_str(), descriptor) {
            let ghost before = out@;
            out.push(i);
            assert(out@.map_values(|i: usize| i as nat) =~= before.map_values(
                |i: usize| i as nat,
            ).push(i as nat));
        }
        i = i + 1;
    }
    assert(hooks@.take(hooks@.len() as int) =~= hooks@);
    out
}

/// How a hook ended, in words.
pub open spec fn exit_text(exit: Option<i32>) -> Seq<char> {
    match exit {
        Some(code) => "exited "@ + numbers::signed_spec(code as int),
        None => "timed out or failed to run"@,
    }
}

/// How a hook ended, in words: its exit code, or nothing where it timed out,
/// died by a signal or could not be started.
pub fn describe_exit(exit: Option<i32>) -> (r: String)
    ensures
        r@ == exit_text(exit),
{
    match exit {
        Some(code) => text::cat2("exited ", numbers::signed(code).as_str()),
        None => "timed out or failed to run".to_owned(),
    }
}

/// What a finished hook leaves.
pub struct HookRun {
    /// The exit code; none on a timeout, a signal or a failed start.
    pub exit: Option<i32>,
    pub output: String,
}

/// The message of a hook that blocks a call.
pub open spec fn blocked_text(run: HookRun) -> Seq<char> {
    "BLOCKED: a pre_tool hook ("@ + exit_text(run.exit) + ") rejected this call"@ + (
    if run.output@.len() == 0 {
        ""@
    } else {
        ": "@ + run.output@
    }) + "\nDo not retry the same call; adjust your approach."@
}

/// What a hook that ran before a call decides: it blocks the call unless it
/// exited with zero. A hook that could not run blocks as well.
pub fn pre_tool(run: &HookRun) -> (r: Option<String>)
    ensures
        match r {
            None => run.exit == Some(0i32),
            Some(message) => run.exit != Some(0i32) && message@ == blocked_text(*run),
        },
{
    match run.exit {
        Some(code) => {
            if code == 0 {
                return None;
            }
        },
        None => {},
    }
    let reason = if run.output.as_str().is_empty() {
        "".to_owned()
    } else {
        text::cat2(": ", run.output.as_str())
    };
    Some(
        text::cat5(
            "BLOCKED: a pre_tool hook (",
            describe_exit(run.exit).as_str(),
            ") rejected this call",
            reason.as_str(),
            "\nDo not retry the same call; adjust your approach.",
        ),
    )
}

/// A tool's result after a hook that ran behind the call.
pub open spec fn post_text(output: Seq<char>, pattern: Seq<char>, run: HookRun) -> Seq<char> {
    if run.exit == Some(0i32) {
        output
    } else {
        output + "\n\n[post_tool hook `"@ + pattern + "` "@ + exit_text(run.exit) + "]\n"@
            + run.output@
    }
}

/// A tool's result after a hook that ran behind the call: a failure adds the
/// hook's output.
pub fn post_tool(output: String, pattern: &str, run: &HookRun) -> (r: String)
    ensures
        r@ == post_text(output@, pattern@, *run),
{
    match run.exit {
        Some(code) => {
            if code == 0 {
                return output;
            }
        },
        None => {},
    }
    let mut r = output;
    r.append("\n\n[post_tool hook `");
    r.append(pattern);
    r.append("` ");
    r.append(describe_exit(run.exit).as_str());
    r.append("]\n");
    r.append(run.output.as_str());
    r
}

/// The tool that a descriptor names: its first word.
pub open spec fn tool_of(descriptor: Seq<char>) -> Seq<char> {
    let words = text::words_spec(descriptor);
    if words.len() > 0 {
        words[0]
    } else {
        ""@
    }
}

/// The tool that a descriptor names: its first word.
pub fn hook_tool(descriptor: &str) -> (r: String)
    ensures
        r@ == tool_of(descriptor@),
{
    let words = text::words(descriptor);
    assert(text::views(words@).len() == words@.len());
    if words.len() > 0 {
        words[0].clone()
    } else {
        "".to_owned()
    }
}

/// What a hook reads on its standard input.
pub open spec fn payload_spec(
    event: Seq<char>,
    descriptor: Seq<char>,
    arguments: json::JsonView,
    output: Option<Seq<char>>,
) -> json::JsonView {
    json::JsonView::Object(
        seq![
            ("event"@, json::JsonView::Text(event)),
            ("tool"@, json::JsonView::Text(tool_of(descriptor))),
            ("descriptor"@, json::JsonView::Text(descriptor)),
            ("arguments"@, arguments),
            (
                "output"@,
                match output {
                    Some(s) => json::JsonView::Text(s),
                    None => json::JsonView::Null,
                },
            ),
        ],
    )
}

/// What a hook reads on its standard input: the call, and its result where
/// there is one.
pub fn hook_payload(event: &str, descriptor: &str, arguments: &Json, output: Option<&str>) -> (r:
    String)
    ensures
        r@ == json::printed(
            payload_spec(
                event@,
                descriptor@,
                arguments@,
                match output {
                    Some(s) => Some(s@),
                    None => None,
                },
            ),
        ),
{
    let mut fields: Vec<(String, Json)> = Vec::new();
    fields.push(("event".to_owned(), schema::text_value(event)));
    fields.push(("tool".to_owned(), schema::text_value(hook_tool(descriptor).as_str())));
    fields.push(("descriptor".to_owned(), schema::text_value(descriptor)));
    fields.push(("arguments".to_owned(), arguments.clone()));
    fields.push(("output".to_owned(), schema::optional_text(output)));
    let value = Json::Object(fields);
    let ghost expected = payload_spec(
        event@,
        descriptor@,
        arguments@,
        match output {
            Some(s) => Some(s@),
            None => None,
        },
    );
    assert(json::json_view(value)->Object_0 =~= expected->Object_0);
    json::print(&value)
}

/// A hook's two outputs as one text, clamped.
pub open spec fn output_spec(stdout: Seq<char>, stderr: Seq<char>) -> Seq<char> {
    let out = text::trim_spec(stdout);
    let err = text::trim_spec(stderr);
    text::truncate_spec(
        if err.len() == 0 {
            out
        } else if out.len() == 0 {
            err
        } else {
            out.push('\n') + err
        },
        MAX_HOOK_OUTPUT as nat,
    )
}

/// A hook's two outputs as one text, trimmed and clamped.
pub fn hook_output(stdout: &Vec<u8>, stderr: &Vec<u8>) -> (r: String)
    ensures
        r@ == output_spec(search::lossy_text(stdout@), search::lossy_text(stderr@)),
{
    let first = search::lossy(stdout.as_slice());
    let second = search::lossy(stderr.as_slice());
    let mut out = text::trim(first.as_str());
    let err = text::trim(second.as_str());
    if !err.as_str().is_empty() {
        if !out.as_str().is_empty() {
            out.push('\n');
        }
        let ghost before = out@;
        out.append(err.as_str());
        assert(before.len() == 0 ==> before + err@ =~= err@);
    }
    text::truncate(out.as_str(), MAX_HOOK_OUTPUT)
}

/// The seconds after which a hook is stopped.
pub fn hook_timeout(hook: &Hook, settings: &Settings) -> (r: u64)
    ensures
        r == (match hook.timeout_secs {
            Some(secs) => secs,
            None => settings.shell_timeout_secs,
        }),
{
    match hook.timeout_secs {
        Some(secs) => secs,
        None => settings.shell_timeout_secs,
    }
}

} // verus!

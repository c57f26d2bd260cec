//! What holds of signals, evals and requests to the file tools.

use vstd::prelude::*;
use vstd::string::*;

use crate::agent_loop;
use crate::anthropic_laws;
use crate::diff::DiffEntry;
use crate::evals;
use crate::evolve;
use crate::files;
use crate::files::FileOp;
use crate::find;
use crate::insights;
use crate::json;
use crate::model;
use crate::paths;
use crate::provider;
use crate::scores;
use crate::session::Session;
use crate::stream;
use crate::text;

verus! {

/// A result of a tool is a signal exactly where it begins with `DENIED:` or
/// `ERROR:`; it names the session, its directory and time, and the tool that
/// was called. The signals follow the conversation.
pub proof fn law_failed_calls_are_signals(
    session: Session,
    history: Seq<model::MessageView>,
    content: Seq<char>,
    id: Seq<char>,
)
    ensures
        insights::result_signals(session, seq![]) == Seq::<insights::SignalView>::empty(),
        ({
            let before = insights::result_signals(session, history);
            let after = insights::result_signals(
                session,
                history.push(model::MessageView::Tool { content, tool_call_id: id }),
            );
            let denied = find::starts_spec(content, "DENIED:"@);
            let failed = find::starts_spec(content, "ERROR:"@);
            &&& !denied && !failed ==> after == before
            &&& denied || failed ==> {
                &&& after.len() == before.len() + 1
                &&& after.drop_last() == before
                &&& after.last().kind is Denied <==> denied
                &&& after.last().kind is ToolError <==> !denied
                &&& after.last().session_id == session.id@
                &&& after.last().cwd == session.cwd@
                &&& after.last().at == session.updated_at
                &&& after.last().tool == insights::called_name(insights::calls_in(history), id)
            }
        }),
        insights::result_signals(session, history.push(model::MessageView::User { content }))
            == insights::result_signals(session, history),
{
    let m = model::MessageView::Tool { content, tool_call_id: id };
    let u = model::MessageView::User { content };
    assert(history.push(m).drop_last() =~= history);
    assert(history.push(u).drop_last() =~= history);
    let before = insights::result_signals(session, history);
    let after = insights::result_signals(session, history.push(m));
    assert(after.len() > before.len() ==> after.drop_last() =~= before);
}

/// A call is known by its id, the last one with it counting, and the calls of
/// a conversation are all that its turns made.
pub proof fn law_calls_are_known_by_their_id(
    calls: Seq<model::CallView>,
    call: model::CallView,
    history: Seq<model::MessageView>,
    content: Option<Seq<char>>,
    reasoning: Option<json::JsonView>,
    id: Seq<char>,
)
    ensures
        insights::called_name(calls.push(call), call.id) == call.name,
        id != call.id ==> insights::called_name(calls.push(call), id) == insights::called_name(
            calls,
            id,
        ),
        insights::calls_in(
            history.push(
                model::MessageView::Assistant { content, tool_calls: Some(calls), reasoning },
            ),
        ) == insights::calls_in(history) + calls,
{
    assert(calls.push(call).drop_last() =~= calls);
    let m = model::MessageView::Assistant { content, tool_calls: Some(calls), reasoning };
    assert(history.push(m).drop_last() =~= history);
}

/// A change that was taken back is a signal, and no other change is.
pub proof fn law_rolled_back_changes_are_signals(
    session: Session,
    diffs: Seq<DiffEntry>,
    d: DiffEntry,
)
    ensures
        insights::rollback_signals(session, seq![]) == Seq::<insights::SignalView>::empty(),
        ({
            let before = insights::rollback_signals(session, diffs);
            let after = insights::rollback_signals(session, diffs.push(d));
            if d.tool@ == "rewind"@ {
                &&& after.len() == before.len() + 1
                &&& after.drop_last() == before
                &&& after.last().kind is Rollback
                &&& after.last().session_id == session.id@
            } else {
                after == before
            }
        }),
{
    assert(diffs.push(d).drop_last() =~= diffs);
    assert(diffs.push(d).last() == d);
    let before = insights::rollback_signals(session, diffs);
    let after = insights::rollback_signals(session, diffs.push(d));
    assert(after.len() > before.len() ==> after.drop_last() =~= before);
}

/// A session's signals are those of its results and then those of its changes.
pub proof fn law_sessions_give_both_signals(session: Session)
    ensures
        ({
            let a = insights::result_signals(session, model::messages_view(session.history@));
            let b = insights::rollback_signals(session, session.diffs@);
            let all = insights::session_signals(session);
            &&& all.len() == a.len() + b.len()
            &&& all.take(a.len() as int) == a
            &&& all.skip(a.len() as int) == b
        }),
{
    let a = insights::result_signals(session, model::messages_view(session.history@));
    let b = insights::rollback_signals(session, session.diffs@);
    let all = insights::session_signals(session);
    assert(all.take(a.len() as int) =~= a);
    assert(all.skip(a.len() as int) =~= b);
}

// ---------------------------------------------------------------------------
// File tools
// ---------------------------------------------------------------------------

/// A call of a file tool asks for what its arguments say: the path, the text,
/// the anchors and the flags, each under its own name.
pub proof fn law_file_calls_ask_for_what_they_say(
    arguments: json::JsonView,
    path: Seq<char>,
    a: Seq<char>,
    b: Seq<char>,
)
    requires
        anthropic_laws::says(arguments, "path"@, path),
    ensures
        files::request_spec(FileOp::Read, arguments) == Ok::<_, Seq<char>>(
            files::FileRequestView::Read {
                path,
                offset: arguments.count_field("offset"@),
                limit: arguments.count_field("limit"@),
                anchored: false,
            },
        ),
        files::request_spec(FileOp::ReadAnchored, arguments) == Ok::<_, Seq<char>>(
            files::FileRequestView::Read {
                path,
                offset: arguments.count_field("offset"@),
                limit: arguments.count_field("limit"@),
                anchored: true,
            },
        ),
        anthropic_laws::says(arguments, "content"@, a) ==> files::request_spec(
            FileOp::Write,
            arguments,
        ) == Ok::<_, Seq<char>>(files::FileRequestView::Write { path, content: a }),
        anthropic_laws::says(arguments, "old_string"@, a) && anthropic_laws::says(
            arguments,
            "new_string"@,
            b,
        ) ==> files::request_spec(FileOp::Edit, arguments) == Ok::<_, Seq<char>>(
            files::FileRequestView::Edit {
                path,
                old: a,
                new: b,
                all: arguments.field("replace_all"@) == Some(json::JsonView::Bool(true)),
            },
        ),
        anthropic_laws::says(arguments, "first"@, a) && anthropic_laws::says(
            arguments,
            "new_text"@,
            b,
        ) ==> files::request_spec(FileOp::EditLines, arguments) == Ok::<_, Seq<char>>(
            files::FileRequestView::EditLines {
                path,
                first: a,
                last: arguments.text_field("last"@),
                new_text: b,
                insert_after: arguments.field("insert_after"@) == Some(
                    json::JsonView::Bool(true),
                ),
            },
        ),
        files::request_spec(FileOp::List, arguments) == Ok::<_, Seq<char>>(
            files::FileRequestView::List { path },
        ),
        anthropic_laws::says(arguments, "pattern"@, a) ==> files::request_spec(
            FileOp::Grep,
            arguments,
        ) == Ok::<_, Seq<char>>(
            files::FileRequestView::Grep {
                pattern: a,
                path,
                filter: arguments.text_field("glob"@),
            },
        ),
        anthropic_laws::says(arguments, "pattern"@, a) ==> files::request_spec(
            FileOp::Glob,
            arguments,
        ) == Ok::<_, Seq<char>>(files::FileRequestView::Glob { pattern: a }),
        arguments.field("content"@) is None ==> files::request_spec(FileOp::Write, arguments) is Err,
        arguments.field("old_string"@) is None || arguments.field("new_string"@) is None
            ==> files::request_spec(FileOp::Edit, arguments) is Err,
        arguments.field("first"@) is None || arguments.field("new_text"@) is None
            ==> files::request_spec(FileOp::EditLines, arguments) is Err,
        arguments.field("pattern"@) is None ==> files::request_spec(FileOp::Grep, arguments) is Err
            && files::request_spec(FileOp::Glob, arguments) is Err,
{
    reveal_with_fuel(files::absent, 4);
    let w = seq!["path"@, "content"@];
    let e = seq!["path"@, "old_string"@, "new_string"@];
    let l = seq!["path"@, "first"@, "new_text"@];
    let p = seq!["path"@];
    let g = seq!["pattern"@];
    assert(w.skip(1) =~= seq!["content"@]);
    assert(w.skip(1).skip(1) =~= seq![]);
    assert(e.skip(1) =~= seq!["old_string"@, "new_string"@]);
    assert(e.skip(1).skip(1) =~= seq!["new_string"@]);
    assert(e.skip(1).skip(1).skip(1) =~= seq![]);
    assert(l.skip(1) =~= seq!["first"@, "new_text"@]);
    assert(l.skip(1).skip(1) =~= seq!["new_text"@]);
    assert(l.skip(1).skip(1).skip(1) =~= seq![]);
    assert(p.skip(1) =~= seq![]);
    assert(g.skip(1) =~= seq![]);
}

// ---------------------------------------------------------------------------
// Evals
// ---------------------------------------------------------------------------

/// The metrics of a run add up what each model and each scope used, and the
/// total is what went in and what came out.
pub proof fn law_metrics_add_up_the_models<T>(
    rows: Seq<(Seq<char>, T)>,
    row: (Seq<char>, T),
    column: spec_fn(T) -> nat,
    o: scores::OutcomeView,
)
    ensures
        evals::sum_of(seq![], column) == 0,
        evals::sum_of(rows.push(row), column) == evals::sum_of(rows, column) + column(row.1),
        ({
            let m = evals::metrics_spec(o);
            &&& m.passed == o.passed
            &&& m.error == o.error
            &&& m.total_tokens == m.prompt_tokens + m.completion_tokens
            &&& m.prompt_tokens == evals::sum_of(
                o.models,
                |t: scores::ModelTokens| t.prompt_tokens as nat,
            )
            &&& m.completion_tokens == evals::sum_of(
                o.models,
                |t: scores::ModelTokens| t.completion_tokens as nat,
            )
            &&& m.turns == evals::sum_of(o.scopes, |s: scores::ScopeUsage| s.turns as nat)
            &&& m.tool_calls == evals::sum_of(o.scopes, |s: scores::ScopeUsage| s.tool_calls as nat)
            &&& m.wall_ms == o.wall_ms
            &&& m.scopes == o.scopes
        }),
{
    assert(rows.push(row).drop_last() =~= rows);
    assert(rows.push(row).last() == row);
}

/// A report on an eval counts its runs, those that passed, and what they used.
pub proof fn law_reports_count_every_run(
    runs: Seq<evals::MetricsView>,
    run: evals::MetricsView,
    metric: spec_fn(evals::MetricsView) -> nat,
    list: Seq<scores::OutcomeView>,
    name: Seq<char>,
)
    ensures
        evals::passed_runs(runs) == runs.filter(|m: evals::MetricsView| m.passed).len(),
        evals::metric_sum(seq![], metric) == 0,
        evals::metric_sum(runs.push(run), metric) == evals::metric_sum(runs, metric) + metric(run),
        evals::results_of(list, name) == list.filter(|o: scores::OutcomeView| o.name == name),
    decreases runs.len() + list.len(),
{
    reveal(Seq::filter);
    assert(runs.push(run).drop_last() =~= runs);
    assert(runs.push(run).last() == run);
    if runs.len() > 0 {
        law_reports_count_every_run(runs.drop_last(), run, metric, list, name);
    } else if list.len() > 0 {
        law_reports_count_every_run(runs, run, metric, list.drop_last(), name);
    }
}

/// The evals that run are those that the filter names, in order, and all of
/// them where there is no filter.
pub proof fn law_evals_are_chosen_by_name(
    list: Seq<evolve::Eval>,
    eval: evolve::Eval,
    filter: Seq<Seq<char>>,
)
    ensures
        evolve::selected_spec(seq![], filter) == Seq::<int>::empty(),
        evolve::selected_spec(list.push(eval), filter) == if filter.len() == 0 || exists|i: int|
            0 <= i < filter.len() && #[trigger] filter[i] == eval.name@ {
            evolve::selected_spec(list, filter).push(list.len() as int)
        } else {
            evolve::selected_spec(list, filter)
        },
{
    assert(list.push(eval).drop_last() =~= list);
    assert(list.push(eval).last() == eval);
}

// ---------------------------------------------------------------------------
// Proposals
// ---------------------------------------------------------------------------

/// A proposal goes to the target of its name, replaces a prompt whole, and is
/// refused where it is blank or longer than 24000 characters.
pub proof fn law_proposals_replace_their_target(
    id: Seq<char>,
    path: Seq<char>,
    current: Seq<char>,
    content: Seq<char>,
    base: Seq<char>,
)
    ensures
        evolve::applied_spec(
            evolve::TargetView::PromptFile { id, path },
            current,
            content,
        ) == content,
        evolve::backup_spec(evolve::TargetView::PromptFile { id, path }, current) == (
        evolve::BackupView::File { path, content: current }),
        evolve::path_spec(base, evolve::TargetView::PromptFile { id, path }) == path,
        evolve::path_spec(base, evolve::TargetView::Lessons) == paths::under_spec(base, "SOA.md"@),
        evolve::content_fault(content) is None <==> text::trim_spec(content).len() > 0
            && content.len() <= 24_000,
        evolve::target_id(evolve::TargetView::PromptFile { id, path }) == id,
        evolve::target_id(evolve::TargetView::Lessons) == "lessons"@,
{
}

/// The target that is picked is the first of the name.
pub proof fn law_targets_are_found_by_name(
    targets: Seq<evolve::TargetView>,
    id: Seq<char>,
    from: int,
)
    requires
        0 <= from <= targets.len(),
    ensures
        match evolve::target_from(targets, id, from) {
            Some(i) => from <= i < targets.len() && evolve::target_id(targets[i]) == id && (forall|
                j: int,
            |
                from <= j < i ==> evolve::target_id(#[trigger] targets[j]) != id),
            None => forall|j: int|
                from <= j < targets.len() ==> evolve::target_id(#[trigger] targets[j]) != id,
        },
    decreases targets.len() - from,
{
    if from < targets.len() && evolve::target_id(targets[from]) != id {
        law_targets_are_found_by_name(targets, id, from + 1);
    }
}

/// The proposer is told of each eval that is not held out, in order, and of
/// how many are.
pub proof fn law_the_proposer_is_told_of_every_open_eval(
    list: Seq<scores::OutcomeView>,
    o: scores::OutcomeView,
)
    ensures
        evolve::results_spec(seq![]) == Seq::<char>::empty(),
        evolve::results_spec(list.push(o)) == if o.holdout {
            evolve::results_spec(list)
        } else {
            evolve::results_spec(list) + evolve::result_part(o)
        },
        evolve::holdouts_spec(seq![]) == 0,
        evolve::holdouts_spec(list.push(o)) == evolve::holdouts_spec(list) + if o.holdout {
            1nat
        } else {
            0nat
        },
{
    assert(list.push(o).drop_last() =~= list);
}

/// What went wrong in a run is gathered in order: each result that begins with
/// `ERROR` or `DENIED`, under the name of the tool that was called; the turns
/// are those that the model took.
pub proof fn law_failed_results_are_gathered(
    events: Seq<agent_loop::EventView>,
    at: nat,
    content: Seq<char>,
    calls: Seq<model::CallView>,
    said: Option<Seq<char>>,
    usage: Option<model::Usage>,
)
    ensures
        evolve::failures(seq![]) == Seq::<Seq<char>>::empty(),
        ({
            let e = agent_loop::EventView::ToolResult { call_index: at, content };
            let failed = find::starts_spec(content, "ERROR"@) || find::starts_spec(
                content,
                "DENIED"@,
            );
            let tools = evolve::round_tools(events);
            &&& !failed ==> evolve::failures(events.push(e)) == evolve::failures(events)
            &&& failed && at < tools.len() ==> evolve::failures(events.push(e)) == evolve::failures(
                events,
            ).push(tools[at as int].name + ": "@ + text::excerpt_spec(content, 160))
            &&& evolve::turns_spec(events.push(e)) == evolve::turns_spec(events)
            &&& evolve::round_tools(events.push(e)) == tools
        }),
        ({
            let e = agent_loop::EventView::Assistant { content: said, tool_calls: calls, usage };
            &&& evolve::round_tools(events.push(e)) == calls
            &&& evolve::turns_spec(events.push(e)) == evolve::turns_spec(events) + 1
            &&& evolve::failures(events.push(e)) == evolve::failures(events)
        }),
{
    let e = agent_loop::EventView::ToolResult { call_index: at, content };
    let t = agent_loop::EventView::Assistant { content: said, tool_calls: calls, usage };
    assert(events.push(e).drop_last() =~= events);
    assert(events.push(t).drop_last() =~= events);
}

/// What is shown of a long output is its end.
pub proof fn law_tails_keep_the_end(s: Seq<char>, max: nat)
    ensures
        ({
            let line = text::squash_spec(s);
            let shown = evolve::tail_spec(s, max);
            &&& line.len() <= max ==> shown == line
            &&& line.len() > max ==> shown.len() == max + 1 && shown[0] == '…' && shown.skip(1)
                == line.skip(line.len() - max)
        }),
{
    reveal_strlit("…");
    let line = text::squash_spec(s);
    if line.len() > max {
        assert(evolve::tail_spec(s, max).skip(1) =~= line.skip(line.len() - max));
    }
}

/// Every call that streamed in is kept with its id, name and arguments as they
/// came.
pub proof fn law_streamed_calls_are_kept_as_text(slots: Seq<stream::SlotView>)
    ensures
        provider::slot_calls(slots).len() == slots.len(),
        forall|i: int|
            0 <= i < slots.len() ==> (#[trigger] provider::slot_calls(slots)[i]).id == slots[i].id
                && provider::slot_calls(slots)[i].name == slots[i].name && provider::slot_calls(
                slots,
            )[i].arguments == slots[i].arguments,
{
}

} // verus!

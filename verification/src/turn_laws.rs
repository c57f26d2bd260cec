//! What holds of the turns of a loop: what is asked, run, answered and kept.

use vstd::prelude::*;
use vstd::string::*;

use crate::agent_loop;
use crate::config::Config;
use crate::effects::ToolEffect;
use crate::loop_rules;
use crate::model;
use crate::model::Usage;
use crate::text;
use crate::toolset;

verus! {

/// The loop asks the model, runs tools or stops by its state alone: it is over
/// where it has an outcome, runs tools while a round waits, fails once it took
/// all the turns it may take, and else asks.
pub proof fn law_the_loop_goes_on_until_it_answers(
    s: agent_loop::LoopView,
    kind: Seq<char>,
    owner: Seq<char>,
    max_turns: u32,
)
    ensures
        ({
            let next = loop_rules::next_step_spec(s, kind, owner, max_turns);
            &&& next is Done <==> s.finished is Some
            &&& next is RunTools <==> s.finished is None && s.pending is Some
            &&& next is TurnLimit <==> s.finished is None && s.pending is None && s.turns
                >= max_turns
            &&& next is AskModel <==> s.finished is None && s.pending is None && s.turns
                < max_turns
        }),
{
}

/// A log begins with the conversation that it was started with.
pub proof fn law_a_log_begins_with_its_conversation(
    system: Option<Seq<char>>,
    messages: Seq<model::MessageView>,
)
    ensures
        agent_loop::replay_spec(seq![agent_loop::EventView::Started { system, messages }]) == Ok::<
            agent_loop::LoopView,
            agent_loop::ReplayError,
        >(
            agent_loop::LoopView {
                system,
                messages,
                pending: None,
                finished: None,
                turns: 0,
                usage: None,
                started: true,
            },
        ),
        agent_loop::replay_spec(seq![]) is Err,
{
    let log = seq![agent_loop::EventView::Started { system, messages }];
    assert(log.drop_last() =~= seq![]);
    assert(agent_loop::run_log(log.drop_last()) == Ok::<
        agent_loop::LoopView,
        agent_loop::ReplayError,
    >(agent_loop::LoopView::initial()));
}

/// A turn of the model adds its message to the end of the conversation and
/// opens a round in which each of its calls waits for a result. It counts as
/// one turn, and its usage is the latest. A turn without calls, or one before
/// the last round is complete, is refused.
pub proof fn law_a_turn_opens_a_round(
    s: agent_loop::LoopView,
    index: nat,
    content: Option<Seq<char>>,
    calls: Seq<model::CallView>,
    usage: Option<Usage>,
)
    requires
        s.started,
        s.finished is None,
    ensures
        ({
            let r = agent_loop::step(
                s,
                index,
                agent_loop::EventView::Assistant { content, tool_calls: calls, usage },
            );
            &&& s.pending is None && calls.len() > 0 ==> {
                &&& r is Ok
                &&& r->Ok_0.messages.len() == s.messages.len() + 1
                &&& r->Ok_0.messages.take(s.messages.len() as int) == s.messages
                &&& r->Ok_0.messages.last() == (model::MessageView::Assistant {
                    content,
                    tool_calls: Some(calls),
                    reasoning: None,
                })
                &&& r->Ok_0.pending matches Some(round) && round.calls == calls
                    && round.results.len() == calls.len() && round.started.len() == calls.len() && (
                forall|i: int|
                    0 <= i < calls.len() ==> (#[trigger] round.results[i]) is None
                        && !round.started[i])
                &&& s.turns < u32::MAX ==> r->Ok_0.turns == s.turns + 1
                &&& r->Ok_0.usage == usage
                &&& r->Ok_0.system == s.system
                &&& r->Ok_0.finished is None
            }
            &&& calls.len() == 0 ==> r is Err
            &&& (s.pending matches Some(round) && exists|i: int|
                0 <= i < round.results.len() && (#[trigger] round.results[i]) is None) ==> r is Err
        }),
{
    let r = agent_loop::step(
        s,
        index,
        agent_loop::EventView::Assistant { content, tool_calls: calls, usage },
    );
    if s.pending is None && calls.len() > 0 {
        assert(r->Ok_0.messages.take(s.messages.len() as int) =~= s.messages);
    }
}

/// The intent to run a call marks it as begun and nothing else; a result is
/// taken once, for a call that is there. While another result is missing the
/// conversation waits; the last one closes the round, and then each call's
/// result follows in the order of the calls, under the call's id.
pub proof fn law_results_are_recorded_once(
    s: agent_loop::LoopView,
    index: nat,
    at: nat,
    content: Seq<char>,
)
    requires
        s.finished is None,
        s.well_formed(),
    ensures
        ({
            let begun = agent_loop::step(
                s,
                index,
                agent_loop::EventView::ToolStarted { call_index: at },
            );
            let done = agent_loop::step(
                s,
                index,
                agent_loop::EventView::ToolResult { call_index: at, content },
            );
            match s.pending {
                None => begun is Err && done is Err,
                Some(round) => {
                    &&& begun is Ok <==> at < round.calls.len()
                    &&& begun is Ok ==> {
                        &&& begun->Ok_0 == (agent_loop::LoopView {
                            pending: begun->Ok_0.pending,
                            ..s
                        })
                        &&& begun->Ok_0.pending matches Some(next) && next.calls == round.calls
                            && next.results == round.results && next.started
                            == round.started.update(at as int, true)
                    }
                    &&& done is Ok <==> at < round.calls.len() && round.results[at as int] is None
                    &&& done is Ok && (exists|j: int|
                        0 <= j < round.calls.len() && j != at && (#[trigger] round.results[j]) is
                            None) ==> {
                        &&& done->Ok_0.messages == s.messages
                        &&& done->Ok_0.pending matches Some(next) && next.calls == round.calls
                            && next.results == round.results.update(at as int, Some(content))
                            && next.started == round.started
                    }
                    &&& done is Ok && (forall|j: int|
                        0 <= j < round.calls.len() && j != at ==> (#[trigger] round.results[j]) is
                            Some) ==> {
                        &&& done->Ok_0.pending is None
                        &&& done->Ok_0.messages.len() == s.messages.len() + round.calls.len()
                        &&& done->Ok_0.messages.take(s.messages.len() as int) == s.messages
                        &&& forall|j: int|
                            0 <= j < round.calls.len()
                                ==> #[trigger] done->Ok_0.messages[s.messages.len() + j] == (
                            model::MessageView::Tool {
                                content: if j == at {
                                    content
                                } else {
                                    round.results[j]->0
                                },
                                tool_call_id: round.calls[j].id,
                            })
                    }
                    &&& done is Ok ==> {
                        &&& done->Ok_0.turns == s.turns
                        &&& done->Ok_0.usage == s.usage
                        &&& done->Ok_0.system == s.system
                        &&& done->Ok_0.finished is None
                    }
                },
            }
        }),
{
    if s.pending is Some {
        let round = s.pending->0;
        if at < round.calls.len() && round.results[at as int] is None {
            let next = agent_loop::RoundView {
                results: round.results.update(at as int, Some(content)),
                ..round
            };
            if exists|j: int|
                0 <= j < round.calls.len() && j != at && (#[trigger] round.results[j]) is None {
                let j = choose|j: int|
                    0 <= j < round.calls.len() && j != at && (#[trigger] round.results[j]) is None;
                assert(next.results[j] is None);
                assert(!next.complete());
            } else {
                assert forall|j: int| 0 <= j < next.results.len() implies (
                #[trigger] next.results[j]) is Some by {
                    if j != at {
                        assert(round.results[j] is Some);
                    }
                }
                assert(next.complete());
                assert((s.messages + next.answers()).take(s.messages.len() as int) =~= s.messages);
            }
        }
    }
}

/// A final answer ends a loop with no round waiting: it becomes the last
/// message of the conversation and the outcome. Control that is handed on
/// ends it at once and adds no message.
pub proof fn law_an_outcome_ends_the_loop(
    s: agent_loop::LoopView,
    index: nat,
    answer: Seq<char>,
    target: Seq<char>,
    instructions: Seq<char>,
    usage: Option<Usage>,
)
    requires
        s.finished is None,
    ensures
        ({
            let outcome = agent_loop::OutcomeView::Final(answer);
            let r = agent_loop::step(s, index, agent_loop::EventView::Finished { outcome, usage });
            &&& s.pending is None ==> {
                &&& r is Ok
                &&& r->Ok_0.finished == Some(outcome)
                &&& r->Ok_0.usage == usage
                &&& r->Ok_0.messages.len() == s.messages.len() + 1
                &&& r->Ok_0.messages.take(s.messages.len() as int) == s.messages
                &&& r->Ok_0.messages.last() == (model::MessageView::Assistant {
                    content: Some(answer),
                    tool_calls: None,
                    reasoning: None,
                })
                &&& r->Ok_0.turns == s.turns
            }
            &&& (s.pending matches Some(round) && exists|i: int|
                0 <= i < round.results.len() && (#[trigger] round.results[i]) is None) ==> r is Err
        }),
        ({
            let outcome = agent_loop::OutcomeView::Reprompt { target, instructions };
            let r = agent_loop::step(s, index, agent_loop::EventView::Finished { outcome, usage });
            &&& r is Ok
            &&& r->Ok_0.finished == Some(outcome)
            &&& r->Ok_0.messages == s.messages
            &&& r->Ok_0.usage == usage
        }),
{
    let outcome = agent_loop::OutcomeView::Final(answer);
    let r = agent_loop::step(s, index, agent_loop::EventView::Finished { outcome, usage });
    if s.pending is None {
        assert(r->Ok_0.messages.take(s.messages.len() as int) =~= s.messages);
    }
}

/// The tool results behind a place of a conversation.
pub open spec fn results_behind(messages: Seq<model::MessageView>, i: int) -> nat {
    messages.skip(i + 1).filter(|m: model::MessageView| m is Tool).len()
}

proof fn lemma_results_from(messages: Seq<model::MessageView>, from: int)
    requires
        0 <= from <= messages.len(),
    ensures
        agent_loop::results_from(messages, from) == messages.skip(from).filter(
            |m: model::MessageView| m is Tool,
        ).len(),
    decreases messages.len() - from,
{
    let tool = |m: model::MessageView| m is Tool;
    if from < messages.len() {
        lemma_results_from(messages, from + 1);
        assert(messages.skip(from) =~= seq![messages[from]] + messages.skip(from + 1));
        Seq::filter_distributes_over_add(seq![messages[from]], messages.skip(from + 1), tool);
        reveal(Seq::filter);
        assert(seq![messages[from]].drop_last() =~= seq![]);
        assert(Seq::<model::MessageView>::empty().filter(tool) =~= seq![]);
        assert(seq![messages[from]].drop_last().filter(tool) =~= seq![]);
    } else {
        reveal(Seq::filter);
        assert(messages.skip(from) =~= seq![]);
    }
}

/// Whether a message is an old, long tool result that was not cut before.
pub open spec fn old_and_long(messages: Seq<model::MessageView>, keep_recent: nat, i: int) -> bool {
    let marker = "[trimmed: an earlier tool result was truncated to save context]"@;
    messages[i] matches model::MessageView::Tool { content, .. } && results_behind(messages, i)
        >= keep_recent && content.len() > 400 && content.take(marker.len() as int) != marker
}

/// Shedding context cuts exactly the long tool results that have the number of
/// results to be kept behind them: each to its first 200 characters behind a
/// line that says so. Every other message is left as it is, and the number of
/// those that were cut is told.
pub proof fn law_shedding_cuts_old_results(messages: Seq<model::MessageView>, keep_recent: nat)
    ensures
        agent_loop::shed_spec(messages, keep_recent).len() == messages.len(),
        forall|i: int|
            #![trigger agent_loop::shed_spec(messages, keep_recent)[i]]
            0 <= i < messages.len() ==> {
                let after = agent_loop::shed_spec(messages, keep_recent)[i];
                if old_and_long(messages, keep_recent, i) {
                    after == model::MessageView::Tool {
                        content:
                            "[trimmed: an earlier tool result was truncated to save context]"@
                            + "\n"@ + messages[i]->Tool_content.take(200) + "…"@,
                        tool_call_id: messages[i]->tool_call_id,
                    }
                } else {
                    after == messages[i]
                }
            },
        agent_loop::shed_count(messages, keep_recent, 0) == Seq::new(
            messages.len(),
            |i: int| i,
        ).filter(|i: int| old_and_long(messages, keep_recent, i)).len(),
{
    let marker = "[trimmed: an earlier tool result was truncated to save context]"@;
    assert(marker.len() < 400) by {
        reveal_strlit("[trimmed: an earlier tool result was truncated to save context]");
    }
    assert forall|i: int| 0 <= i < messages.len() implies #[trigger] agent_loop::shed_at(
        messages,
        keep_recent,
        i,
    ) == old_and_long(messages, keep_recent, i) by {
        lemma_results_from(messages, i + 1);
    }
    lemma_shed_count(messages, keep_recent, 0);
    assert(Seq::new(messages.len(), |i: int| i).skip(0) =~= Seq::new(messages.len(), |i: int| i));
}

proof fn lemma_shed_count(messages: Seq<model::MessageView>, keep_recent: nat, from: int)
    requires
        0 <= from <= messages.len(),
        forall|i: int|
            0 <= i < messages.len() ==> #[trigger] agent_loop::shed_at(messages, keep_recent, i)
                == old_and_long(messages, keep_recent, i),
    ensures
        agent_loop::shed_count(messages, keep_recent, from) == Seq::new(
            messages.len(),
            |i: int| i,
        ).skip(from).filter(|i: int| old_and_long(messages, keep_recent, i)).len(),
    decreases messages.len() - from,
{
    let all = Seq::new(messages.len(), |i: int| i);
    let old_one = |i: int| old_and_long(messages, keep_recent, i);
    reveal(Seq::filter);
    if from < messages.len() {
        lemma_shed_count(messages, keep_recent, from + 1);
        assert(all.skip(from) =~= seq![from] + all.skip(from + 1));
        Seq::filter_distributes_over_add(seq![from], all.skip(from + 1), old_one);
        assert(seq![from].drop_last() =~= seq![]);
        assert(Seq::<int>::empty().filter(old_one) =~= seq![]);
        assert(seq![from].drop_last().filter(old_one) =~= seq![]);
        assert(seq![from].last() == from);
        assert(agent_loop::shed_at(messages, keep_recent, from) == old_one(from));
    } else {
        assert(all.skip(from) =~= seq![]);
    }
}

/// A call finds the tool that was added last under its name, and none where no
/// tool has the name.
pub proof fn law_calls_find_their_tool(tools: Seq<toolset::ToolView>, name: Seq<char>)
    ensures
        match loop_rules::tool_named(tools, name) {
            Some(i) => 0 <= i < tools.len() && tools[i].definition.name == name && (forall|j: int|
                i < j < tools.len() ==> (#[trigger] tools[j]).definition.name != name),
            None => forall|j: int|
                0 <= j < tools.len() ==> (#[trigger] tools[j]).definition.name != name,
        },
    decreases tools.len(),
{
    if tools.len() > 0 && tools.last().definition.name != name {
        let fewer = tools.drop_last();
        law_calls_find_their_tool(fewer, name);
        match loop_rules::tool_named(fewer, name) {
            Some(i) => {
                assert(fewer[i] == tools[i]);
                assert forall|j: int| i < j < tools.len() implies (
                #[trigger] tools[j]).definition.name != name by {
                    if j < fewer.len() {
                        assert(fewer[j] == tools[j]);
                    }
                }
            },
            None => {
                assert forall|j: int| 0 <= j < tools.len() implies (
                #[trigger] tools[j]).definition.name != name by {
                    if j < fewer.len() {
                        assert(fewer[j] == tools[j]);
                    }
                }
            },
        }
    }
}

/// The calls that are run are exactly those without a result, in the order of
/// the round.
pub proof fn law_calls_without_a_result_are_run(round: agent_loop::RoundView, n: int)
    requires
        0 <= n <= round.results.len(),
    ensures
        ({
            let missing = loop_rules::missing_from(round, n);
            &&& forall|i: int|
                #![trigger round.results[i]]
                0 <= i < n ==> (missing.contains(i as nat) <==> round.results[i] is None)
            &&& forall|k: int|
                0 <= k < missing.len() ==> #[trigger] missing[k] < n
                    && round.results[missing[k] as int] is None
            &&& forall|k: int, l: int|
                0 <= k < l < missing.len() ==> #[trigger] missing[k] < #[trigger] missing[l]
        }),
    decreases n,
{
    if n > 0 {
        law_calls_without_a_result_are_run(round, n - 1);
        let fewer = loop_rules::missing_from(round, n - 1);
        let missing = loop_rules::missing_from(round, n);
        assert forall|i: int|
            #![trigger round.results[i]]
            0 <= i < n implies (missing.contains(i as nat) <==> round.results[i] is None) by {
            if round.results[n - 1] is None {
                assert(missing[missing.len() - 1] == (n - 1) as nat);
                if i < n - 1 {
                    if fewer.contains(i as nat) {
                        let k = choose|k: int| 0 <= k < fewer.len() && fewer[k] == i as nat;
                        assert(missing[k] == i as nat);
                    }
                    if missing.contains(i as nat) {
                        let k = choose|k: int| 0 <= k < missing.len() && missing[k] == i as nat;
                        assert(fewer[k] == i as nat);
                    }
                }
            } else if i == n - 1 && missing.contains(i as nat) {
                let k = choose|k: int| 0 <= k < missing.len() && missing[k] == i as nat;
                assert(fewer[k] < n - 1);
            }
        }
    }
}

/// Calls run beside each other exactly where that is switched on, two at least
/// are missing, and every tool that they name is there, neither writes, runs a
/// process nor changes things outside, and needs no approval.
pub proof fn law_only_harmless_rounds_run_in_parallel(
    enabled: bool,
    round: agent_loop::RoundView,
    tools: Seq<toolset::ToolView>,
    require_approval: bool,
    listed: Seq<ToolEffect>,
)
    requires
        round.well_formed(),
    ensures
        loop_rules::parallel_spec(enabled, round, tools, require_approval, listed) <==> {
            &&& enabled
            &&& loop_rules::missing_from(round, round.calls.len() as int).len() >= 2
            &&& forall|i: int|
                0 <= i < round.calls.len() && (#[trigger] round.results[i]) is None ==> {
                    &&& loop_rules::tool_named(tools, round.calls[i].name) matches Some(t) && {
                        let own = tools[t].effects;
                        &&& !own.contains(ToolEffect::FilesystemWrite)
                        &&& !own.contains(ToolEffect::ProcessExecute)
                        &&& !own.contains(ToolEffect::ExternalMutation)
                        &&& require_approval ==> forall|k: int|
                            0 <= k < listed.len() ==> !own.contains(#[trigger] listed[k])
                    }
                }
        },
{
    let missing = loop_rules::missing_from(round, round.calls.len() as int);
    law_calls_without_a_result_are_run(round, round.calls.len() as int);
    if loop_rules::parallel_spec(enabled, round, tools, require_approval, listed) {
        assert forall|i: int|
            0 <= i < round.calls.len() && (#[trigger] round.results[i]) is None implies {
            &&& loop_rules::tool_named(tools, round.calls[i].name) matches Some(t) && {
                let own = tools[t].effects;
                &&& !own.contains(ToolEffect::FilesystemWrite)
                &&& !own.contains(ToolEffect::ProcessExecute)
                &&& !own.contains(ToolEffect::ExternalMutation)
                &&& require_approval ==> forall|k: int|
                    0 <= k < listed.len() ==> !own.contains(#[trigger] listed[k])
            }
        } by {
            assert(missing.contains(i as nat));
            let k = choose|k: int| 0 <= k < missing.len() && missing[k] == i as nat;
            assert(loop_rules::safe_beside(
                tools,
                round.calls[missing[k] as int].name,
                require_approval,
                listed,
            ) == Some(true));
        }
    }
    if enabled && missing.len() >= 2 && (forall|i: int|
        0 <= i < round.calls.len() && (#[trigger] round.results[i]) is None ==> {
            &&& loop_rules::tool_named(tools, round.calls[i].name) matches Some(t) && {
                let own = tools[t].effects;
                &&& !own.contains(ToolEffect::FilesystemWrite)
                &&& !own.contains(ToolEffect::ProcessExecute)
                &&& !own.contains(ToolEffect::ExternalMutation)
                &&& require_approval ==> forall|k: int|
                    0 <= k < listed.len() ==> !own.contains(#[trigger] listed[k])
            }
        }) {
        assert forall|k: int| 0 <= k < missing.len() implies loop_rules::safe_beside(
            tools,
            round.calls[#[trigger] missing[k] as int].name,
            require_approval,
            listed,
        ) == Some(true) by {
            assert(round.results[missing[k] as int] is None);
        }
    }
}

/// What becomes of a call: one that hands control on where there are targets
/// ends the loop or is told what is wrong; one that names no tool is told so;
/// one of a tool that changes things is not run again once it was begun; every
/// other one runs, and its intent is noted first exactly where its tool can
/// change things.
pub proof fn law_calls_are_planned_by_their_tool(
    round: agent_loop::RoundView,
    index: int,
    tools: Seq<toolset::ToolView>,
    targets: Seq<Seq<char>>,
    t: int,
)
    requires
        round.well_formed(),
        0 <= index < round.calls.len(),
    ensures
        ({
            let plan = loop_rules::plan_spec(round, index, tools, targets);
            let call = round.calls[index];
            let routes = call.name == "reprompt_stage"@ && targets.len() > 0;
            &&& routes <==> plan is Finish || (plan matches loop_rules::PlanView::Answer {
                notice,
                ..
            } && notice is None)
            &&& !routes && loop_rules::tool_named(tools, call.name) is None <==> plan is Unknown
            &&& !routes && loop_rules::tool_named(tools, call.name) == Some(t) ==> {
                let own = tools[t].effects;
                let changes = own.contains(ToolEffect::FilesystemWrite) || own.contains(
                    ToolEffect::ProcessExecute,
                ) || own.contains(ToolEffect::ExternalMutation);
                if changes && round.started[index] {
                    plan is Answer
                } else {
                    plan == loop_rules::PlanView::Execute { tool: t, intent: changes }
                }
            }
        }),
{
}

/// Every tool's own definition is offered, in order; the tool that hands
/// control on comes last, and only where there are targets.
pub proof fn law_every_tool_is_offered(tools: Seq<toolset::ToolView>, targets: Seq<Seq<char>>)
    ensures
        ({
            let all = loop_rules::offered(tools, targets);
            &&& all.len() == tools.len() + if targets.len() > 0 {
                1nat
            } else {
                0nat
            }
            &&& forall|i: int|
                0 <= i < tools.len() ==> #[trigger] all[i] == tools[i].definition
            &&& targets.len() > 0 ==> all.last().name == "reprompt_stage"@
        }),
{
}

/// A reply without calls ends the loop with its content, behind which a
/// warning stands where the provider cut it short. A reply with calls is
/// logged as it came, and the context is shed before it only where the window
/// fills and there is something to shed.
pub proof fn law_replies_are_logged_as_they_came(
    messages: Seq<model::MessageView>,
    content: Option<Seq<char>>,
    calls: Seq<model::CallView>,
    usage: Option<Usage>,
    truncation: Option<Seq<char>>,
    pressure: Option<(u64, u64)>,
)
    ensures
        ({
            let events = loop_rules::reply_events(
                messages,
                content,
                calls,
                usage,
                truncation,
                pressure,
            );
            let said = match content {
                Some(s) => s,
                None => Seq::<char>::empty(),
            };
            &&& calls.len() == 0 ==> events.len() == 1 && (events[0] matches
                agent_loop::EventView::Finished { outcome, usage: counted } && counted == usage && (
            outcome matches agent_loop::OutcomeView::Final(answer) && said.is_prefix_of(answer) && (
            truncation is None ==> answer == said) && (truncation is Some ==> answer.len()
                > said.len())))
            &&& calls.len() > 0 ==> events.len() <= 2 && events.last() == (
            agent_loop::EventView::Assistant { content, tool_calls: calls, usage })
            &&& calls.len() > 0 ==> (events.len() == 2 <==> pressure is Some
                && agent_loop::shed_spec(messages, 2) != messages)
            &&& calls.len() > 0 && events.len() == 2 ==> events[0] == (
            agent_loop::EventView::ContextShed { keep_recent: 2 })
        }),
{
    reveal_strlit("\n\n[warning: this response was truncated by the provider (");
    reveal_strlit(") and is incomplete]");
    let said = match content {
        Some(s) => s,
        None => Seq::<char>::empty(),
    };
    let answer = loop_rules::answer_spec(content, truncation);
    assert(answer.take(said.len() as int) =~= said);
    assert(answer.subrange(0, said.len() as int) =~= said);
    lemma_shed_changes(messages, 2, 0);
    assert(agent_loop::shed_spec(messages, 2) =~= messages <==> agent_loop::shed_count(
        messages,
        2,
        0,
    ) == 0) by {
        if agent_loop::shed_count(messages, 2, 0) == 0 {
            assert forall|i: int| 0 <= i < messages.len() implies agent_loop::shed_spec(
                messages,
                2,
            )[i] == messages[i] by {
                assert(!agent_loop::shed_at(messages, 2, i));
            }
        }
        if agent_loop::shed_spec(messages, 2) =~= messages {
            assert forall|i: int| 0 <= i < messages.len() implies !#[trigger] agent_loop::shed_at(
                messages,
                2,
                i,
            ) by {
                assert(agent_loop::shed_spec(messages, 2)[i] == messages[i]);
                if agent_loop::shed_at(messages, 2, i) {
                    lemma_shortened_differs(messages[i]->Tool_content);
                }
            }
        }
    }
}

proof fn lemma_shortened_differs(content: Seq<char>)
    requires
        agent_loop::sheddable(content),
    ensures
        agent_loop::shortened(content) != content,
{
    let marker = agent_loop::trim_marker();
    let cut = agent_loop::shortened(content);
    assert(cut.take(marker.len() as int) =~= marker);
}

proof fn lemma_shed_changes(messages: Seq<model::MessageView>, keep_recent: nat, from: int)
    requires
        0 <= from <= messages.len(),
    ensures
        agent_loop::shed_count(messages, keep_recent, from) == 0 <==> forall|i: int|
            from <= i < messages.len() ==> !#[trigger] agent_loop::shed_at(
                messages,
                keep_recent,
                i,
            ),
    decreases messages.len() - from,
{
    if from < messages.len() {
        lemma_shed_changes(messages, keep_recent, from + 1);
        if agent_loop::shed_count(messages, keep_recent, from) == 0 {
            assert forall|i: int| from <= i < messages.len() implies !#[trigger] agent_loop::shed_at(
                messages,
                keep_recent,
                i,
            ) by {
                if i == from {
                }
            }
        }
    }
}

/// A preview is the start of the first line, a hundred characters at most.
pub proof fn law_previews_are_a_line_long(line: Seq<char>, rest: Seq<char>)
    requires
        !line.contains('\n'),
        !(line.len() > 0 && line.last() == '\r'),
    ensures
        loop_rules::preview_spec(line + seq!['\n'] + rest).len() == if line.len() <= 100 {
            line.len()
        } else {
            100
        },
        loop_rules::preview_spec(line + seq!['\n'] + rest).is_prefix_of(line),
        line.len() > 0 ==> loop_rules::preview_spec(line) == loop_rules::preview_spec(
            line + seq!['\n'] + rest,
        ),
{
    crate::splitting_laws::law_lines_end_at_line_feeds(line, rest);
    let all = text::lines_spec(line + seq!['\n'] + rest);
    assert(all[0] == line);
    let shown = loop_rules::preview_spec(line + seq!['\n'] + rest);
    assert(shown =~= line.subrange(0, shown.len() as int));
}

/// How full the window is: what was sent and what came back, of what the model
/// can take; nothing is known without a report or a limit.
pub proof fn law_the_window_holds_prompt_and_answer(
    config: Config,
    name: Seq<char>,
    usage: Usage,
    capacity: u64,
)
    requires
        usage.prompt_tokens + usage.completion_tokens <= u64::MAX,
        config.models.has_name(name),
    ensures
        config.models.at(name).context_tokens == Some(capacity) ==> loop_rules::context_use_spec(
            config,
            name,
            Some(usage),
        ) == Some(((usage.prompt_tokens + usage.completion_tokens) as u64, capacity)),
        config.models.at(name).context_tokens is None ==> loop_rules::context_use_spec(
            config,
            name,
            Some(usage),
        ) is None,
        loop_rules::context_use_spec(config, name, None) is None,
{
}

} // verus!

//! What holds of every log of the model/tool loop: conversations stay valid
//! for the model, whatever order results come in and wherever a log ends.

use vstd::prelude::*;
use vstd::string::*;

use crate::agent_loop;
use crate::agent_loop::{AgentLoopEvent, ReplayError};
use crate::model;
use crate::model::Message;

verus! {

// ---------------------------------------------------------------------------
// Valid conversations
// ---------------------------------------------------------------------------

/// The identifiers of calls.
pub open spec fn call_ids(calls: Seq<model::CallView>) -> Seq<Seq<char>> {
    Seq::new(calls.len(), |i: int| calls[i].id)
}

/// The calls that a conversation leaves unanswered, in order; none where it
/// breaks the protocol: the results of a turn's calls follow it at once and
/// in the order of the calls.
pub open spec fn outstanding(messages: Seq<model::MessageView>) -> Option<Seq<Seq<char>>>
    decreases messages.len(),
{
    if messages.len() == 0 {
        Some(seq![])
    } else {
        match outstanding(messages.drop_last()) {
            None => None,
            Some(ids) => match messages.last() {
                model::MessageView::Tool { tool_call_id, .. } => if ids.len() > 0 && ids[0]
                    == tool_call_id {
                    Some(ids.skip(1))
                } else {
                    None
                },
                model::MessageView::Assistant { tool_calls: Some(calls), .. } => if ids.len()
                    == 0 {
                    Some(call_ids(calls))
                } else {
                    None
                },
                _ => if ids.len() == 0 {
                    Some(ids)
                } else {
                    None
                },
            },
        }
    }
}

/// Whether a conversation may be sent to a model: every call is answered.
pub open spec fn conversation_valid(messages: Seq<model::MessageView>) -> bool {
    outstanding(messages) == Some(Seq::<Seq<char>>::empty())
}

proof fn lemma_push(messages: Seq<model::MessageView>, m: model::MessageView)
    ensures
        messages.push(m).drop_last() == messages,
        messages.push(m).last() == m,
{
    assert(messages.push(m).drop_last() =~= messages);
}

/// Answering calls in order uses them up in order.
proof fn lemma_answers(
    messages: Seq<model::MessageView>,
    calls: Seq<model::CallView>,
    answers: Seq<model::MessageView>,
    k: int,
)
    requires
        outstanding(messages) == Some(call_ids(calls)),
        answers.len() == calls.len(),
        forall|i: int|
            0 <= i < answers.len() ==> (#[trigger] answers[i]) is Tool && answers[i]->tool_call_id
                == calls[i].id,
        0 <= k <= calls.len(),
    ensures
        outstanding(messages + answers.take(k)) == Some(call_ids(calls).skip(k)),
    decreases k,
{
    if k == 0 {
        assert(messages + answers.take(0) =~= messages);
        assert(call_ids(calls).skip(0) =~= call_ids(calls));
    } else {
        lemma_answers(messages, calls, answers, k - 1);
        let longer = messages + answers.take(k);
        assert(longer.drop_last() =~= messages + answers.take(k - 1));
        assert(longer.last() == answers[k - 1]);
        let ids = call_ids(calls);
        assert(ids.skip(k - 1)[0] == calls[k - 1].id);
        assert(ids.skip(k - 1).skip(1) =~= ids.skip(k));
    }
}

/// Whether two conversations differ in nothing but the texts of tool
/// results.
pub open spec fn same_shape(a: Seq<model::MessageView>, b: Seq<model::MessageView>) -> bool {
    &&& a.len() == b.len()
    &&& forall|i: int|
        #![trigger a[i]]
        #![trigger b[i]]
        0 <= i < a.len() ==> a[i] == b[i] || (a[i] is Tool && b[i] is Tool && a[i]->tool_call_id
            == b[i]->tool_call_id)
}

proof fn lemma_same_shape(a: Seq<model::MessageView>, b: Seq<model::MessageView>)
    requires
        same_shape(a, b),
    ensures
        outstanding(a) == outstanding(b),
    decreases a.len(),
{
    if a.len() > 0 {
        lemma_same_shape(a.drop_last(), b.drop_last());
        assert(a.last() == a[a.len() - 1]);
    }
}

/// Shedding context leaves a conversation as valid as it was.
pub proof fn law_shedding_keeps_the_protocol(messages: Seq<model::MessageView>, keep_recent: nat)
    ensures
        outstanding(agent_loop::shed_spec(messages, keep_recent)) == outstanding(messages),
{
    lemma_same_shape(agent_loop::shed_spec(messages, keep_recent), messages);
}

/// What every replayed state keeps: a round that is pending is not complete,
/// and its calls are exactly the unanswered ones; else none is unanswered.
pub open spec fn state_valid(s: agent_loop::LoopView) -> bool {
    match s.pending {
        Some(round) => round.well_formed() && !round.complete() && outstanding(s.messages)
            == Some(call_ids(round.calls)),
        None => conversation_valid(s.messages),
    }
}

/// Whether an event starts a log, if it does, with a valid conversation.
pub open spec fn starts_valid(e: agent_loop::EventView) -> bool {
    e matches agent_loop::EventView::Started { messages, .. } ==> conversation_valid(messages)
}

/// Each event keeps a state valid.
pub proof fn law_events_keep_states_valid(
    s: agent_loop::LoopView,
    index: nat,
    event: agent_loop::EventView,
)
    requires
        state_valid(s),
        starts_valid(event),
        !s.started ==> s.pending is None,
        agent_loop::step(s, index, event) is Ok,
    ensures
        state_valid(agent_loop::step(s, index, event)->Ok_0),
        !agent_loop::step(s, index, event)->Ok_0.started ==> agent_loop::step(
            s,
            index,
            event,
        )->Ok_0.pending is None,
{
    let next = agent_loop::step(s, index, event)->Ok_0;
    match event {
        agent_loop::EventView::Started { system, messages } => {},
        agent_loop::EventView::ContextShed { keep_recent } => {
            law_shedding_keeps_the_protocol(s.messages, keep_recent);
        },
        agent_loop::EventView::Assistant { content, tool_calls, usage } => {
            let m = model::MessageView::Assistant {
                content,
                tool_calls: Some(tool_calls),
                reasoning: None,
            };
            lemma_push(s.messages, m);
            assert(agent_loop::RoundView::fresh(tool_calls).results[0] is None);
        },
        agent_loop::EventView::ToolStarted { call_index } => {
            let round = s.pending->0;
            let missing = choose|i: int|
                0 <= i < round.results.len() && #[trigger] round.results[i] is None;
            assert(next.pending->0.results[missing] is None);
        },
        agent_loop::EventView::ToolResult { call_index, content } => {
            let round = s.pending->0;
            let filled = agent_loop::RoundView {
                results: round.results.update(call_index as int, Some(content)),
                ..round
            };
            if filled.complete() {
                let answers = filled.answers();
                lemma_answers(s.messages, round.calls, answers, answers.len() as int);
                assert(answers.take(answers.len() as int) =~= answers);
                assert(call_ids(round.calls).skip(answers.len() as int) =~= seq![]);
            }
        },
        agent_loop::EventView::UserMessage { content } => {
            lemma_push(s.messages, model::MessageView::User { content });
        },
        agent_loop::EventView::Finished { outcome, usage } => match outcome {
            agent_loop::OutcomeView::Final(content) => {
                lemma_push(
                    s.messages,
                    model::MessageView::Assistant {
                        content: Some(content),
                        tool_calls: None,
                        reasoning: None,
                    },
                );
            },
            agent_loop::OutcomeView::Reprompt { target, instructions } => {},
        },
    }
}

/// Every log that can be replayed and starts with a valid conversation
/// replays to a valid state.
pub proof fn law_replayed_states_are_valid(events: Seq<agent_loop::EventView>)
    requires
        agent_loop::run_log(events) is Ok,
        forall|i: int| 0 <= i < events.len() ==> starts_valid(#[trigger] events[i]),
    ensures
        state_valid(agent_loop::run_log(events)->Ok_0),
        !agent_loop::run_log(events)->Ok_0.started ==> agent_loop::run_log(
            events,
        )->Ok_0.pending is None,
    decreases events.len(),
{
    if events.len() > 0 {
        let shorter = events.drop_last();
        assert forall|i: int| 0 <= i < shorter.len() implies starts_valid(#[trigger] shorter[i]) by {
            assert(shorter[i] == events[i]);
        }
        law_replayed_states_are_valid(shorter);
        assert(starts_valid(events[events.len() - 1]));
        law_events_keep_states_valid(
            agent_loop::run_log(shorter)->Ok_0,
            (events.len() - 1) as nat,
            events.last(),
        );
    }
}

// ---------------------------------------------------------------------------
// Beginnings and ends
// ---------------------------------------------------------------------------

/// A log that can be replayed can be replayed from any beginning of it: a
/// run may stop anywhere.
pub proof fn law_prefixes_replay(events: Seq<agent_loop::EventView>, n: int)
    requires
        agent_loop::run_log(events) is Ok,
        0 <= n <= events.len(),
    ensures
        agent_loop::run_log(events.take(n)) is Ok,
    decreases events.len() - n,
{
    if n == events.len() {
        assert(events.take(n) =~= events);
    } else {
        law_prefixes_replay(events, n + 1);
        assert(events.take(n + 1).drop_last() =~= events.take(n));
    }
}

/// Nothing follows the end: a log that has finished takes no further event.
pub proof fn law_finished_logs_are_closed(
    events: Seq<agent_loop::EventView>,
    event: agent_loop::EventView,
)
    requires
        agent_loop::run_log(events) matches Ok(s) && s.finished is Some,
    ensures
        agent_loop::run_log(events.push(event)) == Err::<agent_loop::LoopView, ReplayError>(
            ReplayError::AfterFinished,
        ),
{
    assert(events.push(event).drop_last() =~= events);
}

/// The events of messages from the user.
pub open spec fn user_events(texts: Seq<Seq<char>>) -> Seq<agent_loop::EventView> {
    Seq::new(texts.len(), |i: int| agent_loop::EventView::UserMessage { content: texts[i] })
}

/// Messages from the user.
pub open spec fn user_messages(texts: Seq<Seq<char>>) -> Seq<model::MessageView> {
    Seq::new(texts.len(), |i: int| model::MessageView::User { content: texts[i] })
}

/// Steering a loop that goes on and has no call waiting adds the user's
/// messages to the end of the conversation, in their order, and changes
/// nothing else.
pub proof fn law_steering_is_delivered(
    events: Seq<agent_loop::EventView>,
    texts: Seq<Seq<char>>,
)
    requires
        agent_loop::run_log(events) matches Ok(s) && s.finished is None && s.pending is None,
    ensures
        ({
            let s = agent_loop::run_log(events)->Ok_0;
            agent_loop::run_log(events + user_events(texts)) == Ok::<
                agent_loop::LoopView,
                ReplayError,
            >((agent_loop::LoopView { messages: s.messages + user_messages(texts), ..s }))
        }),
    decreases texts.len(),
{
    let s = agent_loop::run_log(events)->Ok_0;
    if texts.len() == 0 {
        assert(events + user_events(texts) =~= events);
        assert(s.messages + user_messages(texts) =~= s.messages);
    } else {
        let fewer = texts.drop_last();
        law_steering_is_delivered(events, fewer);
        let all = events + user_events(texts);
        assert(all.drop_last() =~= events + user_events(fewer));
        assert(all.last() == (agent_loop::EventView::UserMessage { content: texts.last() }));
        assert((s.messages + user_messages(fewer)).push(
            model::MessageView::User { content: texts.last() },
        ) =~= s.messages + user_messages(texts));
    }
}

// ---------------------------------------------------------------------------
// Cancelled loops
// ---------------------------------------------------------------------------

/// The result that stands in for one that a cancelled call did not give.
pub const CANCELLED_TEXT: &'static str = "The user cancelled the turn before this tool call finished; it may or may not have taken effect.";

/// The results that close a round, in the order of the calls.
pub open spec fn closing(round: agent_loop::RoundView) -> Seq<model::MessageView> {
    Seq::new(
        round.calls.len(),
        |i: int|
            model::MessageView::Tool {
                content: match round.results[i] {
                    Some(content) => content,
                    None => CANCELLED_TEXT@,
                },
                tool_call_id: round.calls[i].id,
            },
    )
}

/// The conversation that a cancelled loop had come to.
pub open spec fn salvage_spec(events: Seq<agent_loop::EventView>) -> Result<
    Option<Seq<model::MessageView>>,
    ReplayError,
> {
    if events.len() == 0 {
        Ok(None)
    } else {
        match agent_loop::replay_spec(events) {
            Err(e) => Err(e),
            Ok(s) => Ok(
                Some(
                    match s.pending {
                        Some(round) => s.messages + closing(round),
                        None => s.messages,
                    },
                ),
            ),
        }
    }
}

/// Rebuild the conversation of a cancelled or failed loop, so that finished
/// tool rounds survive into the caller's history: their effects have
/// happened. An incomplete last round is closed with stand-in results.
/// Nothing comes of a log with no event.
pub fn salvage_cancelled_loop(events: &Vec<AgentLoopEvent>) -> (r: Result<
    Option<Vec<Message>>,
    ReplayError,
>)
    ensures
        ({
            let expected = salvage_spec(agent_loop::events_view(events@));
            match r {
                Ok(Some(messages)) => expected == Ok::<
                    Option<Seq<model::MessageView>>,
                    ReplayError,
                >(Some(model::messages_view(messages@))),
                Ok(None) => expected == Ok::<Option<Seq<model::MessageView>>, ReplayError>(None),
                Err(e) => expected == Err::<Option<Seq<model::MessageView>>, ReplayError>(e),
            }
        }),
{
    assert(agent_loop::events_view(events@).len() == events@.len());
    if events.len() == 0 {
        return Ok(None);
    }
    let replayed = match agent_loop::replay_agent_loop(events) {
        Ok(state) => state,
        Err(e) => {
            return Err(e);
        },
    };
    let ghost state = replayed@;
    let mut messages = replayed.messages;
    match replayed.pending {
        Some(round) => {
            let ghost start = model::messages_view(messages@);
            let ghost view = round@;
            let ghost all = closing(view);
            let mut i: usize = 0;
            assert(start + all.take(0) =~= start);
            while i < round.calls.len()
                invariant
                    i <= round.calls@.len(),
                    view == round@,
                    view.well_formed(),
                    view.calls.len() == round.calls@.len(),
                    all == closing(view),
                    model::messages_view(messages@) == start + all.take(i as int),
                decreases round.calls@.len() - i,
            {
                assert(view.results[i as int] == model::option_text(round.results@[i as int]));
                let content = match &round.results[i] {
                    Some(content) => content.clone(),
                    None => CANCELLED_TEXT.to_owned(),
                };
                let message = Message::Tool { content, tool_call_id: round.calls[i].id.clone() };
                assert(message@ == all[i as int]);
                let ghost before = messages@;
                messages.push(message);
                assert(model::messages_view(messages@) =~= model::messages_view(before).push(
                    message@,
                ));
                assert(start + all.take(i + 1) =~= (start + all.take(i as int)).push(
                    all[i as int],
                ));
                i = i + 1;
            }
            assert(all.take(all.len() as int) =~= all);
            Ok(Some(messages))
        },
        None => Ok(Some(messages)),
    }
}

/// What is salvaged of a cancelled loop may be sent to a model: every call
/// in it is answered.
pub proof fn law_salvaged_conversations_are_valid(events: Seq<agent_loop::EventView>)
    requires
        forall|i: int| 0 <= i < events.len() ==> starts_valid(#[trigger] events[i]),
        salvage_spec(events) matches Ok(Some(_)),
    ensures
        conversation_valid(salvage_spec(events)->Ok_0->0),
{
    law_replayed_states_are_valid(events);
    let s = agent_loop::run_log(events)->Ok_0;
    match s.pending {
        Some(round) => {
            let answers = closing(round);
            lemma_answers(s.messages, round.calls, answers, answers.len() as int);
            assert(answers.take(answers.len() as int) =~= answers);
            assert(call_ids(round.calls).skip(answers.len() as int) =~= seq![]);
        },
        None => {},
    }
}

} // verus!

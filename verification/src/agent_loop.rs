//! The model/tool loop: its append-only event log, the replay of that log,
//! and the decisions between one event and the next.

use vstd::prelude::*;
use vstd::string::*;

use crate::find;
use crate::model;
use crate::model::{Message, ToolCall, Usage};
use crate::numbers;

verus! {

// ---------------------------------------------------------------------------
// Events
// ---------------------------------------------------------------------------

/// How a stage finished: with a final answer, or by handing control to
/// another stage.
pub enum StageOutcome {
    Final(String),
    Reprompt { target: String, instructions: String },
}

/// What an outcome stands for.
pub enum OutcomeView {
    Final(Seq<char>),
    Reprompt { target: Seq<char>, instructions: Seq<char> },
}

impl View for StageOutcome {
    type V = OutcomeView;

    open spec fn view(&self) -> OutcomeView {
        match self {
            StageOutcome::Final(s) => OutcomeView::Final(s@),
            StageOutcome::Reprompt { target, instructions } => OutcomeView::Reprompt {
                target: target@,
                instructions: instructions@,
            },
        }
    }
}

impl Clone for StageOutcome {
    fn clone(&self) -> (r: StageOutcome)
        ensures
            r@ == self@,
    {
        match self {
            StageOutcome::Final(s) => StageOutcome::Final(s.clone()),
            StageOutcome::Reprompt { target, instructions } => StageOutcome::Reprompt {
                target: target.clone(),
                instructions: instructions.clone(),
            },
        }
    }
}

/// Append-only events of the model/tool loop. A checkpoint holds those of
/// the active stage and replays them on resume.
#[allow(inconsistent_fields)]
pub enum AgentLoopEvent {
    Started { system: Option<String>, messages: Vec<Message> },
    ContextShed { keep_recent: usize },
    Assistant { content: Option<String>, tool_calls: Vec<ToolCall>, usage: Option<Usage> },
    /// Written just before a mutating or process-executing call runs. On
    /// resume, a started call with no recorded result is not run again.
    ToolStarted { call_index: usize },
    ToolResult { call_index: usize, content: String },
    UserMessage { content: String },
    Finished { outcome: StageOutcome, usage: Option<Usage> },
}

/// What an event stands for.
#[allow(inconsistent_fields)]
pub enum EventView {
    Started { system: Option<Seq<char>>, messages: Seq<model::MessageView> },
    ContextShed { keep_recent: nat },
    Assistant {
        content: Option<Seq<char>>,
        tool_calls: Seq<model::CallView>,
        usage: Option<Usage>,
    },
    ToolStarted { call_index: nat },
    ToolResult { call_index: nat, content: Seq<char> },
    UserMessage { content: Seq<char> },
    Finished { outcome: OutcomeView, usage: Option<Usage> },
}

impl View for AgentLoopEvent {
    type V = EventView;

    open spec fn view(&self) -> EventView {
        match self {
            AgentLoopEvent::Started { system, messages } => EventView::Started {
                system: model::option_text(*system),
                messages: model::messages_view(messages@),
            },
            AgentLoopEvent::ContextShed { keep_recent } => EventView::ContextShed {
                keep_recent: *keep_recent as nat,
            },
            AgentLoopEvent::Assistant { content, tool_calls, usage } => EventView::Assistant {
                content: model::option_text(*content),
                tool_calls: model::calls_view(tool_calls@),
                usage: *usage,
            },
            AgentLoopEvent::ToolStarted { call_index } => EventView::ToolStarted {
                call_index: *call_index as nat,
            },
            AgentLoopEvent::ToolResult { call_index, content } => EventView::ToolResult {
                call_index: *call_index as nat,
                content: content@,
            },
            AgentLoopEvent::UserMessage { content } => EventView::UserMessage {
                content: content@,
            },
            AgentLoopEvent::Finished { outcome, usage } => EventView::Finished {
                outcome: outcome@,
                usage: *usage,
            },
        }
    }
}

/// The views of a log.
pub open spec fn events_view(events: Seq<AgentLoopEvent>) -> Seq<EventView> {
    Seq::new(events.len(), |i: int| events[i]@)
}

impl Clone for AgentLoopEvent {
    fn clone(&self) -> (r: AgentLoopEvent)
        ensures
            r@ == self@,
    {
        match self {
            AgentLoopEvent::Started { system, messages } => AgentLoopEvent::Started {
                system: model::copy_text(system),
                messages: model::copy_messages(messages),
            },
            AgentLoopEvent::ContextShed { keep_recent } => AgentLoopEvent::ContextShed {
                keep_recent: *keep_recent,
            },
            AgentLoopEvent::Assistant { content, tool_calls, usage } => AgentLoopEvent::Assistant {
                content: model::copy_text(content),
                tool_calls: model::copy_calls(tool_calls),
                usage: *usage,
            },
            AgentLoopEvent::ToolStarted { call_index } => AgentLoopEvent::ToolStarted {
                call_index: *call_index,
            },
            AgentLoopEvent::ToolResult { call_index, content } => AgentLoopEvent::ToolResult {
                call_index: *call_index,
                content: content.clone(),
            },
            AgentLoopEvent::UserMessage { content } => AgentLoopEvent::UserMessage {
                content: content.clone(),
            },
            AgentLoopEvent::Finished { outcome, usage } => AgentLoopEvent::Finished {
                outcome: outcome.clone(),
                usage: *usage,
            },
        }
    }
}

// ---------------------------------------------------------------------------
// Shedding context
// ---------------------------------------------------------------------------

/// What a shortened tool result begins with.
pub open spec fn trim_marker() -> Seq<char> {
    "[trimmed: an earlier tool result was truncated to save context]"@
}

/// Whether a message is a tool result.
pub open spec fn is_result(m: model::MessageView) -> bool {
    m is Tool
}

/// How many tool results stand from position `from` on.
pub open spec fn results_from(messages: Seq<model::MessageView>, from: int) -> nat
    decreases messages.len() - from,
{
    if from < 0 || from >= messages.len() {
        0
    } else {
        results_from(messages, from + 1) + if is_result(messages[from]) {
            1nat
        } else {
            0nat
        }
    }
}

/// Whether a tool result is long enough to shorten and was not shortened
/// before.
pub open spec fn sheddable(content: Seq<char>) -> bool {
    !find::starts_spec(content, trim_marker()) && content.len() > 400
}

/// A shortened tool result.
pub open spec fn shortened(content: Seq<char>) -> Seq<char> {
    trim_marker() + "\n"@ + content.take(200) + "…"@
}

/// Whether shedding changes the message at `i`: a sheddable tool result with
/// at least `keep_recent` tool results after it.
pub open spec fn shed_at(messages: Seq<model::MessageView>, keep_recent: nat, i: int) -> bool {
    &&& is_result(messages[i])
    &&& results_from(messages, i + 1) >= keep_recent
    &&& sheddable(messages[i]->Tool_content)
}

/// The messages after shedding.
pub open spec fn shed_spec(messages: Seq<model::MessageView>, keep_recent: nat) -> Seq<
    model::MessageView,
> {
    Seq::new(
        messages.len(),
        |i: int|
            if shed_at(messages, keep_recent, i) {
                model::MessageView::Tool {
                    content: shortened(messages[i]->Tool_content),
                    tool_call_id: messages[i]->tool_call_id,
                }
            } else {
                messages[i]
            },
    )
}

/// How many messages from `from` on shedding changes.
pub open spec fn shed_count(messages: Seq<model::MessageView>, keep_recent: nat, from: int) -> nat
    decreases messages.len() - from,
{
    if from < 0 || from >= messages.len() {
        0
    } else {
        shed_count(messages, keep_recent, from + 1) + if shed_at(messages, keep_recent, from) {
            1nat
        } else {
            0nat
        }
    }
}

/// Free context by shortening older tool results in place, keeping the most
/// recent `keep_recent` intact. Returns how many were shortened.
pub fn shed_context(messages: &mut Vec<Message>, keep_recent: usize) -> (trimmed: usize)
    ensures
        model::messages_view(final(messages)@) == shed_spec(
            model::messages_view(old(messages)@),
            keep_recent as nat,
        ),
        trimmed == shed_count(model::messages_view(old(messages)@), keep_recent as nat, 0),
{
    let ghost all = model::messages_view(messages@);
    let n: usize = messages.len();
    let mut i: usize = n;
    let mut after: usize = 0;
    let mut trimmed: usize = 0;
    while i > 0
        invariant
            i <= n,
            n == messages@.len(),
            n == all.len(),
            after == results_from(all, i as int),
            after <= n - i,
            trimmed <= n - i,
            trimmed == shed_count(all, keep_recent as nat, i as int),
            forall|k: int| 0 <= k < i ==> (#[trigger] messages@[k])@ == all[k],
            forall|k: int|
                i <= k < n ==> (#[trigger] messages@[k])@ == shed_spec(all, keep_recent as nat)[k],
        decreases i,
    {
        i = i - 1;
        assert(messages@[i as int]@ == all[i as int]);
        let replacement: Option<Message> = match &messages[i] {
            Message::Tool { content, tool_call_id } => {
                let old_enough = after >= keep_recent;
                after = after + 1;
                let long = content.as_str().unicode_len() > 400;
                if old_enough && long && !find::starts_with(
                    content.as_str(),
                    "[trimmed: an earlier tool result was truncated to save context]",
                ) {
                    let mut short =
                        "[trimmed: an earlier tool result was truncated to save context]".to_owned();
                    short.append("\n");
                    let head = find::slice(content.as_str(), 0, 200);
                    assert(head@ =~= content@.take(200));
                    short.append(head.as_str());
                    short.append("…");
                    Some(Message::Tool { content: short, tool_call_id: tool_call_id.clone() })
                } else {
                    None
                }
            },
            _ => None,
        };
        match replacement {
            Some(message) => {
                assert(message@ == shed_spec(all, keep_recent as nat)[i as int]);
                messages[i] = message;
                trimmed = trimmed + 1;
            },
            None => {
                assert(messages@[i as int]@ == shed_spec(all, keep_recent as nat)[i as int]);
            },
        }
    }
    assert(model::messages_view(messages@) =~= shed_spec(all, keep_recent as nat));
    trimmed
}

proof fn lemma_results_after_shed(messages: Seq<model::MessageView>, keep: nat, from: int)
    requires
        0 <= from,
    ensures
        results_from(shed_spec(messages, keep), from) == results_from(messages, from),
    decreases messages.len() - from,
{
    if from < messages.len() {
        lemma_results_after_shed(messages, keep, from + 1);
    }
}

/// Shedding twice is shedding once: what was shortened is not shortened
/// again.
pub proof fn law_shedding_is_idempotent(messages: Seq<model::MessageView>, keep_recent: nat)
    ensures
        shed_spec(shed_spec(messages, keep_recent), keep_recent) == shed_spec(
            messages,
            keep_recent,
        ),
{
    let once = shed_spec(messages, keep_recent);
    assert forall|i: int| 0 <= i < messages.len() implies shed_spec(once, keep_recent)[i]
        == once[i] by {
        lemma_results_after_shed(messages, keep_recent, i + 1);
        if shed_at(messages, keep_recent, i) {
            let c = messages[i]->Tool_content;
            assert(shortened(c).take(trim_marker().len() as int) =~= trim_marker());
        }
    }
    assert(shed_spec(once, keep_recent) =~= once);
}

/// Shedding touches only tool results that have at least `keep_recent` tool
/// results after them, and of those only the text.
pub proof fn law_shedding_keeps_recent_results(
    messages: Seq<model::MessageView>,
    keep_recent: nat,
    i: int,
)
    requires
        0 <= i < messages.len(),
    ensures
        shed_spec(messages, keep_recent).len() == messages.len(),
        !is_result(messages[i]) || results_from(messages, i + 1) < keep_recent ==> shed_spec(
            messages,
            keep_recent,
        )[i] == messages[i],
        is_result(messages[i]) ==> is_result(shed_spec(messages, keep_recent)[i]) && shed_spec(
            messages,
            keep_recent,
        )[i]->tool_call_id == messages[i]->tool_call_id,
{
}

// ---------------------------------------------------------------------------
// Replay
// ---------------------------------------------------------------------------

/// A tool round whose calls have not all been answered.
pub struct PendingToolRound {
    pub calls: Vec<ToolCall>,
    /// The result of each call, once recorded.
    pub results: Vec<Option<String>>,
    /// Which calls were begun.
    pub started: Vec<bool>,
}

/// What a pending round stands for.
pub struct RoundView {
    pub calls: Seq<model::CallView>,
    pub results: Seq<Option<Seq<char>>>,
    pub started: Seq<bool>,
}

/// The views of recorded results.
pub open spec fn results_view(results: Seq<Option<String>>) -> Seq<Option<Seq<char>>> {
    Seq::new(results.len(), |i: int| model::option_text(results[i]))
}

impl View for PendingToolRound {
    type V = RoundView;

    open spec fn view(&self) -> RoundView {
        RoundView {
            calls: model::calls_view(self.calls@),
            results: results_view(self.results@),
            started: self.started@,
        }
    }
}

impl RoundView {
    /// One result and one intent mark for each call.
    pub open spec fn well_formed(self) -> bool {
        self.results.len() == self.calls.len() && self.started.len() == self.calls.len()
    }

    /// Whether each call has its result.
    pub open spec fn complete(self) -> bool {
        forall|i: int| 0 <= i < self.results.len() ==> #[trigger] self.results[i] is Some
    }

    /// A fresh round for the given calls.
    pub open spec fn fresh(calls: Seq<model::CallView>) -> RoundView {
        RoundView {
            calls,
            results: Seq::new(calls.len(), |i: int| None),
            started: Seq::new(calls.len(), |i: int| false),
        }
    }

    /// The tool messages of a complete round, in the order of the calls.
    pub open spec fn answers(self) -> Seq<model::MessageView> {
        Seq::new(
            self.calls.len(),
            |i: int|
                model::MessageView::Tool {
                    content: self.results[i]->0,
                    tool_call_id: self.calls[i].id,
                },
        )
    }
}

/// The conversation that a log stands for.
pub struct ReplayedAgentLoop {
    pub system: Option<String>,
    pub messages: Vec<Message>,
    pub pending: Option<PendingToolRound>,
    pub finished: Option<StageOutcome>,
    pub turns: u32,
    pub usage: Option<Usage>,
    /// Whether the log began.
    pub started: bool,
}

/// What a replayed loop stands for.
pub struct LoopView {
    pub system: Option<Seq<char>>,
    pub messages: Seq<model::MessageView>,
    pub pending: Option<RoundView>,
    pub finished: Option<OutcomeView>,
    pub turns: u32,
    pub usage: Option<Usage>,
    pub started: bool,
}

/// The view of an optional round.
pub open spec fn option_round(p: Option<PendingToolRound>) -> Option<RoundView> {
    match p {
        Some(r) => Some(r@),
        None => None,
    }
}

impl View for ReplayedAgentLoop {
    type V = LoopView;

    open spec fn view(&self) -> LoopView {
        LoopView {
            system: model::option_text(self.system),
            messages: model::messages_view(self.messages@),
            pending: option_round(self.pending),
            finished: match self.finished {
                Some(o) => Some(o@),
                None => None,
            },
            turns: self.turns,
            usage: self.usage,
            started: self.started,
        }
    }
}

impl LoopView {
    /// The state before the first event.
    pub open spec fn initial() -> LoopView {
        LoopView {
            system: None,
            messages: seq![],
            pending: None,
            finished: None,
            turns: 0,
            usage: None,
            started: false,
        }
    }

    /// The invariant of every replayed state: a pending round has one slot
    /// for each of its calls.
    pub open spec fn well_formed(self) -> bool {
        self.pending matches Some(r) ==> r.well_formed()
    }
}

/// Why a log cannot be replayed.
#[derive(Debug, Clone, Copy, PartialEq, Eq, Structural)]
pub enum ReplayError {
    AfterFinished,
    MisplacedStarted,
    NotStarted,
    ShedDuringRound,
    TurnDuringRound,
    NoToolCalls,
    IntentOutsideRound,
    IntentOutOfRange(usize),
    ResultOutsideRound,
    ResultOutOfRange(usize),
    RepeatedResult(usize),
    SteerDuringRound,
    FinishDuringRound,
}

/// The words for a replay error.
pub open spec fn replay_error_text(e: ReplayError) -> Seq<char> {
    match e {
        ReplayError::AfterFinished => {
            "agent event log contains entries after its finished event"@
        },
        ReplayError::MisplacedStarted => {
            "agent event log contains a misplaced started event"@
        },
        ReplayError::NotStarted => "agent event log does not start with a started event"@,
        ReplayError::ShedDuringRound => {
            "agent event log sheds context during an incomplete tool round"@
        },
        ReplayError::TurnDuringRound => {
            "agent event log starts a model turn before all tools completed"@
        },
        ReplayError::NoToolCalls => {
            "agent event log has an assistant event without tool calls"@
        },
        ReplayError::IntentOutsideRound => {
            "agent event log has a tool intent outside a tool round"@
        },
        ReplayError::IntentOutOfRange(i) => {
            "agent event log has out-of-range tool intent "@ + numbers::decimal_spec(i as nat)
        },
        ReplayError::ResultOutsideRound => {
            "agent event log has a tool result outside a tool round"@
        },
        ReplayError::ResultOutOfRange(i) => {
            "agent event log has out-of-range tool result "@ + numbers::decimal_spec(i as nat)
        },
        ReplayError::RepeatedResult(i) => {
            "agent event log repeats tool result "@ + numbers::decimal_spec(i as nat)
        },
        ReplayError::SteerDuringRound => {
            "agent event log steers during an incomplete tool round"@
        },
        ReplayError::FinishDuringRound => {
            "agent event log finishes normally during an incomplete tool round"@
        },
    }
}

fn with_index(head: &str, index: usize) -> (out: String)
    ensures
        out@ == head@ + numbers::decimal_spec(index as nat),
{
    let mut out = head.to_owned();
    out.append(numbers::decimal_len(index).as_str());
    out
}

impl ReplayError {
    /// The words for the error.
    pub fn message(self) -> (out: String)
        ensures
            out@ == replay_error_text(self),
    {
        match self {
            ReplayError::AfterFinished => {
                "agent event log contains entries after its finished event".to_owned()
            },
            ReplayError::MisplacedStarted => {
                "agent event log contains a misplaced started event".to_owned()
            },
            ReplayError::NotStarted => {
                "agent event log does not start with a started event".to_owned()
            },
            ReplayError::ShedDuringRound => {
                "agent event log sheds context during an incomplete tool round".to_owned()
            },
            ReplayError::TurnDuringRound => {
                "agent event log starts a model turn before all tools completed".to_owned()
            },
            ReplayError::NoToolCalls => {
                "agent event log has an assistant event without tool calls".to_owned()
            },
            ReplayError::IntentOutsideRound => {
                "agent event log has a tool intent outside a tool round".to_owned()
            },
            ReplayError::IntentOutOfRange(i) => with_index(
                "agent event log has out-of-range tool intent ",
                i,
            ),
            ReplayError::ResultOutsideRound => {
                "agent event log has a tool result outside a tool round".to_owned()
            },
            ReplayError::ResultOutOfRange(i) => with_index(
                "agent event log has out-of-range tool result ",
                i,
            ),
            ReplayError::RepeatedResult(i) => with_index(
                "agent event log repeats tool result ",
                i,
            ),
            ReplayError::SteerDuringRound => {
                "agent event log steers during an incomplete tool round".to_owned()
            },
            ReplayError::FinishDuringRound => {
                "agent event log finishes normally during an incomplete tool round".to_owned()
            },
        }
    }
}

/// The messages and the round once a complete round has been closed: its
/// results follow in the order of its calls.
pub open spec fn flush_spec(
    messages: Seq<model::MessageView>,
    pending: Option<RoundView>,
) -> (Seq<model::MessageView>, Option<RoundView>) {
    match pending {
        Some(round) => if round.complete() {
            (messages + round.answers(), None)
        } else {
            (messages, pending)
        },
        None => (messages, pending),
    }
}

/// A state with its complete round closed.
pub open spec fn flushed(s: LoopView) -> LoopView {
    let (messages, pending) = flush_spec(s.messages, s.pending);
    LoopView { messages, pending, ..s }
}

/// What one event makes of a state; `index` is its place in the log.
pub open spec fn step(s: LoopView, index: nat, event: EventView) -> Result<LoopView, ReplayError> {
    if s.finished is Some {
        Err(ReplayError::AfterFinished)
    } else {
        match event {
            EventView::Started { system, messages } => if s.started || index != 0 {
                Err(ReplayError::MisplacedStarted)
            } else {
                Ok(LoopView { started: true, system, messages, ..s })
            },
            EventView::ContextShed { keep_recent } => {
                let f = flushed(s);
                if !s.started {
                    Err(ReplayError::NotStarted)
                } else if f.pending is Some {
                    Err(ReplayError::ShedDuringRound)
                } else {
                    Ok(LoopView { messages: shed_spec(f.messages, keep_recent), ..f })
                }
            },
            EventView::Assistant { content, tool_calls, usage } => {
                let f = flushed(s);
                if !s.started {
                    Err(ReplayError::NotStarted)
                } else if f.pending is Some {
                    Err(ReplayError::TurnDuringRound)
                } else if tool_calls.len() == 0 {
                    Err(ReplayError::NoToolCalls)
                } else {
                    Ok(
                        LoopView {
                            messages: f.messages.push(
                                model::MessageView::Assistant {
                                    content,
                                    tool_calls: Some(tool_calls),
                                    reasoning: None,
                                },
                            ),
                            pending: Some(RoundView::fresh(tool_calls)),
                            turns: if s.turns == u32::MAX {
                                s.turns
                            } else {
                                (s.turns + 1) as u32
                            },
                            usage,
                            ..f
                        },
                    )
                }
            },
            EventView::ToolStarted { call_index } => match s.pending {
                None => Err(ReplayError::IntentOutsideRound),
                Some(round) => if call_index >= round.calls.len() {
                    Err(ReplayError::IntentOutOfRange(call_index as usize))
                } else {
                    Ok(
                        LoopView {
                            pending: Some(
                                RoundView {
                                    started: round.started.update(call_index as int, true),
                                    ..round
                                },
                            ),
                            ..s
                        },
                    )
                },
            },
            EventView::ToolResult { call_index, content } => match s.pending {
                None => Err(ReplayError::ResultOutsideRound),
                Some(round) => if call_index >= round.calls.len() {
                    Err(ReplayError::ResultOutOfRange(call_index as usize))
                } else if round.results[call_index as int] is Some {
                    Err(ReplayError::RepeatedResult(call_index as usize))
                } else {
                    Ok(
                        flushed(
                            LoopView {
                                pending: Some(
                                    RoundView {
                                        results: round.results.update(
                                            call_index as int,
                                            Some(content),
                                        ),
                                        ..round
                                    },
                                ),
                                ..s
                            },
                        ),
                    )
                },
            },
            EventView::UserMessage { content } => {
                let f = flushed(s);
                if f.pending is Some {
                    Err(ReplayError::SteerDuringRound)
                } else {
                    Ok(
                        LoopView {
                            messages: f.messages.push(model::MessageView::User { content }),
                            ..f
                        },
                    )
                }
            },
            EventView::Finished { outcome, usage } => match outcome {
                OutcomeView::Final(content) => {
                    let f = flushed(s);
                    if f.pending is Some {
                        Err(ReplayError::FinishDuringRound)
                    } else {
                        Ok(
                            LoopView {
                                messages: f.messages.push(
                                    model::MessageView::Assistant {
                                        content: Some(content),
                                        tool_calls: None,
                                        reasoning: None,
                                    },
                                ),
                                finished: Some(outcome),
                                usage,
                                ..f
                            },
                        )
                    }
                },
                OutcomeView::Reprompt { target, instructions } => Ok(
                    LoopView { finished: Some(outcome), usage, ..s },
                ),
            },
        }
    }
}

/// What the events of a log make of the initial state, one after the other.
pub open spec fn run_log(events: Seq<EventView>) -> Result<LoopView, ReplayError>
    decreases events.len(),
{
    if events.len() == 0 {
        Ok(LoopView::initial())
    } else {
        match run_log(events.drop_last()) {
            Err(e) => Err(e),
            Ok(s) => step(s, (events.len() - 1) as nat, events.last()),
        }
    }
}

/// The conversation that a log stands for.
pub open spec fn replay_spec(events: Seq<EventView>) -> Result<LoopView, ReplayError> {
    match run_log(events) {
        Err(e) => Err(e),
        Ok(s) => if !s.started {
            Err(ReplayError::NotStarted)
        } else {
            Ok(flushed(s))
        },
    }
}

fn is_complete(round: &PendingToolRound) -> (r: bool)
    ensures
        r == round@.complete(),
{
    let mut i: usize = 0;
    while i < round.results.len()
        invariant
            i <= round.results@.len(),
            forall|k: int| 0 <= k < i ==> #[trigger] round@.results[k] is Some,
        decreases round.results@.len() - i,
    {
        if round.results[i].is_none() {
            assert(round@.results[i as int] is None);
            return false;
        }
        assert(round@.results[i as int] is Some);
        i = i + 1;
    }
    true
}

/// Close a complete round: its results follow in the order of its calls.
pub fn flush_completed_round(
    messages: &mut Vec<Message>,
    pending: &mut Option<PendingToolRound>,
)
    requires
        option_round(*old(pending)) matches Some(r) ==> r.well_formed(),
    ensures
        (model::messages_view(final(messages)@), option_round(*final(pending))) == flush_spec(
            model::messages_view(old(messages)@),
            option_round(*old(pending)),
        ),
        *final(pending) is Some ==> *final(pending) == *old(pending),
{
    let done = match pending {
        None => false,
        Some(round) => is_complete(round),
    };
    if !done {
        return ;
    }
    let ghost before = model::messages_view(messages@);
    match pending.take() {
        None => {},
        Some(round) => {
            let ghost answers = round@.answers();
            let mut i: usize = 0;
            assert(before + answers.take(0) =~= before);
            while i < round.calls.len()
                invariant
                    i <= round.calls@.len(),
                    round@.well_formed(),
                    round@.complete(),
                    answers == round@.answers(),
                    model::messages_view(messages@) == before + answers.take(i as int),
                decreases round.calls@.len() - i,
            {
                assert(round@.results[i as int] is Some);
                let content = match &round.results[i] {
                    Some(c) => c.clone(),
                    None => String::new(),
                };
                let ghost so_far = model::messages_view(messages@);
                let message = Message::Tool { content, tool_call_id: round.calls[i].id.clone() };
                assert(message@ == answers[i as int]);
                messages.push(message);
                assert(model::messages_view(messages@) =~= so_far.push(message@));
                assert(before + answers.take(i + 1) =~= (before + answers.take(i as int)).push(
                    answers[i as int],
                ));
                i = i + 1;
            }
            assert(answers.take(round.calls@.len() as int) =~= answers);
        },
    }
}

fn fresh_round(calls: &Vec<ToolCall>) -> (r: PendingToolRound)
    ensures
        r@ == RoundView::fresh(model::calls_view(calls@)),
{
    let mut results: Vec<Option<String>> = Vec::new();
    let mut started: Vec<bool> = Vec::new();
    let mut i: usize = 0;
    while i < calls.len()
        invariant
            i <= calls@.len(),
            results@.len() == i,
            started@.len() == i,
            forall|k: int| 0 <= k < i ==> #[trigger] results@[k] is None,
            forall|k: int| 0 <= k < i ==> #[trigger] started@[k] == false,
        decreases calls@.len() - i,
    {
        results.push(None);
        started.push(false);
        i = i + 1;
    }
    let r = PendingToolRound { calls: model::copy_calls(calls), results, started };
    assert(r@.results =~= RoundView::fresh(model::calls_view(calls@)).results);
    assert(r@.started =~= RoundView::fresh(model::calls_view(calls@)).started);
    r
}

fn flush_state(state: ReplayedAgentLoop) -> (r: ReplayedAgentLoop)
    requires
        state@.well_formed(),
    ensures
        r@ == flushed(state@),
        r@.well_formed(),
{
    let mut messages = state.messages;
    let mut pending = state.pending;
    flush_completed_round(&mut messages, &mut pending);
    ReplayedAgentLoop {
        system: state.system,
        messages,
        pending,
        finished: state.finished,
        turns: state.turns,
        usage: state.usage,
        started: state.started,
    }
}

fn push_message(messages: &mut Vec<Message>, message: Message)
    ensures
        model::messages_view(final(messages)@) == model::messages_view(old(messages)@).push(
            message@,
        ),
{
    let ghost before = model::messages_view(messages@);
    messages.push(message);
    assert(model::messages_view(messages@) =~= before.push(message@));
}

/// What one event makes of a state.
fn apply_event(state: ReplayedAgentLoop, index: usize, event: &AgentLoopEvent) -> (r: Result<
    ReplayedAgentLoop,
    ReplayError,
>)
    requires
        state@.well_formed(),
    ensures
        match r {
            Ok(next) => step(state@, index as nat, event@) == Ok::<LoopView, ReplayError>(next@)
                && next@.well_formed(),
            Err(e) => step(state@, index as nat, event@) == Err::<LoopView, ReplayError>(e),
        },
{
    if state.finished.is_some() {
        return Err(ReplayError::AfterFinished);
    }
    match event {
        AgentLoopEvent::Started { system, messages } => {
            if state.started || index != 0 {
                return Err(ReplayError::MisplacedStarted);
            }
            Ok(
                ReplayedAgentLoop {
                    system: model::copy_text(system),
                    messages: model::copy_messages(messages),
                    pending: state.pending,
                    finished: state.finished,
                    turns: state.turns,
                    usage: state.usage,
                    started: true,
                },
            )
        },
        AgentLoopEvent::ContextShed { keep_recent } => {
            if !state.started {
                return Err(ReplayError::NotStarted);
            }
            let mut state = flush_state(state);
            if state.pending.is_some() {
                return Err(ReplayError::ShedDuringRound);
            }
            shed_context(&mut state.messages, *keep_recent);
            Ok(state)
        },
        AgentLoopEvent::Assistant { content, tool_calls, usage } => {
            if !state.started {
                return Err(ReplayError::NotStarted);
            }
            let mut state = flush_state(state);
            if state.pending.is_some() {
                return Err(ReplayError::TurnDuringRound);
            }
            if tool_calls.len() == 0 {
                return Err(ReplayError::NoToolCalls);
            }
            let calls = model::copy_calls(tool_calls);
            push_message(
                &mut state.messages,
                Message::Assistant {
                    content: model::copy_text(content),
                    tool_calls: Some(calls),
                    reasoning: None,
                },
            );
            state.pending = Some(fresh_round(tool_calls));
            if state.turns < u32::MAX {
                state.turns = state.turns + 1;
            }
            state.usage = *usage;
            Ok(state)
        },
        AgentLoopEvent::ToolStarted { call_index } => {
            let mut state = state;
            match state.pending.take() {
                None => Err(ReplayError::IntentOutsideRound),
                Some(mut round) => {
                    if *call_index >= round.calls.len() {
                        return Err(ReplayError::IntentOutOfRange(*call_index));
                    }
                    round.started[*call_index] = true;
                    state.pending = Some(round);
                    Ok(state)
                },
            }
        },
        AgentLoopEvent::ToolResult { call_index, content } => {
            let mut state = state;
            match state.pending.take() {
                None => Err(ReplayError::ResultOutsideRound),
                Some(mut round) => {
                    if *call_index >= round.calls.len() {
                        return Err(ReplayError::ResultOutOfRange(*call_index));
                    }
                    assert(round@.results[*call_index as int] is Some
                        == round.results@[*call_index as int] is Some);
                    if round.results[*call_index].is_some() {
                        return Err(ReplayError::RepeatedResult(*call_index));
                    }
                    let ghost before = round@.results;
                    round.results[*call_index] = Some(content.clone());
                    assert(round@.results =~= before.update(*call_index as int, Some(content@)));
                    state.pending = Some(round);
                    Ok(flush_state(state))
                },
            }
        },
        AgentLoopEvent::UserMessage { content } => {
            let mut state = flush_state(state);
            if state.pending.is_some() {
                return Err(ReplayError::SteerDuringRound);
            }
            push_message(&mut state.messages, Message::User { content: content.clone() });
            Ok(state)
        },
        AgentLoopEvent::Finished { outcome, usage } => {
            match outcome {
                StageOutcome::Final(content) => {
                    let mut state = flush_state(state);
                    if state.pending.is_some() {
                        return Err(ReplayError::FinishDuringRound);
                    }
                    push_message(
                        &mut state.messages,
                        Message::Assistant {
                            content: Some(content.clone()),
                            tool_calls: None,
                            reasoning: None,
                        },
                    );
                    state.finished = Some(outcome.clone());
                    state.usage = *usage;
                    Ok(state)
                },
                StageOutcome::Reprompt { target, instructions } => {
                    let mut state = state;
                    state.finished = Some(outcome.clone());
                    state.usage = *usage;
                    Ok(state)
                },
            }
        },
    }
}

/// Rebuild the conversation from an append-only loop event log. Tool results
/// may be logged in completion order, but stand in the assistant's original
/// call order before the next model request.
pub fn replay_agent_loop(events: &Vec<AgentLoopEvent>) -> (r: Result<
    ReplayedAgentLoop,
    ReplayError,
>)
    ensures
        match r {
            Ok(state) => replay_spec(events_view(events@)) == Ok::<LoopView, ReplayError>(state@)
                && state@.well_formed(),
            Err(e) => replay_spec(events_view(events@)) == Err::<LoopView, ReplayError>(e),
        },
{
    let ghost all = events_view(events@);
    let mut state = ReplayedAgentLoop {
        system: None,
        messages: Vec::new(),
        pending: None,
        finished: None,
        turns: 0,
        usage: None,
        started: false,
    };
    assert(state@.messages =~= LoopView::initial().messages);
    assert(all.take(0) =~= seq![]);
    let mut i: usize = 0;
    while i < events.len()
        invariant
            i <= events@.len(),
            all == events_view(events@),
            state@.well_formed(),
            run_log(all.take(i as int)) == Ok::<LoopView, ReplayError>(state@),
        decreases events@.len() - i,
    {
        assert(all.take(i + 1).drop_last() =~= all.take(i as int));
        assert(all.take(i + 1).last() == events@[i as int]@);
        match apply_event(state, i, &events[i]) {
            Ok(next) => {
                state = next;
            },
            Err(e) => {
                proof {
                    lemma_error_persists(all, i + 1, e);
                }
                return Err(e);
            },
        }
        i = i + 1;
    }
    assert(all.take(events@.len() as int) =~= all);
    if !state.started {
        return Err(ReplayError::NotStarted);
    }
    Ok(flush_state(state))
}

proof fn lemma_error_persists(events: Seq<EventView>, n: int, e: ReplayError)
    requires
        0 <= n <= events.len(),
        run_log(events.take(n)) == Err::<LoopView, ReplayError>(e),
    ensures
        run_log(events) == Err::<LoopView, ReplayError>(e),
    decreases events.len() - n,
{
    if n == events.len() {
        assert(events.take(n) =~= events);
    } else {
        assert(events.take(n + 1).drop_last() =~= events.take(n));
        lemma_error_persists(events, n + 1, e);
    }
}

} // verus!

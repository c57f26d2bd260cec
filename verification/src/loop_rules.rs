//! The decisions of the model/tool loop: what is done next, which calls run
//! and how, and which events a reply makes.

use vstd::prelude::*;
use vstd::string::*;

use crate::agent_loop;
use crate::agent_loop::{AgentLoopEvent, PendingToolRound, ReplayedAgentLoop, StageOutcome};
use crate::config::Config;
use crate::dispatch;
use crate::effects;
use crate::effects::ToolEffect;
use crate::loop_laws;
use crate::model;
use crate::model::{Message, ModelResponse, ToolCall, ToolDefinition, Usage};
use crate::numbers;
use crate::reprompt;
use crate::reprompt::REPROMPT_TOOL;
use crate::text;
use crate::toolset;
use crate::toolset::{StageTool, ToolBinding};

verus! {

/// Progress notifications for a display; none is kept.
pub enum AgentLoopObservation {
    ToolCall { name: String, args: String },
    ToolDone { preview: String },
    Notice(String),
}

/// How a caller runs the loop.
pub struct AgentLoopOptions<'a> {
    pub owner_kind: &'a str,
    pub owner: &'a str,
    pub model_name: &'a str,
    pub system: Option<&'a str>,
    pub max_turns: u32,
    pub depth: u32,
    pub require_approval: bool,
    pub approval_effects: &'a Vec<ToolEffect>,
    pub auto_approve: &'a Vec<String>,
    pub reprompt_targets: &'a Vec<String>,
    pub terminate_streamed_response: bool,
    pub tool_errors_as_results: bool,
}

/// What a loop came to.
pub struct AgentLoopResult {
    pub outcome: StageOutcome,
    pub messages: Vec<Message>,
    pub usage: Option<Usage>,
}

/// Add an event to a log.
pub fn record_loop_event(events: &mut Vec<AgentLoopEvent>, event: AgentLoopEvent)
    ensures
        agent_loop::events_view(final(events)@) == agent_loop::events_view(old(events)@).push(
            event@,
        ),
{
    let ghost before = events@;
    events.push(event);
    assert(agent_loop::events_view(events@) =~= agent_loop::events_view(before).push(event@));
}

/// The definitions that the model is told of: the tools, and the routing
/// tool where there are targets.
pub open spec fn offered(tools: Seq<toolset::ToolView>, targets: Seq<Seq<char>>) -> Seq<
    model::DefinitionView,
> {
    let own = Seq::new(tools.len(), |i: int| tools[i].definition);
    if targets.len() > 0 {
        own.push(reprompt::reprompt_definition(targets))
    } else {
        own
    }
}

/// The views of definitions.
pub open spec fn definitions_view(list: Seq<ToolDefinition>) -> Seq<model::DefinitionView> {
    Seq::new(list.len(), |i: int| list[i]@)
}

/// The definitions that the model is told of.
pub fn offered_definitions(tools: &Vec<StageTool>, targets: &Vec<String>) -> (r: Vec<ToolDefinition>)
    ensures
        definitions_view(r@) == offered(toolset::tools_view(tools@), text::views(targets@)),
{
    let ghost views = toolset::tools_view(tools@);
    let mut out: Vec<ToolDefinition> = Vec::new();
    let mut i: usize = 0;
    while i < tools.len()
        invariant
            i <= tools@.len(),
            views == toolset::tools_view(tools@),
            out@.len() == i,
            forall|k: int| 0 <= k < i ==> (#[trigger] out@[k])@ == views[k].definition,
        decreases tools@.len() - i,
    {
        out.push(tools[i].definition.clone());
        i = i + 1;
    }
    let ghost own = Seq::new(views.len(), |i: int| views[i].definition);
    assert(definitions_view(out@) =~= own);
    assert(text::views(targets@).len() == targets@.len());
    if targets.len() > 0 {
        let ghost before = out@;
        let tool = reprompt::reprompt_tool(targets);
        let ghost added = tool@;
        out.push(tool);
        assert(definitions_view(out@) =~= definitions_view(before).push(added));
    }
    out
}

// ---------------------------------------------------------------------------
// What is done next
// ---------------------------------------------------------------------------

/// What is done next.
pub enum LoopStep {
    /// The loop is over.
    Done,
    /// The pending round's missing calls run.
    RunTools,
    /// The loop fails for having taken too many turns.
    TurnLimit(String),
    /// The model is asked.
    AskModel,
}

/// What a step stands for.
pub enum LoopStepView {
    Done,
    RunTools,
    TurnLimit(Seq<char>),
    AskModel,
}

impl View for LoopStep {
    type V = LoopStepView;

    open spec fn view(&self) -> LoopStepView {
        match self {
            LoopStep::Done => LoopStepView::Done,
            LoopStep::RunTools => LoopStepView::RunTools,
            LoopStep::TurnLimit(s) => LoopStepView::TurnLimit(s@),
            LoopStep::AskModel => LoopStepView::AskModel,
        }
    }
}

/// The words for too many turns.
pub open spec fn turn_limit_text(kind: Seq<char>, owner: Seq<char>, max_turns: nat) -> Seq<char> {
    kind + " `"@ + owner + "` did not produce a final answer within "@ + numbers::decimal_spec(
        max_turns,
    ) + " turns (raise `max_turns` on the "@ + kind + " or `default_max_turns` in settings)"@
}

/// What is done next in a state.
pub open spec fn next_step_spec(
    s: agent_loop::LoopView,
    kind: Seq<char>,
    owner: Seq<char>,
    max_turns: u32,
) -> LoopStepView {
    if s.finished is Some {
        LoopStepView::Done
    } else if s.pending is Some {
        LoopStepView::RunTools
    } else if s.turns >= max_turns {
        LoopStepView::TurnLimit(turn_limit_text(kind, owner, max_turns as nat))
    } else {
        LoopStepView::AskModel
    }
}

/// Decide what is done next.
pub fn next_step(state: &ReplayedAgentLoop, options: &AgentLoopOptions) -> (r: LoopStep)
    ensures
        r@ == next_step_spec(
            state@,
            options.owner_kind@,
            options.owner@,
            options.max_turns,
        ),
{
    if state.finished.is_some() {
        return LoopStep::Done;
    }
    if state.pending.is_some() {
        return LoopStep::RunTools;
    }
    if state.turns >= options.max_turns {
        let mut e = text::cat4(
            options.owner_kind,
            " `",
            options.owner,
            "` did not produce a final answer within ",
        );
        e.append(numbers::decimal(options.max_turns as u64).as_str());
        e.append(" turns (raise `max_turns` on the ");
        e.append(options.owner_kind);
        e.append(" or `default_max_turns` in settings)");
        return LoopStep::TurnLimit(e);
    }
    LoopStep::AskModel
}

/// The messages that the model is sent: the system prompt, then the
/// conversation.
pub open spec fn request_spec(s: agent_loop::LoopView) -> Seq<model::MessageView> {
    match s.system {
        Some(content) => seq![model::MessageView::System { content }] + s.messages,
        None => s.messages,
    }
}

/// The model is sent the system prompt first, where there is one, and then
/// every message of the conversation in its place; where there is none it is
/// sent the conversation alone.
pub proof fn law_the_model_is_sent_the_whole_conversation(s: agent_loop::LoopView)
    ensures
        s.system matches Some(prompt) ==> {
            &&& request_spec(s).len() == s.messages.len() + 1
            &&& request_spec(s)[0] == (model::MessageView::System { content: prompt })
            &&& forall|i: int|
                0 <= i < s.messages.len() ==> request_spec(s)[i + 1] == #[trigger] s.messages[i]
        },
        s.system is None ==> request_spec(s) == s.messages,
{
}

/// The messages that the model is sent.
pub fn request_messages(state: &ReplayedAgentLoop) -> (r: Vec<Message>)
    ensures
        model::messages_view(r@) == request_spec(state@),
        match state.system {
            Some(prompt) => {
                &&& r@.len() == state.messages@.len() + 1
                &&& r@[0] matches Message::System { content } && content@ == prompt@
                &&& forall|i: int|
                    0 <= i < state.messages@.len() ==> r@[i + 1]@ == (
                    #[trigger] state.messages@[i])@
            },
            None => {
                &&& r@.len() == state.messages@.len()
                &&& forall|i: int|
                    0 <= i < r@.len() ==> (#[trigger] r@[i])@ == state.messages@[i]@
            },
        },
{
    proof {
        law_the_model_is_sent_the_whole_conversation(state@);
    }
    match &state.system {
        Some(content) => {
            let mut out: Vec<Message> = Vec::new();
            out.push(Message::System { content: content.clone() });
            let ghost head = seq![model::MessageView::System { content: content@ }];
            let ghost all = model::messages_view(state.messages@);
            assert(model::messages_view(out@) =~= head + all.take(0));
            let mut i: usize = 0;
            while i < state.messages.len()
                invariant
                    i <= state.messages@.len(),
                    all == model::messages_view(state.messages@),
                    model::messages_view(out@) == head + all.take(i as int),
                decreases state.messages@.len() - i,
            {
                let ghost before = out@;
                let message = state.messages[i].clone();
                let ghost added = message@;
                out.push(message);
                assert(model::messages_view(out@) =~= model::messages_view(before).push(added));
                assert(head + all.take(i + 1) =~= (head + all.take(i as int)).push(
                    all[i as int],
                ));
                i = i + 1;
            }
            assert(all.take(all.len() as int) =~= all);
            proof {
                let sent = model::messages_view(out@);
                assert(sent[0] == out@[0]@);
                assert forall|i: int| 0 <= i < state.messages@.len() implies out@[i + 1]@ == (
                #[trigger] state.messages@[i])@ by {
                    assert(sent[i + 1] == out@[i + 1]@);
                    assert(all[i] == state.messages@[i]@);
                }
            }
            out
        },
        None => {
            let out = model::copy_messages(&state.messages);
            proof {
                let sent = model::messages_view(out@);
                let all = model::messages_view(state.messages@);
                assert(sent.len() == all.len());
                assert forall|i: int| 0 <= i < out@.len() implies (#[trigger] out@[i])@
                    == state.messages@[i]@ by {
                    assert(sent[i] == out@[i]@);
                    assert(all[i] == state.messages@[i]@);
                }
            }
            out
        },
    }
}

/// The text that is shown again when a run resumes a loop that had already
/// finished: a saved final answer that was not shown by this run.
pub fn saved_answer(outcome: &StageOutcome, logged: usize, resumed: usize) -> (r: Option<String>)
    ensures
        match r {
            Some(s) => logged == resumed && outcome@ == agent_loop::OutcomeView::Final(s@)
                && s@.len() > 0,
            None => logged != resumed || outcome@ is Reprompt || outcome@
                == agent_loop::OutcomeView::Final(seq![]),
        },
{
    if logged != resumed {
        return None;
    }
    match outcome {
        StageOutcome::Final(content) => {
            if content.as_str().is_empty() {
                assert(content@ =~= seq![]);
                None
            } else {
                Some(content.clone())
            }
        },
        StageOutcome::Reprompt { .. } => None,
    }
}

// ---------------------------------------------------------------------------
// Tool rounds
// ---------------------------------------------------------------------------

/// The last tool of the given name.
pub open spec fn tool_named(tools: Seq<toolset::ToolView>, name: Seq<char>) -> Option<int>
    decreases tools.len(),
{
    if tools.len() == 0 {
        None
    } else if tools.last().definition.name == name {
        Some(tools.len() - 1)
    } else {
        tool_named(tools.drop_last(), name)
    }
}

/// The position of the tool of a name; where several share it, the last.
pub fn find_tool(tools: &Vec<StageTool>, name: &str) -> (r: Option<usize>)
    ensures
        match r {
            Some(i) => i < tools@.len() && tool_named(toolset::tools_view(tools@), name@) == Some(
                i as int,
            ),
            None => tool_named(toolset::tools_view(tools@), name@) is None,
        },
{
    let ghost all = toolset::tools_view(tools@);
    let mut i: usize = tools.len();
    assert(all.take(i as int) =~= all);
    while i > 0
        invariant
            i <= tools@.len(),
            all == toolset::tools_view(tools@),
            tool_named(all, name@) == tool_named(all.take(i as int), name@),
        decreases i,
    {
        assert(all.take(i as int).last() == tools@[i - 1]@);
        assert(all.take(i as int).drop_last() =~= all.take(i - 1));
        if text::same(tools[i - 1].definition.name.as_str(), name) {
            return Some(i - 1);
        }
        i = i - 1;
    }
    None
}

/// The calls of a round that have no result, in order.
pub open spec fn missing_from(round: agent_loop::RoundView, n: int) -> Seq<nat>
    decreases n,
{
    if n <= 0 {
        seq![]
    } else if round.results[n - 1] is None {
        missing_from(round, n - 1).push((n - 1) as nat)
    } else {
        missing_from(round, n - 1)
    }
}

/// The positions of the calls of a round that have no result, in order.
pub fn missing_calls(round: &PendingToolRound) -> (r: Vec<usize>)
    requires
        round@.well_formed(),
    ensures
        r@.map_values(|i: usize| i as nat) == missing_from(round@, round@.calls.len() as int),
        forall|k: int|
            0 <= k < r@.len() ==> #[trigger] r@[k] < round@.calls.len()
                && round@.results[r@[k] as int] is None,
{
    let mut out: Vec<usize> = Vec::new();
    let mut i: usize = 0;
    assert(out@.map_values(|i: usize| i as nat) =~= seq![]);
    while i < round.results.len()
        invariant
            i <= round.results@.len(),
            round@.well_formed(),
            round@.results.len() == round.results@.len(),
            out@.map_values(|i: usize| i as nat) == missing_from(round@, i as int),
            forall|k: int|
                0 <= k < out@.len() ==> #[trigger] out@[k] < round@.calls.len()
                    && round@.results[out@[k] as int] is None,
        decreases round.results@.len() - i,
    {
        assert(round@.results[i as int] == model::option_text(round.results@[i as int]));
        if round.results[i].is_none() {
            let ghost before = out@;
            out.push(i);
            assert(out@.map_values(|i: usize| i as nat) =~= before.map_values(
                |i: usize| i as nat,
            ).push(i as nat));
        }
        i = i + 1;
    }
    out
}

/// Whether a named tool may run beside others; nothing where no tool has the
/// name.
pub open spec fn safe_beside(
    tools: Seq<toolset::ToolView>,
    name: Seq<char>,
    require_approval: bool,
    approval_effects: Seq<ToolEffect>,
) -> Option<bool> {
    match tool_named(tools, name) {
        Some(i) => Some(
            !effects::mutating_spec(tools[i].effects) && !effects::approval_spec(
                require_approval,
                approval_effects,
                tools[i].effects,
            ),
        ),
        None => None,
    }
}

/// Whether the missing calls of a round run beside each other.
pub open spec fn parallel_spec(
    enabled: bool,
    round: agent_loop::RoundView,
    tools: Seq<toolset::ToolView>,
    require_approval: bool,
    approval_effects: Seq<ToolEffect>,
) -> bool {
    let missing = missing_from(round, round.calls.len() as int);
    enabled && missing.len() > 1 && forall|k: int|
        0 <= k < missing.len() ==> safe_beside(
            tools,
            round.calls[#[trigger] missing[k] as int].name,
            require_approval,
            approval_effects,
        ) == Some(true)
}

/// Whether the missing calls of a round run beside each other: there are
/// several, and each is of a tool that neither changes anything nor needs
/// approval.
pub fn runs_parallel(
    enabled: bool,
    round: &PendingToolRound,
    tools: &Vec<StageTool>,
    options: &AgentLoopOptions,
) -> (r: bool)
    requires
        round@.well_formed(),
    ensures
        r == parallel_spec(
            enabled,
            round@,
            toolset::tools_view(tools@),
            options.require_approval,
            options.approval_effects@,
        ),
{
    let missing = missing_calls(round);
    let ghost expected = missing_from(round@, round@.calls.len() as int);
    let ghost views = toolset::tools_view(tools@);
    assert(expected.len() == missing@.len());
    let mut calls: Vec<ToolCall> = Vec::new();
    let mut safe: Vec<Option<bool>> = Vec::new();
    let mut i: usize = 0;
    while i < missing.len()
        invariant
            i <= missing@.len(),
            missing@.map_values(|i: usize| i as nat) == expected,
            expected.len() == missing@.len(),
            views == toolset::tools_view(tools@),
            calls@.len() == i,
            safe@.len() == i,
            forall|k: int|
                0 <= k < missing@.len() ==> #[trigger] missing@[k] < round@.calls.len(),
            forall|k: int|
                0 <= k < i ==> #[trigger] safe@[k] == safe_beside(
                    views,
                    round@.calls[expected[k] as int].name,
                    options.require_approval,
                    options.approval_effects@,
                ),
        decreases missing@.len() - i,
    {
        let index: usize = missing[i];
        assert(expected[i as int] == index);
        assert(round@.calls.len() == round.calls@.len());
        let call = &round.calls[index];
        assert(round@.calls[index as int].name == call.function.name@);
        let answer = match find_tool(tools, call.function.name.as_str()) {
            Some(k) => {
                let reach = tools[k].effects;
                assert(views[k as int].effects == reach@);
                Some(
                    reach.parallel_safe() && !effects::approval_required(
                        options.require_approval,
                        options.approval_effects.as_slice(),
                        reach,
                    ),
                )
            },
            None => None,
        };
        safe.push(answer);
        calls.push(call.clone());
        i = i + 1;
    }
    let r = dispatch::parallel_round(enabled, &calls, &safe);
    proof {
        if r {
            assert forall|k: int| 0 <= k < expected.len() implies safe_beside(
                views,
                round@.calls[#[trigger] expected[k] as int].name,
                options.require_approval,
                options.approval_effects@,
            ) == Some(true) by {
                assert(safe@[k] == Some(true));
            }
        } else if enabled && expected.len() > 1 {
            let k = choose|k: int| 0 <= k < safe@.len() && #[trigger] safe@[k] != Some(true);
            assert(expected[k] == expected[k]);
        }
    }
    r
}

/// How one call is carried out.
#[allow(inconsistent_fields)]
pub enum CallPlan {
    /// The loop finishes with this outcome.
    Finish(StageOutcome),
    /// The call gets this answer and does not run; the notice is shown.
    Answer { content: String, notice: Option<String> },
    /// No tool has the name; the call gets this answer.
    Unknown(String),
    /// The tool at this position runs; its intent is logged before, where
    /// the flag says so.
    Execute { tool: usize, intent: bool },
}

/// What a plan stands for.
#[allow(inconsistent_fields)]
pub enum PlanView {
    Finish(agent_loop::OutcomeView),
    Answer { content: Seq<char>, notice: Option<Seq<char>> },
    Unknown(Seq<char>),
    Execute { tool: int, intent: bool },
}

impl View for CallPlan {
    type V = PlanView;

    open spec fn view(&self) -> PlanView {
        match self {
            CallPlan::Finish(outcome) => PlanView::Finish(outcome@),
            CallPlan::Answer { content, notice } => PlanView::Answer {
                content: content@,
                notice: model::option_text(*notice),
            },
            CallPlan::Unknown(s) => PlanView::Unknown(s@),
            CallPlan::Execute { tool, intent } => PlanView::Execute {
                tool: *tool as int,
                intent: *intent,
            },
        }
    }
}

/// What is shown of a call that an earlier run had begun.
pub open spec fn interrupted_notice(name: Seq<char>) -> Seq<char> {
    "`"@ + name
        + "` was interrupted mid-execution by the previous run —                                      asking the model to verify instead of re-running it"@
}

/// The answer to a call that an earlier run had begun.
pub open spec fn interrupted_text(name: Seq<char>) -> Seq<char> {
    "INTERRUPTED: a previous run started this `"@ + name
        + "` call but was                                          interrupted before recording its result — it may or may not                                          have taken effect. Verify the current state (re-read the                                          file, check the command's observable effects) before                                          deciding whether to repeat it."@
}

/// How one call of a round that runs call by call is carried out.
pub open spec fn plan_spec(
    round: agent_loop::RoundView,
    index: int,
    tools: Seq<toolset::ToolView>,
    targets: Seq<Seq<char>>,
) -> PlanView {
    let call = round.calls[index];
    if call.name == REPROMPT_TOOL@ && targets.len() > 0 {
        match reprompt::reprompt_spec(call.arguments, targets) {
            Ok(outcome) => PlanView::Finish(outcome),
            Err(problem) => PlanView::Answer { content: "ERROR: "@ + problem, notice: None },
        }
    } else {
        match tool_named(tools, call.name) {
            None => PlanView::Unknown("ERROR: unknown tool `"@ + call.name + "`"@),
            Some(i) => {
                let mutating = effects::mutating_spec(tools[i].effects);
                if mutating && round.started[index] {
                    PlanView::Answer {
                        content: interrupted_text(call.name),
                        notice: Some(interrupted_notice(call.name)),
                    }
                } else {
                    PlanView::Execute { tool: i, intent: mutating }
                }
            },
        }
    }
}

/// Decide how one call is carried out. A routing call finishes the loop; a
/// mutating call that an earlier run had begun is not run again, for its
/// effects may have happened.
pub fn plan_call(
    round: &PendingToolRound,
    index: usize,
    tools: &Vec<StageTool>,
    targets: &Vec<String>,
) -> (r: CallPlan)
    requires
        round@.well_formed(),
        index < round@.calls.len(),
    ensures
        r@ == plan_spec(
            round@,
            index as int,
            toolset::tools_view(tools@),
            text::views(targets@),
        ),
        r matches CallPlan::Execute { tool, .. } ==> tool < tools@.len(),
{
    let ghost views = toolset::tools_view(tools@);
    assert(round@.calls.len() == round.calls@.len());
    assert(text::views(targets@).len() == targets@.len());
    let call = &round.calls[index];
    assert(round@.calls[index as int] == call@);
    let name = call.function.name.as_str();
    if text::same(name, REPROMPT_TOOL) && targets.len() > 0 {
        return match reprompt::parse_reprompt(&call.function.arguments, targets) {
            Ok(outcome) => CallPlan::Finish(outcome),
            Err(problem) => CallPlan::Answer {
                content: text::cat2("ERROR: ", problem.as_str()),
                notice: None,
            },
        };
    }
    match find_tool(tools, name) {
        None => CallPlan::Unknown(text::cat3("ERROR: unknown tool `", name, "`")),
        Some(i) => {
            assert(views[i as int].effects == tools@[i as int].effects@);
            let mutating = tools[i].effects.mutating_or_process();
            if mutating && round.started[index] {
                CallPlan::Answer {
                    content: text::cat3(
                        "INTERRUPTED: a previous run started this `",
                        name,
                        "` call but was                                          interrupted before recording its result — it may or may not                                          have taken effect. Verify the current state (re-read the                                          file, check the command's observable effects) before                                          deciding whether to repeat it.",
                    ),
                    notice: Some(
                        text::cat3(
                            "`",
                            name,
                            "` was interrupted mid-execution by the previous run —                                      asking the model to verify instead of re-running it",
                        ),
                    ),
                }
            } else {
                CallPlan::Execute { tool: i, intent: mutating }
            }
        },
    }
}

/// A call that can change things and was begun before is not run again.
pub proof fn law_begun_mutations_are_not_repeated(
    round: agent_loop::RoundView,
    index: int,
    tools: Seq<toolset::ToolView>,
    targets: Seq<Seq<char>>,
)
    requires
        0 <= index < round.calls.len(),
        round.started[index],
        tool_named(tools, round.calls[index].name) matches Some(i) && effects::mutating_spec(
            tools[i].effects,
        ),
    ensures
        !(plan_spec(round, index, tools, targets) is Execute),
{
}

/// Calls that run beside each other change nothing and need no approval.
pub proof fn law_parallel_calls_are_harmless(
    enabled: bool,
    round: agent_loop::RoundView,
    tools: Seq<toolset::ToolView>,
    require_approval: bool,
    approval_effects: Seq<ToolEffect>,
    k: int,
)
    requires
        parallel_spec(enabled, round, tools, require_approval, approval_effects),
        0 <= k < missing_from(round, round.calls.len() as int).len(),
    ensures
        ({
            let missing = missing_from(round, round.calls.len() as int);
            let found = tool_named(tools, round.calls[missing[k] as int].name);
            found matches Some(i) && !effects::mutating_spec(tools[i].effects)
                && !effects::approval_spec(
                require_approval,
                approval_effects,
                tools[i].effects,
            )
        }),
{
    let missing = missing_from(round, round.calls.len() as int);
    assert(safe_beside(
        tools,
        round.calls[missing[k] as int].name,
        require_approval,
        approval_effects,
    ) == Some(true));
}

/// Whether file changes of a call are looked for: its tool can change files
/// by paths that its arguments name.
pub fn wants_snapshot(tool: &StageTool) -> (r: bool)
    ensures
        r == (effects::mutating_spec(tool@.effects) && (tool@.binding is Mcp || tool@.binding is
            File)),
{
    let by_path = match &tool.binding {
        ToolBinding::Mcp { .. } => true,
        ToolBinding::File { .. } => true,
        _ => false,
    };
    tool.effects.mutating_or_process() && by_path
}

/// What is shown of a result: the start of its first line.
pub open spec fn preview_spec(output: Seq<char>) -> Seq<char> {
    let lines = text::lines_spec(output);
    if lines.len() > 0 {
        text::take_spec(lines[0], 100)
    } else {
        text::take_spec(""@, 100)
    }
}

/// What is shown of a result: the start of its first line.
pub fn output_preview(output: &str) -> (r: String)
    ensures
        r@ == preview_spec(output@),
{
    let lines = text::lines(output);
    assert(text::views(lines@).len() == lines@.len());
    if lines.len() > 0 {
        text::take(lines[0].as_str(), 100)
    } else {
        text::take("", 100)
    }
}

// ---------------------------------------------------------------------------
// Replies
// ---------------------------------------------------------------------------

/// What a reply makes: the events to log, and notices to show.
pub struct ReplyEffects {
    pub events: Vec<AgentLoopEvent>,
    pub notices: Vec<String>,
}

/// The notice of a truncated reply.
pub open spec fn truncated_notice(reason: Seq<char>) -> Seq<char> {
    "response truncated by the provider ("@ + reason + ") — it is incomplete"@
}

/// The final answer of a reply: a cut-off one says so.
pub open spec fn answer_spec(content: Option<Seq<char>>, truncation: Option<Seq<char>>) -> Seq<
    char,
> {
    let answer = match content {
        Some(s) => s,
        None => seq![],
    };
    match truncation {
        Some(reason) => answer + "\n\n[warning: this response was truncated by the provider ("@
            + reason + ") and is incomplete]"@,
        None => answer,
    }
}

/// The notice of shed context.
pub open spec fn shed_notice(used: nat, capacity: nat, trimmed: nat) -> Seq<char> {
    "context at "@ + model::fmt_tokens_spec(used) + " of "@ + model::fmt_tokens_spec(capacity)
        + " — truncated "@ + numbers::decimal_spec(trimmed) + " older tool result(s)"@
}

/// Tool results that shedding under pressure leaves intact.
pub const KEEP_RECENT: usize = 2;

/// How many results shedding would shorten.
pub open spec fn shed_now(messages: Seq<model::MessageView>, pressure: Option<(u64, u64)>) -> nat {
    match pressure {
        Some(_) => agent_loop::shed_count(messages, KEEP_RECENT as nat, 0),
        None => 0,
    }
}

/// The events that a reply makes.
pub open spec fn reply_events(
    messages: Seq<model::MessageView>,
    content: Option<Seq<char>>,
    tool_calls: Seq<model::CallView>,
    usage: Option<Usage>,
    truncation: Option<Seq<char>>,
    pressure: Option<(u64, u64)>,
) -> Seq<agent_loop::EventView> {
    if tool_calls.len() == 0 {
        seq![
            agent_loop::EventView::Finished {
                outcome: agent_loop::OutcomeView::Final(answer_spec(content, truncation)),
                usage,
            },
        ]
    } else {
        let turn = agent_loop::EventView::Assistant { content, tool_calls, usage };
        if shed_now(messages, pressure) > 0 {
            seq![agent_loop::EventView::ContextShed { keep_recent: KEEP_RECENT as nat }, turn]
        } else {
            seq![turn]
        }
    }
}

/// The notices that a reply makes.
pub open spec fn reply_notices(
    messages: Seq<model::MessageView>,
    tool_calls: Seq<model::CallView>,
    truncation: Option<Seq<char>>,
    pressure: Option<(u64, u64)>,
) -> Seq<Seq<char>> {
    let cut = match truncation {
        Some(reason) => seq![truncated_notice(reason)],
        None => seq![],
    };
    match pressure {
        Some((used, capacity)) => if tool_calls.len() > 0 && shed_now(messages, pressure) > 0 {
            cut.push(shed_notice(used as nat, capacity as nat, shed_now(messages, pressure)))
        } else {
            cut
        },
        None => cut,
    }
}

fn final_answer(content: Option<String>, truncation: &Option<String>) -> (r: String)
    ensures
        r@ == answer_spec(model::option_text(content), model::option_text(*truncation)),
{
    let mut answer = match content {
        Some(s) => s,
        None => String::new(),
    };
    match truncation {
        Some(reason) => {
            answer.append("\n\n[warning: this response was truncated by the provider (");
            answer.append(reason.as_str());
            answer.append(") and is incomplete]");
        },
        None => {},
    }
    answer
}

/// Take a reply into the log. One without tool calls finishes the loop. Else
/// older tool results are shed first where the context is under pressure:
/// `pressure` holds the tokens used and the capacity, where the use is over
/// the threshold.
pub fn after_reply(
    messages: &Vec<Message>,
    reply: ModelResponse,
    pressure: Option<(u64, u64)>,
) -> (r: ReplyEffects)
    ensures
        agent_loop::events_view(r.events@) == reply_events(
            model::messages_view(messages@),
            model::option_text(reply.content),
            model::calls_view(reply.tool_calls@),
            reply.usage,
            model::option_text(reply.truncation),
            pressure,
        ),
        text::views(r.notices@) == reply_notices(
            model::messages_view(messages@),
            model::calls_view(reply.tool_calls@),
            model::option_text(reply.truncation),
            pressure,
        ),
{
    let mut events: Vec<AgentLoopEvent> = Vec::new();
    let mut notices: Vec<String> = Vec::new();
    let ghost all = model::messages_view(messages@);
    assert(text::views(notices@) =~= seq![]);
    match &reply.truncation {
        Some(reason) => {
            text::add_text(
                &mut notices,
                text::cat3(
                    "response truncated by the provider (",
                    reason.as_str(),
                    ") — it is incomplete",
                ),
            );
            assert(text::views(notices@) =~= seq![truncated_notice(reason@)]);
        },
        None => {},
    }
    assert(model::calls_view(reply.tool_calls@).len() == reply.tool_calls@.len());
    if reply.tool_calls.len() == 0 {
        let answer = final_answer(reply.content, &reply.truncation);
        events.push(
            AgentLoopEvent::Finished { outcome: StageOutcome::Final(answer), usage: reply.usage },
        );
        assert(agent_loop::events_view(events@) =~= reply_events(
            all,
            model::option_text(reply.content),
            model::calls_view(reply.tool_calls@),
            reply.usage,
            model::option_text(reply.truncation),
            pressure,
        ));
        return ReplyEffects { events, notices };
    }
    match pressure {
        Some((used, capacity)) => {
            let mut candidate = model::copy_messages(messages);
            let trimmed: usize = agent_loop::shed_context(&mut candidate, KEEP_RECENT);
            if trimmed > 0 {
                let mut notice = text::cat5(
                    "context at ",
                    model::fmt_tokens(used).as_str(),
                    " of ",
                    model::fmt_tokens(capacity).as_str(),
                    " — truncated ",
                );
                notice.append(numbers::decimal_len(trimmed).as_str());
                notice.append(" older tool result(s)");
                text::add_text(&mut notices, notice);
                events.push(AgentLoopEvent::ContextShed { keep_recent: KEEP_RECENT });
            }
        },
        None => {},
    }
    let ghost calls = model::calls_view(reply.tool_calls@);
    events.push(
        AgentLoopEvent::Assistant {
            content: reply.content,
            tool_calls: reply.tool_calls,
            usage: reply.usage,
        },
    );
    assert(agent_loop::events_view(events@) =~= reply_events(
        all,
        model::option_text(reply.content),
        calls,
        reply.usage,
        model::option_text(reply.truncation),
        pressure,
    ));
    ReplyEffects { events, notices }
}

/// Whether messages that the user queued can be delivered: the loop goes on,
/// and no call waits for its result.
pub fn accepts_steering(state: &ReplayedAgentLoop) -> (r: bool)
    ensures
        r == (state@.finished is None && state@.pending is None),
{
    state.finished.is_none() && state.pending.is_none()
}

/// The events of messages that the user queued during a round, and the
/// notice of them.
pub fn steer_events(steered: &Vec<String>) -> (r: ReplyEffects)
    ensures
        agent_loop::events_view(r.events@) == loop_laws::user_events(text::views(steered@)),
        text::views(r.notices@) == (if steered@.len() == 0 {
            seq![]
        } else {
            seq![
                "↪ delivered "@ + numbers::decimal_spec(steered@.len())
                    + " queued message(s) to the model"@,
            ]
        }),
{
    let mut events: Vec<AgentLoopEvent> = Vec::new();
    let mut notices: Vec<String> = Vec::new();
    assert(text::views(notices@) =~= seq![]);
    let mut i: usize = 0;
    while i < steered.len()
        invariant
            i <= steered@.len(),
            events@.len() == i,
            forall|k: int|
                0 <= k < i ==> (#[trigger] events@[k])@ == (agent_loop::EventView::UserMessage {
                    content: steered@[k]@,
                }),
        decreases steered@.len() - i,
    {
        events.push(AgentLoopEvent::UserMessage { content: steered[i].clone() });
        i = i + 1;
    }
    if steered.len() > 0 {
        let notice = text::cat3(
            "↪ delivered ",
            numbers::decimal_len(steered.len()).as_str(),
            " queued message(s) to the model",
        );
        let ghost shown = notice@;
        text::add_text(&mut notices, notice);
        assert(text::views(notices@) =~= seq![shown]);
    }
    assert(agent_loop::events_view(events@) =~= loop_laws::user_events(text::views(steered@)));
    ReplyEffects { events, notices }
}

// ---------------------------------------------------------------------------
// What the loop writes can be replayed
// ---------------------------------------------------------------------------

/// Whether each event follows from the state before it.
pub open spec fn accepted(
    s: agent_loop::LoopView,
    index: nat,
    events: Seq<agent_loop::EventView>,
) -> bool
    decreases events.len(),
{
    events.len() == 0 || match agent_loop::step(s, index, events[0]) {
        Ok(next) => accepted(next, index + 1, events.skip(1)),
        Err(_) => false,
    }
}

/// The events of a reply are accepted in every state in which the model is
/// asked.
pub proof fn law_reply_events_replay(
    s: agent_loop::LoopView,
    index: nat,
    content: Option<Seq<char>>,
    tool_calls: Seq<model::CallView>,
    usage: Option<Usage>,
    truncation: Option<Seq<char>>,
    pressure: Option<(u64, u64)>,
)
    requires
        s.started,
        s.finished is None,
        s.pending is None,
    ensures
        accepted(
            s,
            index,
            reply_events(s.messages, content, tool_calls, usage, truncation, pressure),
        ),
{
    reveal_with_fuel(accepted, 4);
    let events = reply_events(s.messages, content, tool_calls, usage, truncation, pressure);
    assert(events.skip(1).len() == events.len() - 1);
    if events.len() == 2 {
        assert(events.skip(1)[0] == events[1]);
        assert(events.skip(1).skip(1).len() == 0);
    }
}

/// The events of a missing call are accepted: its intent, its result after
/// that, its result alone, and the end of the loop by a routing call.
pub proof fn law_call_events_replay(
    s: agent_loop::LoopView,
    index: nat,
    call: nat,
    content: Seq<char>,
    target: Seq<char>,
    instructions: Seq<char>,
    usage: Option<Usage>,
)
    requires
        s.finished is None,
        s.pending matches Some(round) && round.well_formed() && call < round.calls.len()
            && round.results[call as int] is None,
    ensures
        accepted(
            s,
            index,
            seq![
                agent_loop::EventView::ToolStarted { call_index: call },
                agent_loop::EventView::ToolResult { call_index: call, content },
            ],
        ),
        accepted(s, index, seq![agent_loop::EventView::ToolResult { call_index: call, content }]),
        accepted(
            s,
            index,
            seq![
                agent_loop::EventView::Finished {
                    outcome: agent_loop::OutcomeView::Reprompt { target, instructions },
                    usage,
                },
            ],
        ),
{
    reveal_with_fuel(accepted, 4);
    let started = agent_loop::EventView::ToolStarted { call_index: call };
    let result = agent_loop::EventView::ToolResult { call_index: call, content };
    let both = seq![started, result];
    assert(both.skip(1) =~= seq![result]);
    assert(both.skip(1).skip(1) =~= seq![]);
    assert(seq![result].skip(1) =~= seq![]);
}

/// Queued messages are accepted once a round is closed.
pub proof fn law_steering_replays(
    s: agent_loop::LoopView,
    index: nat,
    steered: Seq<agent_loop::EventView>,
)
    requires
        s.finished is None,
        s.pending is None,
        forall|i: int| 0 <= i < steered.len() ==> (#[trigger] steered[i]) is UserMessage,
    ensures
        accepted(s, index, steered),
    decreases steered.len(),
{
    if steered.len() > 0 {
        let next = agent_loop::step(s, index, steered[0])->Ok_0;
        assert forall|i: int| 0 <= i < steered.skip(1).len() implies (#[trigger] steered.skip(
            1,
        )[i]) is UserMessage by {
            assert(steered.skip(1)[i] == steered[i + 1]);
        }
        law_steering_replays(next, index + 1, steered.skip(1));
    }
}

// ---------------------------------------------------------------------------
// Context use
// ---------------------------------------------------------------------------

/// The tokens that a conversation takes up, and those that its model has room
/// for, where both are known.
pub open spec fn context_use_spec(
    config: Config,
    model_name: Seq<char>,
    usage: Option<Usage>,
) -> Option<(u64, u64)> {
    if !config.models.has_name(model_name) {
        None
    } else {
        match (config.models.at(model_name).context_tokens, usage) {
            (Some(capacity), Some(u)) => Some(
                ((u.prompt_tokens + u.completion_tokens) as u64, capacity),
            ),
            _ => None,
        }
    }
}

/// The tokens that a conversation takes up, and those that its model has room
/// for, where both are known.
pub fn context_use(config: &Config, model_name: &str, usage: Option<Usage>) -> (r: Option<
    (u64, u64),
>)
    requires
        usage matches Some(u) ==> u.prompt_tokens + u.completion_tokens <= u64::MAX,
    ensures
        r == context_use_spec(*config, model_name@, usage),
{
    match config.models.get(model_name) {
        Some(known) => match (known.context_tokens, usage) {
            (Some(capacity), Some(u)) => Some((u.context_tokens(), capacity)),
            _ => None,
        },
        None => None,
    }
}

} // verus!

//! The pipeline: which stage runs next, what it is handed, and what its
//! outcome makes of the run.

use vstd::prelude::*;
use vstd::string::*;

use crate::agent_loop;
use crate::agent_loop::StageOutcome;
use crate::config::{Config, Stage};
use crate::model;
use crate::numbers;
use crate::runs;
use crate::runs::{RunState, StageProgress};
use crate::table::Table;
use crate::text;
use crate::workflow;

verus! {

// ---------------------------------------------------------------------------
// Context
// ---------------------------------------------------------------------------

/// What is threaded through the pipeline: the task, the previous stage's
/// output, and the output of every completed stage by name.
pub struct PipelineContext {
    pub input: String,
    pub previous: Option<String>,
    pub outputs: Table<String>,
}

/// Whether an output was recorded: it is the previous one and stands under
/// the stage's name, and all else is as it was.
pub open spec fn recorded(
    before: Table<String>,
    after: Table<String>,
    previous: Option<String>,
    stage: Seq<char>,
    output: Seq<char>,
) -> bool {
    &&& after.ordered()
    &&& after.has_name(stage)
    &&& after.at(stage)@ == output
    &&& before.same_but_for(after, stage)
    &&& model::option_text(previous) == Some(output)
}

impl PipelineContext {
    /// The start of a pipeline.
    pub fn new(input: &str) -> (r: PipelineContext)
        ensures
            r.input@ == input@,
            r.previous is None,
            r.outputs.entries@.len() == 0,
            r.outputs.ordered(),
    {
        PipelineContext { input: input.to_owned(), previous: None, outputs: Table::new() }
    }

    /// Record a stage's output.
    pub fn record(&mut self, stage_name: &str, output: String)
        requires
            old(self).outputs.ordered(),
        ensures
            final(self).input == old(self).input,
            recorded(
                old(self).outputs,
                final(self).outputs,
                final(self).previous,
                stage_name@,
                output@,
            ),
    {
        self.outputs.insert(stage_name.to_owned(), output.clone());
        self.previous = Some(output);
    }
}

// ---------------------------------------------------------------------------
// Order
// ---------------------------------------------------------------------------

/// Whether an order names, place by place, the stages of a run.
pub open spec fn order_matches(c: Config, names: Seq<Seq<char>>, order: Seq<usize>) -> bool {
    &&& order.len() == names.len()
    &&& forall|i: int|
        0 <= i < order.len() ==> (#[trigger] order[i]) < c.stages@.len()
            && c.stages@[order[i] as int].name@ == names[i]
}

fn stage_place(stages: &Vec<Stage>, name: &str) -> (r: Option<usize>)
    ensures
        match r {
            Some(i) => i < stages@.len() && stages@[i as int].name@ == name@ && forall|k: int|
                0 <= k < i ==> (#[trigger] stages@[k]).name@ != name@,
            None => forall|k: int|
                0 <= k < stages@.len() ==> (#[trigger] stages@[k]).name@ != name@,
        },
{
    let mut i: usize = 0;
    while i < stages.len()
        invariant
            i <= stages@.len(),
            forall|k: int| 0 <= k < i ==> (#[trigger] stages@[k]).name@ != name@,
        decreases stages@.len() - i,
    {
        if text::same(stages[i].name.as_str(), name) {
            return Some(i);
        }
        i = i + 1;
    }
    None
}

/// Whether a configuration has a stage.
pub open spec fn has_stage(c: Config, name: Seq<char>) -> bool {
    exists|k: int| 0 <= k < c.stages@.len() && (#[trigger] c.stages@[k]).name@ == name
}

/// The stage of a name: the first that has it.
pub fn find_stage(config: &Config, name: &str) -> (r: Result<usize, String>)
    ensures
        match r {
            Ok(i) => i < config.stages@.len() && config.stages@[i as int].name@ == name@
                && forall|k: int|
                0 <= k < i ==> (#[trigger] config.stages@[k]).name@ != name@,
            Err(e) => !has_stage(*config, name@) && e@ == "no stage named `"@ + name@ + "`"@,
        },
{
    match stage_place(&config.stages, name) {
        Some(i) => Ok(i),
        None => Err(text::cat3("no stage named `", name, "`")),
    }
}

/// The order in which a resumed run goes on: its stages by the names that
/// the checkpoint holds. The first that is no longer there is an error.
pub fn resume_order(config: &Config, names: &Vec<String>, id: &str) -> (r: Result<
    Vec<usize>,
    String,
>)
    ensures
        match r {
            Ok(order) => order_matches(*config, text::views(names@), order@),
            Err(e) => exists|i: int|
                0 <= i < names@.len() && !has_stage(*config, (#[trigger] names@[i])@) && (forall|
                    k: int,
                |
                    0 <= k < i ==> has_stage(*config, (#[trigger] names@[k])@)) && e@ == "run "@
                    + id@ + " uses stage `"@ + names@[i]@ + "`, which is no longer configured"@,
        },
{
    let mut order: Vec<usize> = Vec::new();
    let ghost views = text::views(names@);
    let mut i: usize = 0;
    while i < names.len()
        invariant
            i <= names@.len(),
            views == text::views(names@),
            order@.len() == i,
            forall|k: int|
                0 <= k < i ==> (#[trigger] order@[k]) < config.stages@.len()
                    && config.stages@[order@[k] as int].name@ == views[k],
            forall|k: int| 0 <= k < i ==> has_stage(*config, (#[trigger] names@[k])@),
        decreases names@.len() - i,
    {
        match stage_place(&config.stages, names[i].as_str()) {
            Some(place) => {
                assert(config.stages@[place as int].name@ == names@[i as int]@);
                order.push(place);
            },
            None => {
                assert(!has_stage(*config, names@[i as int]@));
                return Err(
                    text::cat5(
                        "run ",
                        id,
                        " uses stage `",
                        names[i].as_str(),
                        "`, which is no longer configured",
                    ),
                );
            },
        }
        i = i + 1;
    }
    Ok(order)
}

/// The names of the stages of an order.
pub fn order_names(config: &Config, order: &Vec<usize>) -> (r: Vec<String>)
    requires
        forall|i: int| 0 <= i < order@.len() ==> (#[trigger] order@[i]) < config.stages@.len(),
    ensures
        order_matches(*config, text::views(r@), order@),
{
    let mut out: Vec<String> = Vec::new();
    let mut i: usize = 0;
    while i < order.len()
        invariant
            i <= order@.len(),
            out@.len() == i,
            forall|k: int| 0 <= k < order@.len() ==> (#[trigger] order@[k]) < config.stages@.len(),
            forall|k: int|
                0 <= k < i ==> (#[trigger] out@[k])@ == config.stages@[order@[k] as int].name@,
        decreases order@.len() - i,
    {
        out.push(config.stages[order[i]].name.clone());
        i = i + 1;
    }
    let ghost views = text::views(out@);
    assert forall|k: int| 0 <= k < order@.len() implies (#[trigger] order@[k])
        < config.stages@.len() && config.stages@[order@[k] as int].name@ == views[k] by {
        assert(out@[k]@ == views[k]);
    }
    out
}

// ---------------------------------------------------------------------------
// Servers
// ---------------------------------------------------------------------------

/// The servers of the stages of an order, stage after stage.
pub open spec fn stage_servers(c: Config, order: Seq<usize>) -> Seq<Seq<char>>
    decreases order.len(),
{
    if order.len() == 0 {
        seq![]
    } else {
        stage_servers(c, order.drop_last()) + text::views(c.stages@[order.last() as int].mcp@)
    }
}

/// The servers of the first agents, agent after agent.
pub open spec fn agent_servers(c: Config, n: int) -> Seq<Seq<char>>
    decreases n,
{
    if n <= 0 {
        seq![]
    } else {
        agent_servers(c, n - 1) + text::views(c.agents.entries@[n - 1].1.mcp@)
    }
}

/// The servers that a run needs: those of its stages, and those of every
/// agent, for agents can be reached from any stage.
pub fn needed_servers(config: &Config, order: &Vec<usize>) -> (r: Vec<String>)
    requires
        forall|i: int| 0 <= i < order@.len() ==> (#[trigger] order@[i]) < config.stages@.len(),
    ensures
        text::views(r@) == stage_servers(*config, order@) + agent_servers(
            *config,
            config.agents.entries@.len() as int,
        ),
{
    let mut out: Vec<String> = Vec::new();
    let mut i: usize = 0;
    assert(text::views(out@) =~= seq![]);
    while i < order.len()
        invariant
            i <= order@.len(),
            forall|k: int| 0 <= k < order@.len() ==> (#[trigger] order@[k]) < config.stages@.len(),
            text::views(out@) == stage_servers(*config, order@.take(i as int)),
        decreases order@.len() - i,
    {
        assert(order@.take(i + 1).drop_last() =~= order@.take(i as int));
        assert(order@.take(i + 1).last() == order@[i as int]);
        let place: usize = order[i];
        text::add_texts(&mut out, &config.stages[place].mcp);
        i = i + 1;
    }
    assert(order@.take(order@.len() as int) =~= order@);
    let ghost start = text::views(out@);
    let rows = &config.agents.entries;
    let mut j: usize = 0;
    assert(start + agent_servers(*config, 0) =~= start);
    while j < rows.len()
        invariant
            j <= rows@.len(),
            rows@ == config.agents.entries@,
            text::views(out@) == start + agent_servers(*config, j as int),
        decreases rows@.len() - j,
    {
        let ghost done = agent_servers(*config, j as int);
        text::add_texts(&mut out, &rows[j].1.mcp);
        let ghost more = text::views(rows@[j as int].1.mcp@);
        assert((start + done) + more =~= start + (done + more));
        j = j + 1;
    }
    out
}

// ---------------------------------------------------------------------------
// Stages
// ---------------------------------------------------------------------------

/// An optional name in its debug form.
pub open spec fn shown_name(name: Option<Seq<char>>) -> Seq<char> {
    match name {
        Some(s) => "Some("@ + text::quoted_text(s) + ")"@,
        None => "None"@,
    }
}

/// The stage that a checkpoint is at.
pub open spec fn current_stage(state: RunState) -> Option<Seq<char>> {
    if state.position < state.stage_names@.len() {
        Some(state.stage_names@[state.position as int]@)
    } else {
        None
    }
}

/// Whether an active stage is the one that the checkpoint is at.
pub open spec fn consistent(state: RunState) -> bool {
    match state.active_stage {
        Some(active) => current_stage(state) == Some(active.stage@) && active.run == state.runs,
        None => true,
    }
}

/// The words for a checkpoint that contradicts itself.
pub open spec fn inconsistent_text(state: RunState, active: StageProgress) -> Seq<char> {
    "run checkpoint has inconsistent active-stage progress: expected "@ + shown_name(
        current_stage(state),
    ) + " at run "@ + numbers::decimal_spec(state.runs as nat) + ", found `"@ + active.stage@
        + "` at run "@ + numbers::decimal_spec(active.run as nat)
}

/// Check that a checkpoint's active stage is the one that it is at.
pub fn check_active_stage(state: &RunState) -> (r: Result<(), String>)
    ensures
        match r {
            Ok(()) => consistent(*state),
            Err(e) => !consistent(*state) && e@ == inconsistent_text(
                *state,
                state.active_stage->0,
            ),
        },
{
    match &state.active_stage {
        None => Ok(()),
        Some(active) => {
            let expected: Option<&str> = if state.position < state.stage_names.len() {
                Some(state.stage_names[state.position].as_str())
            } else {
                None
            };
            let same_stage = match expected {
                Some(name) => text::same(name, active.stage.as_str()),
                None => false,
            };
            if same_stage && active.run == state.runs {
                return Ok(());
            }
            let shown = match expected {
                Some(name) => text::cat3("Some(", text::quoted(name).as_str(), ")"),
                None => "None".to_owned(),
            };
            let mut e = text::cat5(
                "run checkpoint has inconsistent active-stage progress: expected ",
                shown.as_str(),
                " at run ",
                numbers::decimal(state.runs as u64).as_str(),
                ", found `",
            );
            e.append(active.stage.as_str());
            e.append("` at run ");
            e.append(numbers::decimal(active.run as u64).as_str());
            Err(e)
        },
    }
}

/// What the pipeline does next.
#[allow(inconsistent_fields)]
pub enum StageAction {
    /// Every stage is done.
    Finished,
    /// The run fails for having run too many stages.
    TooManyRuns(String),
    /// A stage runs.
    Run {
        /// Its place in the configuration.
        stage: usize,
        /// Whether it goes on from an earlier run's events.
        resuming: bool,
        is_first: bool,
        /// The stages to which it may hand control.
        targets: Vec<String>,
    },
}

/// The names of a list that are among the given ones, in order.
pub open spec fn among(list: Seq<Seq<char>>, names: Seq<Seq<char>>) -> Seq<Seq<char>>
    decreases list.len(),
{
    if list.len() == 0 {
        seq![]
    } else {
        let rest = among(list.drop_last(), names);
        if names.contains(list.last()) {
            rest.push(list.last())
        } else {
            rest
        }
    }
}

/// The stages that a stage may hand control to in a run of these stages.
pub fn offered_targets(stage: &Stage, names: &Vec<String>) -> (r: Vec<String>)
    ensures
        text::views(r@) == among(text::views(stage.can_reprompt@), text::views(names@)),
{
    let list = &stage.can_reprompt;
    let ghost all = text::views(list@);
    let mut out: Vec<String> = Vec::new();
    let mut i: usize = 0;
    assert(text::views(out@) =~= seq![]);
    while i < list.len()
        invariant
            i <= list@.len(),
            all == text::views(list@),
            text::views(out@) == among(all.take(i as int), text::views(names@)),
        decreases list@.len() - i,
    {
        assert(all.take(i + 1).drop_last() =~= all.take(i as int));
        assert(all.take(i + 1).last() == list@[i as int]@);
        if text::listed(names, list[i].as_str()) {
            text::add_text(&mut out, list[i].clone());
        }
        i = i + 1;
    }
    assert(all.take(list@.len() as int) =~= all);
    out
}

/// The words for too many stage runs.
pub open spec fn too_many_text(limit: nat) -> Seq<char> {
    "stopped after "@ + numbers::decimal_spec(limit)
        + " stage runs without finishing — likely a reprompt loop; raise settings.max_stage_runs if this is intentional"@
}

/// The run's number of the stage that is about to run: that of the active
/// stage, or one more.
pub open spec fn run_number(state: RunState) -> int {
    if state.active_stage is Some {
        state.runs as int
    } else {
        state.runs + 1
    }
}

/// Whether two checkpoints differ in nothing but the active stage and the
/// number of runs.
pub open spec fn same_progress(a: RunState, b: RunState) -> bool {
    &&& a.id == b.id
    &&& a.started_at == b.started_at
    &&& a.updated_at == b.updated_at
    &&& a.cwd == b.cwd
    &&& a.task == b.task
    &&& a.stage_names == b.stage_names
    &&& a.position == b.position
    &&& a.previous == b.previous
    &&& a.outputs == b.outputs
    &&& a.usage == b.usage
    &&& a.diffs == b.diffs
}

/// Begin the next stage. A stage that was interrupted goes on; else a new run
/// of the stage is counted. A run that would exceed `max_stage_runs` fails.
pub fn next_stage(state: &mut RunState, config: &Config, order: &Vec<usize>) -> (r: StageAction)
    requires
        order_matches(*config, text::views(old(state).stage_names@), order@),
        old(state).runs < u32::MAX,
    ensures
        same_progress(*final(state), *old(state)),
        old(state).position >= order@.len() ==> r is Finished && *final(state) == *old(state),
        old(state).position < order@.len() ==> {
            let stage = config.stages@[order@[old(state).position as int] as int];
            let number = run_number(*old(state));
            &&& final(state).runs == number
            &&& match old(state).active_stage {
                Some(active) => final(state).active_stage == Some(active),
                None => runs::option_progress(final(state).active_stage) == Some(
                    runs::ProgressView {
                        stage: stage.name@,
                        run: number as u32,
                        events: seq![],
                    },
                ),
            }
            &&& match r {
                StageAction::Finished => false,
                StageAction::TooManyRuns(e) => number > config.settings.max_stage_runs && e@
                    == too_many_text(config.settings.max_stage_runs as nat),
                StageAction::Run { stage: place, resuming, is_first, targets } => {
                    &&& number <= config.settings.max_stage_runs
                    &&& place == order@[old(state).position as int]
                    &&& resuming == (old(state).active_stage is Some)
                    &&& is_first == (old(state).previous is None)
                    &&& text::views(targets@) == among(
                        text::views(stage.can_reprompt@),
                        text::views(old(state).stage_names@),
                    )
                },
            }
        },
{
    if state.position >= order.len() {
        return StageAction::Finished;
    }
    let place: usize = order[state.position];
    let stage = &config.stages[place];
    let resuming = state.active_stage.is_some();
    if !resuming {
        state.runs = state.runs + 1;
        let events: Vec<crate::agent_loop::AgentLoopEvent> = Vec::new();
        let progress = StageProgress { stage: stage.name.clone(), run: state.runs, events };
        assert(progress@.events =~= seq![]);
        state.active_stage = Some(progress);
    }
    if state.runs > config.settings.max_stage_runs {
        return StageAction::TooManyRuns(
            text::cat3(
                "stopped after ",
                numbers::decimal(config.settings.max_stage_runs as u64).as_str(),
                " stage runs without finishing — likely a reprompt loop; raise settings.max_stage_runs if this is intentional",
            ),
        );
    }
    let targets = offered_targets(stage, &state.stage_names);
    StageAction::Run { stage: place, resuming, is_first: state.previous.is_none(), targets }
}

/// What an outcome leaves as the stage's output: the answer, or the
/// instructions of the handoff.
pub open spec fn output_of(outcome: agent_loop::OutcomeView) -> Seq<char> {
    match outcome {
        agent_loop::OutcomeView::Final(answer) => answer,
        agent_loop::OutcomeView::Reprompt { instructions, .. } => instructions,
    }
}

/// Where a run goes on after an outcome: at the next stage, or at the target
/// of the handoff.
pub open spec fn position_after(state: RunState, outcome: agent_loop::OutcomeView) -> int {
    match outcome {
        agent_loop::OutcomeView::Final(_) => state.position + 1,
        agent_loop::OutcomeView::Reprompt { target, .. } => workflow::place_from(
            text::views(state.stage_names@),
            target,
            0,
        )->0,
    }
}

/// Commit a stage's outcome: its output is recorded under its name and as
/// the previous one, and the run goes on at the next stage or at the target
/// of the handoff.
pub fn finish_stage(state: &mut RunState, outcome: &StageOutcome)
    requires
        old(state).position < old(state).stage_names@.len(),
        old(state).outputs.ordered(),
        outcome@ matches agent_loop::OutcomeView::Reprompt { target, .. } ==> text::views(
            old(state).stage_names@,
        ).contains(target),
    ensures
        final(state).position == position_after(*old(state), outcome@),
        final(state).position <= final(state).stage_names@.len(),
        recorded(
            old(state).outputs,
            final(state).outputs,
            final(state).previous,
            old(state).stage_names@[old(state).position as int]@,
            output_of(outcome@),
        ),
        final(state).active_stage is None,
        final(state).runs == old(state).runs,
        final(state).id == old(state).id,
        final(state).task == old(state).task,
        final(state).cwd == old(state).cwd,
        final(state).started_at == old(state).started_at,
        final(state).updated_at == old(state).updated_at,
        final(state).stage_names == old(state).stage_names,
        final(state).usage == old(state).usage,
        final(state).diffs == old(state).diffs,
{
    let stages: usize = state.stage_names.len();
    assert(state.position < stages);
    let name = state.stage_names[state.position].clone();
    match outcome {
        StageOutcome::Final(answer) => {
            state.outputs.insert(name, answer.clone());
            state.previous = Some(answer.clone());
            state.position = state.position + 1;
        },
        StageOutcome::Reprompt { target, instructions } => {
            let ghost names = text::views(state.stage_names@);
            proof {
                workflow::lemma_place_from(names, target@, 0);
                let k = choose|k: int| 0 <= k < names.len() && names[k] == target@;
                assert(names[k] == target@);
            }
            let place = workflow::place_of(&state.stage_names, target.as_str());
            state.outputs.insert(name, instructions.clone());
            state.previous = Some(instructions.clone());
            match place {
                Some(i) => {
                    state.position = i;
                },
                None => {
                    assert(false);
                },
            }
        },
    }
    state.active_stage = None;
}

proof fn lemma_among(list: Seq<Seq<char>>, names: Seq<Seq<char>>, x: Seq<char>)
    requires
        among(list, names).contains(x),
    ensures
        names.contains(x),
        list.contains(x),
    decreases list.len(),
{
    let all = among(list, names);
    let k = choose|k: int| 0 <= k < all.len() && all[k] == x;
    let rest = among(list.drop_last(), names);
    if k < rest.len() {
        assert(rest[k] == x);
        assert(rest.contains(x));
        lemma_among(list.drop_last(), names, x);
        let j = choose|j: int| 0 <= j < list.drop_last().len() && list.drop_last()[j] == x;
        assert(list[j] == x);
    } else {
        assert(list[list.len() - 1] == x);
    }
}

/// A handoff to an offered target always finds its stage in the run, so that
/// the run can go on there.
pub proof fn law_offered_targets_are_in_the_run(
    can_reprompt: Seq<Seq<char>>,
    names: Seq<Seq<char>>,
    target: Seq<char>,
)
    requires
        among(can_reprompt, names).contains(target),
    ensures
        can_reprompt.contains(target),
        workflow::place_from(names, target, 0) matches Some(i) && 0 <= i < names.len()
            && names[i] == target,
{
    lemma_among(can_reprompt, names, target);
    workflow::lemma_place_from(names, target, 0);
    let k = choose|k: int| 0 <= k < names.len() && names[k] == target;
    assert(names[k] == target);
}

} // verus!

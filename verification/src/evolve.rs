//! Improving the agent's inputs by experiment: weaknesses are mined from
//! scored runs, one edit is proposed, the suite is run again, and the edit is
//! kept only where it helps.

use vstd::prelude::*;
use vstd::string::*;

use crate::agent_loop;
use crate::agent_loop::{AgentLoopEvent, StageOutcome};
use crate::block;
use crate::config::Config;
use crate::evals;
use crate::find;
use crate::model;
use crate::numbers;
use crate::paths;
use crate::reflect;
use crate::scores;
use crate::scores::{EvalOutcome, EvalUsage, SuiteScore, SuiteStats, Verdict};
use crate::search;
use crate::text;

verus! {

/// Characters of an input that the proposer is shown.
pub const MAX_INPUT_CHARS: usize = 16_000;

/// Characters of a proposal.
pub const MAX_PROPOSAL_CHARS: usize = 24_000;

/// Earlier proposals that the proposer is shown.
pub const MAX_HISTORY_SHOWN: usize = 10;

/// Characters of a check's output that are kept.
pub const MAX_CHECK_EXCERPT: usize = 800;

/// Characters of a run's output that are kept.
pub const MAX_OUTPUT_EXCERPT: usize = 600;

/// Signals of one run that are kept.
pub const MAX_SIGNALS: usize = 12;

/// What the proposer is told.
pub const SYSTEM_PROMPT: &'static str = "You improve the INPUTS of `soa`, a staged coding agent: stage and agent system prompts, and a persistent lessons list. You are shown the current inputs, the results of a scored eval suite (which tasks passed, which failed, and the failure evidence), and the history of previous proposals with their verdicts.\n\nReply with ONLY a JSON object, no prose or code fences, in this shape:\n{\n  \"target\": \"<one of the listed target ids>\",\n  \"content\": \"<the complete replacement content for that target>\",\n  \"rationale\": \"one short sentence: what weakness this addresses\"\n}\n\nRules: change ONE target, minimally — the smallest edit that plausibly fixes an observed failure. Address the failure PATTERN, not the specific eval wording; a proposal that merely hardcodes an expected answer will be rejected by held-out evals you cannot see. Do not retry proposals the history shows were rejected. For the `lessons` target, content is plain lines, one lesson per line. If every eval passes, propose an edit that makes the inputs more economical (shorter prompts, fewer wasted turns) without losing meaning.";

/// A scored task.
pub struct Eval {
    pub name: String,
    pub task: String,
    /// The workflow it runs; the default one where it names none.
    pub workflow: Option<String>,
    /// The shell command that grades a run.
    pub check: String,
    pub timeout_secs: Option<u64>,
    /// Whether the proposer is kept from seeing it.
    pub holdout: bool,
}

// ---------------------------------------------------------------------------
// Targets
// ---------------------------------------------------------------------------

/// An input that the proposer may rewrite; nothing else is ever touched.
pub enum Target {
    /// The lessons.
    Lessons,
    /// The prompt file of a stage or agent.
    PromptFile { id: String, path: String },
}

/// What a target stands for.
pub enum TargetView {
    Lessons,
    PromptFile { id: Seq<char>, path: Seq<char> },
}

impl View for Target {
    type V = TargetView;

    open spec fn view(&self) -> TargetView {
        match self {
            Target::Lessons => TargetView::Lessons,
            Target::PromptFile { id, path } => TargetView::PromptFile { id: id@, path: path@ },
        }
    }
}

/// The id of a target.
pub open spec fn target_id(t: TargetView) -> Seq<char> {
    match t {
        TargetView::Lessons => "lessons"@,
        TargetView::PromptFile { id, .. } => id,
    }
}

impl Target {
    /// The id by which the proposer names the target.
    pub fn id(&self) -> (r: &str)
        ensures
            r@ == target_id(self@),
    {
        match self {
            Target::Lessons => "lessons",
            Target::PromptFile { id, path: _ } => id.as_str(),
        }
    }
}

/// The views of targets.
pub open spec fn targets_view(list: Seq<Target>) -> Seq<TargetView> {
    Seq::new(list.len(), |i: int| list[i]@)
}

/// The prompt files of the first stages.
pub open spec fn stage_targets(c: Config, n: int) -> Seq<TargetView>
    decreases n,
{
    if n <= 0 {
        seq![]
    } else {
        let before = stage_targets(c, n - 1);
        match c.stages@[n - 1].system_prompt_file {
            Some(path) => before.push(
                TargetView::PromptFile {
                    id: "stage:"@ + c.stages@[n - 1].name@,
                    path: paths::under_spec(c.base_dir@, path@),
                },
            ),
            None => before,
        }
    }
}

/// The prompt files of the first agents.
pub open spec fn agent_targets(c: Config, n: int) -> Seq<TargetView>
    decreases n,
{
    if n <= 0 {
        seq![]
    } else {
        let before = agent_targets(c, n - 1);
        match c.agents.entries@[n - 1].1.system_prompt_file {
            Some(path) => before.push(
                TargetView::PromptFile {
                    id: "agent:"@ + c.agents.entries@[n - 1].0@,
                    path: paths::under_spec(c.base_dir@, path@),
                },
            ),
            None => before,
        }
    }
}

fn add_target(list: &mut Vec<Target>, target: Target)
    ensures
        targets_view(final(list)@) == targets_view(old(list)@).push(target@),
{
    let ghost before = list@;
    list.push(target);
    assert(targets_view(list@) =~= targets_view(before).push(target@));
}

/// What can be improved: the lessons, and every prompt that stands in a file
/// of its own.
pub fn evolvable_targets(config: &Config) -> (r: Vec<Target>)
    ensures
        targets_view(r@) == seq![TargetView::Lessons] + stage_targets(
            *config,
            config.stages@.len() as int,
        ) + agent_targets(*config, config.agents.entries@.len() as int),
{
    let mut out: Vec<Target> = Vec::new();
    out.push(Target::Lessons);
    let ghost head = seq![TargetView::Lessons];
    assert(targets_view(out@) =~= head + stage_targets(*config, 0));
    let mut i: usize = 0;
    while i < config.stages.len()
        invariant
            i <= config.stages@.len(),
            targets_view(out@) == head + stage_targets(*config, i as int),
        decreases config.stages@.len() - i,
    {
        let ghost before = stage_targets(*config, i as int);
        let stage = &config.stages[i];
        match &stage.system_prompt_file {
            Some(path) => {
                let target = Target::PromptFile {
                    id: text::cat2("stage:", stage.name.as_str()),
                    path: paths::under(config.base_dir.as_str(), path.as_str()),
                };
                let ghost shown = target@;
                add_target(&mut out, target);
                assert((head + before).push(shown) =~= head + before.push(shown));
            },
            None => {},
        }
        i = i + 1;
    }
    let ghost stages = head + stage_targets(*config, config.stages@.len() as int);
    let rows = &config.agents.entries;
    let mut j: usize = 0;
    assert(stages + agent_targets(*config, 0) =~= stages);
    while j < rows.len()
        invariant
            j <= rows@.len(),
            rows@ == config.agents.entries@,
            targets_view(out@) == stages + agent_targets(*config, j as int),
        decreases rows@.len() - j,
    {
        let ghost before = agent_targets(*config, j as int);
        match &rows[j].1.system_prompt_file {
            Some(path) => {
                let target = Target::PromptFile {
                    id: text::cat2("agent:", rows[j].0.as_str()),
                    path: paths::under(config.base_dir.as_str(), path.as_str()),
                };
                let ghost shown = target@;
                add_target(&mut out, target);
                assert((stages + before).push(shown) =~= stages + before.push(shown));
            },
            None => {},
        }
        j = j + 1;
    }
    out
}

/// The ids of targets.
pub open spec fn ids_spec(targets: Seq<TargetView>) -> Seq<Seq<char>> {
    Seq::new(targets.len(), |i: int| target_id(targets[i]))
}

fn ids(targets: &Vec<Target>) -> (r: Vec<String>)
    ensures
        text::views(r@) == ids_spec(targets_view(targets@)),
{
    let ghost all = targets_view(targets@);
    let mut out: Vec<String> = Vec::new();
    let mut i: usize = 0;
    assert(text::views(out@) =~= ids_spec(all).take(0));
    while i < targets.len()
        invariant
            i <= targets@.len(),
            all == targets_view(targets@),
            text::views(out@) == ids_spec(all).take(i as int),
        decreases targets@.len() - i,
    {
        text::add_text(&mut out, targets[i].id().to_owned());
        assert(ids_spec(all).take(i as int).push(ids_spec(all)[i as int]) =~= ids_spec(all).take(
            i + 1,
        ));
        i = i + 1;
    }
    assert(ids_spec(all).take(all.len() as int) =~= ids_spec(all));
    out
}

/// The first target with an id, from a place on.
pub open spec fn target_from(targets: Seq<TargetView>, id: Seq<char>, from: int) -> Option<int>
    decreases targets.len() - from,
{
    if from < 0 || from >= targets.len() {
        None
    } else if target_id(targets[from]) == id {
        Some(from)
    } else {
        target_from(targets, id, from + 1)
    }
}

/// The words for a target that there is not.
pub open spec fn unknown_target_text(id: Seq<char>, targets: Seq<TargetView>) -> Seq<char> {
    "proposer picked unknown target `"@ + id + "` (valid: "@ + text::join_spec(
        ids_spec(targets),
        ", "@,
    ) + ")"@
}

/// The target that a proposal names.
pub fn find_target(targets: &Vec<Target>, id: &str) -> (r: Result<usize, String>)
    ensures
        match r {
            Ok(i) => target_from(targets_view(targets@), id@, 0) == Some(i as int) && i
                < targets@.len(),
            Err(words) => target_from(targets_view(targets@), id@, 0) is None && words@
                == unknown_target_text(id@, targets_view(targets@)),
        },
{
    let ghost all = targets_view(targets@);
    let mut i: usize = 0;
    while i < targets.len()
        invariant
            i <= targets@.len(),
            all == targets_view(targets@),
            target_from(all, id@, 0) == target_from(all, id@, i as int),
        decreases targets@.len() - i,
    {
        assert(all[i as int] == targets@[i as int]@);
        if text::same(targets[i].id(), id) {
            return Ok(i);
        }
        i = i + 1;
    }
    let listed = text::join(&ids(targets), ", ");
    Err(
        text::cat5(
            "proposer picked unknown target `",
            id,
            "` (valid: ",
            listed.as_str(),
            ")",
        ),
    )
}

// ---------------------------------------------------------------------------
// Proposals
// ---------------------------------------------------------------------------

/// What the proposer returned.
pub struct Proposal {
    pub target: String,
    pub content: String,
    pub rationale: String,
}

/// Why a proposal's content cannot be taken, if it cannot.
pub open spec fn content_fault(content: Seq<char>) -> Option<Seq<char>> {
    if text::trim_spec(content).len() == 0 {
        Some("proposal content is empty"@)
    } else if content.len() > MAX_PROPOSAL_CHARS {
        Some(
            "proposal content is too long ("@ + numbers::decimal_spec(content.len())
                + " chars, cap 24000)"@,
        )
    } else {
        None
    }
}

/// Check a proposal: its content may be neither blank nor too long.
pub fn check_proposal(proposal: Proposal) -> (r: Result<Proposal, String>)
    ensures
        match r {
            Ok(p) => content_fault(proposal.content@) is None && p == proposal,
            Err(words) => content_fault(proposal.content@) == Some(words@),
        },
{
    let trimmed = text::trim(proposal.content.as_str());
    if trimmed.as_str().is_empty() {
        return Err("proposal content is empty".to_owned());
    }
    let n: usize = proposal.content.as_str().unicode_len();
    if n > MAX_PROPOSAL_CHARS {
        let written = numbers::decimal_len(n);
        return Err(
            text::cat3(
                "proposal content is too long (",
                written.as_str(),
                " chars, cap 24000)",
            ),
        );
    }
    Ok(proposal)
}

/// A line without the dashes in front of it.
pub open spec fn undashed(line: Seq<char>) -> Seq<char>
    decreases line.len(),
{
    if line.len() >= 2 && line[0] == '-' && line[1] == ' ' {
        undashed(line.skip(2))
    } else {
        line
    }
}

/// Lines without the dashes in front of them.
pub open spec fn all_undashed(lines: Seq<Seq<char>>) -> Seq<Seq<char>> {
    Seq::new(lines.len(), |i: int| undashed(lines[i]))
}

fn undash(line: &str) -> (r: String)
    ensures
        r@ == undashed(line@),
{
    let v = text::chars(line);
    let n: usize = v.len();
    let mut i: usize = 0;
    assert(line@.skip(0) =~= line@);
    while n - i >= 2 && v[i] == '-' && v[i + 1] == ' '
        invariant
            i <= n,
            n == v@.len(),
            v@ == line@,
            undashed(line@) == undashed(line@.skip(i as int)),
        decreases n - i,
    {
        assert(line@.skip(i as int).skip(2) =~= line@.skip(i + 2));
        i = i + 2;
    }
    let r = text::text_range(v.as_slice(), i, n);
    assert(r@ =~= line@.skip(i as int));
    r
}

/// The lessons that a proposal's content holds, one per line.
pub fn proposed_lessons(content: &str) -> (r: Vec<String>)
    ensures
        text::views(r@) == reflect::validated(all_undashed(text::lines_spec(content@))),
{
    let lines = text::lines(content);
    let ghost all = text::views(lines@);
    let mut bare: Vec<String> = Vec::new();
    let mut i: usize = 0;
    assert(text::views(bare@) =~= all_undashed(all).take(0));
    while i < lines.len()
        invariant
            i <= lines@.len(),
            all == text::views(lines@),
            text::views(bare@) == all_undashed(all).take(i as int),
        decreases lines@.len() - i,
    {
        text::add_text(&mut bare, undash(lines[i].as_str()));
        assert(all_undashed(all).take(i as int).push(all_undashed(all)[i as int]) =~= all_undashed(
            all,
        ).take(i + 1));
        i = i + 1;
    }
    assert(all_undashed(all).take(all.len() as int) =~= all_undashed(all));
    reflect::validate_lessons(&bare)
}

/// An attempted proposal, as the history keeps it.
pub struct HistoryEntry {
    pub at: u64,
    pub target: String,
    pub rationale: String,
    pub adopted: bool,
    pub reason: String,
    pub baseline: String,
    pub candidate: String,
}

/// The model that proposes.
pub open spec fn model_spec(
    config: Config,
    chosen: Option<Seq<char>>,
    configured: Option<Seq<char>>,
) -> Option<Seq<char>> {
    match chosen {
        Some(name) => Some(name),
        None => reflect::model_spec(config, configured),
    }
}

/// The model that proposes: the one asked for, else the one configured for it,
/// else the one that reflects.
pub fn choose_model(config: &Config, chosen: Option<&str>, configured: Option<&str>) -> (r: Result<
    String,
    String,
>)
    ensures
        ({
            let asked = match chosen {
                Some(s) => Some(s@),
                None => None,
            };
            let set = match configured {
                Some(s) => Some(s@),
                None => None,
            };
            match r {
                Ok(name) => model_spec(*config, asked, set) == Some(name@),
                Err(words) => model_spec(*config, asked, set) is None && words@
                    == "no model to propose with (set settings.evolve_model)"@,
            }
        }),
{
    match chosen {
        Some(name) => Ok(name.to_owned()),
        None => match reflect::choose_model(config, configured) {
            Ok(name) => Ok(name),
            Err(_) => Err("no model to propose with (set settings.evolve_model)".to_owned()),
        },
    }
}

// ---------------------------------------------------------------------------
// What a run shows
// ---------------------------------------------------------------------------

/// The tools that the last reply of a log calls.
pub open spec fn round_tools(events: Seq<agent_loop::EventView>) -> Seq<model::CallView>
    decreases events.len(),
{
    if events.len() == 0 {
        seq![]
    } else {
        match events.last() {
            agent_loop::EventView::Assistant { tool_calls, .. } => tool_calls,
            _ => round_tools(events.drop_last()),
        }
    }
}

/// Whether a result reports a failure.
pub open spec fn failed_result(content: Seq<char>) -> bool {
    find::starts_spec(content, "ERROR"@) || find::starts_spec(content, "DENIED"@)
}

/// The failed calls of a log.
pub open spec fn failures(events: Seq<agent_loop::EventView>) -> Seq<Seq<char>>
    decreases events.len(),
{
    if events.len() == 0 {
        seq![]
    } else {
        let before = failures(events.drop_last());
        match events.last() {
            agent_loop::EventView::ToolResult { call_index, content } => if failed_result(content) {
                let tools = round_tools(events.drop_last());
                before.push(
                    (if call_index < tools.len() {
                        tools[call_index as int].name
                    } else {
                        "?"@
                    }) + ": "@ + text::excerpt_spec(content, 160),
                )
            } else {
                before
            },
            _ => before,
        }
    }
}

/// The replies of a log.
pub open spec fn turns_spec(events: Seq<agent_loop::EventView>) -> nat
    decreases events.len(),
{
    if events.len() == 0 {
        0
    } else {
        turns_spec(events.drop_last()) + (if events.last() is Assistant {
            1nat
        } else {
            0
        })
    }
}

/// What a run shows: its failed calls, how often its work was sent back, and
/// how many turns it took.
pub open spec fn signals_spec(events: Seq<agent_loop::EventView>, reprompts: nat) -> Seq<Seq<char>> {
    let bounced = if reprompts > 0 {
        failures(events).push(
            "review bounced the work back "@ + numbers::decimal_spec(reprompts) + " time(s)"@,
        )
    } else {
        failures(events)
    };
    let all = if turns_spec(events) > 0 {
        bounced.push(numbers::decimal_spec(turns_spec(events)) + " model turn(s) used"@)
    } else {
        bounced
    };
    if all.len() > MAX_SIGNALS {
        all.take(MAX_SIGNALS as int)
    } else {
        all
    }
}

fn called(events: &Vec<AgentLoopEvent>, upto: usize, index: usize) -> (r: String)
    requires
        upto <= events@.len(),
    ensures
        ({
            let tools = round_tools(agent_loop::events_view(events@).take(upto as int));
            r@ == (if index < tools.len() {
                tools[index as int].name
            } else {
                "?"@
            })
        }),
{
    let ghost all = agent_loop::events_view(events@);
    let mut n: usize = upto;
    while n > 0
        invariant
            n <= upto <= events@.len(),
            all == agent_loop::events_view(events@),
            round_tools(all.take(upto as int)) == round_tools(all.take(n as int)),
        decreases n,
    {
        assert(all.take(n as int).drop_last() =~= all.take(n - 1));
        assert(all.take(n as int).last() == events@[n - 1]@);
        match &events[n - 1] {
            AgentLoopEvent::Assistant { content: _, tool_calls, usage: _ } => {
                if index < tool_calls.len() {
                    return tool_calls[index].function.name.clone();
                }
                return "?".to_owned();
            },
            _ => {},
        }
        n = n - 1;
    }
    assert(all.take(0) =~= seq![]);
    "?".to_owned()
}

/// What a run shows: its failed calls, how often its work was sent back, and
/// how many turns it took.
pub fn mine_signals(events: &Vec<AgentLoopEvent>, reprompts: usize) -> (r: Vec<String>)
    ensures
        text::views(r@) == signals_spec(agent_loop::events_view(events@), reprompts as nat),
{
    let ghost all = agent_loop::events_view(events@);
    let mut out: Vec<String> = Vec::new();
    let mut turns: usize = 0;
    let mut i: usize = 0;
    assert(text::views(out@) =~= seq![]);
    while i < events.len()
        invariant
            i <= events@.len(),
            all == agent_loop::events_view(events@),
            turns <= i,
            turns == turns_spec(all.take(i as int)),
            text::views(out@) == failures(all.take(i as int)),
        decreases events@.len() - i,
    {
        assert(all.take(i + 1).drop_last() =~= all.take(i as int));
        assert(all.take(i + 1).last() == events@[i as int]@);
        match &events[i] {
            AgentLoopEvent::Assistant { .. } => {
                turns = turns + 1;
            },
            AgentLoopEvent::ToolResult { call_index, content } => {
                if find::starts_with(content.as_str(), "ERROR") || find::starts_with(
                    content.as_str(),
                    "DENIED",
                ) {
                    let tool = called(events, i, *call_index);
                    let shown = text::excerpt(content.as_str(), 160);
                    text::add_text(
                        &mut out,
                        text::cat3(tool.as_str(), ": ", shown.as_str()),
                    );
                }
            },
            _ => {},
        }
        i = i + 1;
    }
    assert(all.take(all.len() as int) =~= all);
    if reprompts > 0 {
        let n = numbers::decimal_len(reprompts);
        text::add_text(
            &mut out,
            text::cat3("review bounced the work back ", n.as_str(), " time(s)"),
        );
    }
    if turns > 0 {
        let n = numbers::decimal_len(turns);
        text::add_text(&mut out, text::cat2(n.as_str(), " model turn(s) used"));
    }
    let ghost whole = text::views(out@);
    assert(whole.len() == out@.len());
    let mut kept: Vec<String> = Vec::new();
    let mut k: usize = 0;
    assert(text::views(kept@) =~= whole.take(0));
    while k < out.len() && k < MAX_SIGNALS
        invariant
            k <= out@.len(),
            k <= MAX_SIGNALS,
            whole == text::views(out@),
            text::views(kept@) == whole.take(k as int),
        decreases out@.len() - k,
    {
        text::add_text(&mut kept, out[k].clone());
        assert(whole.take(k as int).push(whole[k as int]) =~= whole.take(k + 1));
        k = k + 1;
    }
    assert(whole.take(whole.len() as int) =~= whole);
    kept
}

/// The end of a text on one line: of a log the end is what tells.
pub open spec fn tail_spec(s: Seq<char>, max: nat) -> Seq<char> {
    let line = text::squash_spec(s);
    if line.len() <= max {
        line
    } else {
        "…"@ + line.skip(line.len() - max)
    }
}

/// The end of a text on one line.
pub fn tail_excerpt(s: &str, max: usize) -> (r: String)
    ensures
        r@ == tail_spec(s@, max as nat),
{
    let line = text::squash(s);
    let v = text::chars(line.as_str());
    let n: usize = v.len();
    if n <= max {
        return line;
    }
    let kept = text::text_range(v.as_slice(), n - max, n);
    assert(kept@ =~= line@.skip(n - max));
    text::cat2("…", kept.as_str())
}

/// What a check printed.
pub open spec fn check_output_spec(stdout: Seq<char>, stderr: Seq<char>) -> Seq<char> {
    let out = text::trim_spec(stdout);
    let err = text::trim_spec(stderr);
    if err.len() == 0 {
        out
    } else if out.len() == 0 {
        err
    } else {
        out + "\n"@ + err
    }
}

/// What is kept of a check's output: its end.
pub fn check_excerpt(stdout: &Vec<u8>, stderr: &Vec<u8>) -> (r: String)
    ensures
        r@ == tail_spec(
            check_output_spec(search::lossy_text(stdout@), search::lossy_text(stderr@)),
            MAX_CHECK_EXCERPT as nat,
        ),
{
    let printed = search::lossy(stdout.as_slice());
    let complained = search::lossy(stderr.as_slice());
    let out = text::trim(printed.as_str());
    let err = text::trim(complained.as_str());
    let shown = if err.as_str().is_empty() {
        out
    } else if out.as_str().is_empty() {
        err
    } else {
        text::cat3(out.as_str(), "\n", err.as_str())
    };
    tail_excerpt(shown.as_str(), MAX_CHECK_EXCERPT)
}

/// The words for a check that took too long.
pub fn check_timed_out(secs: u64) -> (r: String)
    ensures
        r@ == "check timed out after "@ + numbers::decimal_spec(secs as nat) + "s"@,
{
    let n = numbers::decimal(secs);
    text::cat3("check timed out after ", n.as_str(), "s")
}

// ---------------------------------------------------------------------------
// Running an eval
// ---------------------------------------------------------------------------

/// Where a run of an eval stands.
pub struct EvalProgress {
    /// The stage that runs next, by its place in the workflow.
    pub position: usize,
    /// Stages that were run.
    pub runs: u32,
    /// How often a stage sent the work back.
    pub reprompts: usize,
    /// What the last stage that finished gave.
    pub output: String,
}

/// What to do next in a run of an eval.
pub enum EvalStep {
    /// Every stage has finished.
    Done,
    /// Run the stage at this place of the workflow.
    Run(usize),
    /// Give up, with these words.
    Stop(String),
}

/// The words for a run that does not come to an end.
pub open spec fn stopped_text(limit: nat) -> Seq<char> {
    "stopped after "@ + numbers::decimal_spec(limit) + " stage runs without finishing"@
}

/// The first place of a name, from one on.
pub open spec fn place_from(names: Seq<Seq<char>>, name: Seq<char>, from: int) -> Option<int>
    decreases names.len() - from,
{
    if from < 0 || from >= names.len() {
        None
    } else if names[from] == name {
        Some(from)
    } else {
        place_from(names, name, from + 1)
    }
}

proof fn lemma_place(names: Seq<Seq<char>>, name: Seq<char>, from: int)
    requires
        0 <= from,
    ensures
        match place_from(names, name, from) {
            Some(i) => from <= i < names.len() && names[i] == name,
            None => forall|i: int| from <= i < names.len() ==> #[trigger] names[i] != name,
        },
    decreases names.len() - from,
{
    if from < names.len() && names[from] != name {
        lemma_place(names, name, from + 1);
    }
}

impl EvalProgress {
    /// A run that begins.
    pub fn new() -> (r: EvalProgress)
        ensures
            r.position == 0,
            r.runs == 0,
            r.reprompts == 0,
            r.output@.len() == 0,
    {
        EvalProgress { position: 0, runs: 0, reprompts: 0, output: String::new() }
    }

    /// Decide what comes next. A stage is run no more often than the limit
    /// allows over all stages.
    pub fn next(&mut self, stages: usize, limit: u32) -> (r: EvalStep)
        requires
            old(self).runs < u32::MAX,
        ensures
            final(self).position == old(self).position,
            final(self).reprompts == old(self).reprompts,
            final(self).output@ == old(self).output@,
            match r {
                EvalStep::Done => old(self).position >= stages && final(self).runs
                    == old(self).runs,
                EvalStep::Run(at) => old(self).position < stages && at == old(self).position
                    && final(self).runs == old(self).runs + 1 && final(self).runs <= limit,
                EvalStep::Stop(words) => old(self).position < stages && final(self).runs
                    == old(self).runs + 1 && final(self).runs > limit && words@ == stopped_text(
                    limit as nat,
                ),
            },
    {
        if self.position >= stages {
            return EvalStep::Done;
        }
        self.runs = self.runs + 1;
        if self.runs > limit {
            let n = numbers::decimal(limit as u64);
            return EvalStep::Stop(
                text::cat3("stopped after ", n.as_str(), " stage runs without finishing"),
            );
        }
        EvalStep::Run(self.position)
    }

    /// Take what a stage came to: its output moves the run on, a request to
    /// another stage moves it there. A stage is offered no others than those of
    /// the workflow.
    pub fn take(&mut self, outcome: &StageOutcome, names: &Vec<String>)
        requires
            old(self).position < names@.len(),
            old(self).reprompts < usize::MAX,
            outcome matches StageOutcome::Reprompt { target, .. } ==> text::views(names@).contains(
                target@,
            ),
        ensures
            final(self).runs == old(self).runs,
            match outcome@ {
                agent_loop::OutcomeView::Final(output) => final(self).position
                    == old(self).position + 1 && final(self).reprompts == old(self).reprompts
                    && final(self).output@ == output,
                agent_loop::OutcomeView::Reprompt { target, .. } => Some(
                    final(self).position as int,
                ) == place_from(text::views(names@), target, 0) && final(self).position
                    < names@.len() && final(self).reprompts == old(self).reprompts + 1
                    && final(self).output@ == old(self).output@,
            },
    {
        match outcome {
            StageOutcome::Final(output) => {
                let n: usize = names.len();
                self.output = output.clone();
                self.position = self.position + 1;
            },
            StageOutcome::Reprompt { target, instructions: _ } => {
                self.reprompts = self.reprompts + 1;
                let ghost all = text::views(names@);
                let mut i: usize = 0;
                while i < names.len() && !text::same(names[i].as_str(), target.as_str())
                    invariant
                        i <= names@.len(),
                        all == text::views(names@),
                        place_from(all, target@, 0) == place_from(all, target@, i as int),
                    decreases names@.len() - i,
                {
                    assert(all[i as int] == names@[i as int]@);
                    i = i + 1;
                }
                proof {
                    lemma_place(all, target@, 0);
                    if i < names@.len() {
                        assert(all[i as int] == names@[i as int]@);
                    } else {
                        let k = all.index_of(target@);
                        assert(all[k] == target@);
                    }
                }
                self.position = i;
            },
        }
    }
}

/// The evals that a filter selects, by their places.
pub open spec fn selected_spec(evals: Seq<Eval>, filter: Seq<Seq<char>>) -> Seq<int>
    decreases evals.len(),
{
    if evals.len() == 0 {
        seq![]
    } else {
        let before = selected_spec(evals.drop_last(), filter);
        if filter.len() == 0 || filter.contains(evals.last().name@) {
            before.push(evals.len() - 1)
        } else {
            before
        }
    }
}

/// The evals that a filter selects, by their places. An empty filter selects
/// all.
pub fn select_evals(evals: &Vec<Eval>, filter: &Vec<String>) -> (r: Vec<usize>)
    ensures
        Seq::new(r@.len(), |i: int| r@[i] as int) == selected_spec(evals@, text::views(filter@)),
        forall|i: int| 0 <= i < r@.len() ==> (#[trigger] r@[i]) < evals@.len(),
{
    let ghost wanted = text::views(filter@);
    assert(wanted.len() == filter@.len());
    let mut out: Vec<usize> = Vec::new();
    let ghost mut places: Seq<int> = seq![];
    let mut i: usize = 0;
    while i < evals.len()
        invariant
            i <= evals@.len(),
            wanted == text::views(filter@),
            wanted.len() == filter@.len(),
            places == selected_spec(evals@.take(i as int), wanted),
            places == Seq::new(out@.len(), |k: int| out@[k] as int),
            forall|k: int| 0 <= k < out@.len() ==> (#[trigger] out@[k]) < i,
        decreases evals@.len() - i,
    {
        assert(evals@.take(i + 1).drop_last() =~= evals@.take(i as int));
        assert(evals@.take(i + 1).last() == evals@[i as int]);
        if filter.len() == 0 || text::listed(filter, evals[i].name.as_str()) {
            out.push(i);
            proof {
                places = places.push(i as int);
            }
            assert(places =~= Seq::new(out@.len(), |k: int| out@[k] as int));
        }
        i = i + 1;
    }
    assert(evals@.take(evals@.len() as int) =~= evals@);
    out
}

/// The line that reports an eval's result.
pub open spec fn result_line_spec(passed: bool, error: Option<Seq<char>>) -> Seq<char> {
    (if passed {
        "pass"@
    } else {
        "FAIL"@
    }) + (match error {
        Some(e) => " ("@ + text::excerpt_spec(e, 120) + ")"@,
        None => seq![],
    })
}

/// The line that reports an eval's result.
pub fn result_line(outcome: &EvalOutcome) -> (r: String)
    ensures
        r@ == result_line_spec(outcome.passed, model::option_text(outcome.error)),
{
    let word: &str = if outcome.passed {
        "pass"
    } else {
        "FAIL"
    };
    let why = match &outcome.error {
        Some(e) => {
            let shown = text::excerpt(e.as_str(), 120);
            text::cat3(" (", shown.as_str(), ")")
        },
        None => {
            let nothing = String::new();
            assert(nothing@ =~= seq![]);
            nothing
        },
    };
    text::cat2(word, why.as_str())
}

/// The line with a failed check's own words, where there are any.
pub fn check_line(outcome: &EvalOutcome) -> (r: Option<String>)
    ensures
        model::option_text(r) == (if !outcome.passed && outcome.error is None
            && outcome.check_excerpt@.len() > 0 {
            Some("    check: "@ + tail_spec(outcome.check_excerpt@, 400))
        } else {
            None
        }),
{
    if !outcome.passed && outcome.error.is_none() && !outcome.check_excerpt.as_str().is_empty() {
        let shown = tail_excerpt(outcome.check_excerpt.as_str(), 400);
        Some(text::cat2("    check: ", shown.as_str()))
    } else {
        None
    }
}

// ---------------------------------------------------------------------------
// Applying a proposal, and taking it back
// ---------------------------------------------------------------------------

/// The file that a target stands in.
pub open spec fn path_spec(base: Seq<char>, t: TargetView) -> Seq<char> {
    match t {
        TargetView::Lessons => paths::under_spec(base, "SOA.md"@),
        TargetView::PromptFile { path, .. } => path,
    }
}

/// The file that a target stands in.
pub fn target_path(base: &str, target: &Target) -> (r: String)
    ensures
        r@ == path_spec(base@, target@),
{
    match target {
        Target::Lessons => reflect::lessons_file(base),
        Target::PromptFile { id: _, path } => path.clone(),
    }
}

/// What a target holds, where its file holds `current`.
pub open spec fn shown_spec(t: TargetView, current: Seq<char>) -> Seq<char> {
    match t {
        TargetView::Lessons => text::join_spec(reflect::lessons_in(current), "\n"@),
        TargetView::PromptFile { .. } => current,
    }
}

/// What a target holds: the lessons one per line, or the whole prompt.
pub fn read_target(target: &Target, current: &str) -> (r: String)
    ensures
        r@ == shown_spec(target@, current@),
{
    match target {
        Target::Lessons => text::join(&reflect::read_lessons(current), "\n"),
        Target::PromptFile { .. } => current.to_owned(),
    }
}

/// What a target held before it was rewritten.
pub enum Backup {
    Lessons(Vec<String>),
    File { path: String, content: String },
}

/// What a backup stands for.
pub enum BackupView {
    Lessons(Seq<Seq<char>>),
    File { path: Seq<char>, content: Seq<char> },
}

impl View for Backup {
    type V = BackupView;

    open spec fn view(&self) -> BackupView {
        match self {
            Backup::Lessons(lessons) => BackupView::Lessons(text::views(lessons@)),
            Backup::File { path, content } => BackupView::File { path: path@, content: content@ },
        }
    }
}

/// A target's file once a proposal is applied to it.
pub open spec fn applied_spec(t: TargetView, current: Seq<char>, content: Seq<char>) -> Seq<char> {
    match t {
        TargetView::Lessons => reflect::with_lessons(
            current,
            reflect::validated(all_undashed(text::lines_spec(content))),
        ),
        TargetView::PromptFile { .. } => content,
    }
}

/// What is kept of a target's file so that a proposal can be taken back.
pub open spec fn backup_spec(t: TargetView, current: Seq<char>) -> BackupView {
    match t {
        TargetView::Lessons => BackupView::Lessons(reflect::lessons_in(current)),
        TargetView::PromptFile { path, .. } => BackupView::File { path, content: current },
    }
}

/// Apply a proposal to a target whose file holds `current`: what to write, and
/// what to keep.
pub fn apply_target(target: &Target, current: &str, content: &str) -> (r: (String, Backup))
    ensures
        r.0@ == applied_spec(target@, current@, content@),
        r.1@ == backup_spec(target@, current@),
{
    match target {
        Target::Lessons => {
            let previous = reflect::read_lessons(current);
            let lessons = proposed_lessons(content);
            (reflect::replace_lessons_block(current, &lessons), Backup::Lessons(previous))
        },
        Target::PromptFile { id: _, path } => (
            content.to_owned(),
            Backup::File { path: path.clone(), content: current.to_owned() },
        ),
    }
}

/// A file once a proposal is taken back.
pub open spec fn reverted_spec(b: BackupView, current: Seq<char>) -> Seq<char> {
    match b {
        BackupView::Lessons(lessons) => reflect::with_lessons(current, lessons),
        BackupView::File { content, .. } => content,
    }
}

/// Take a proposal back: what to write into a file that holds `current`.
pub fn revert(backup: Backup, current: &str) -> (r: String)
    ensures
        r@ == reverted_spec(backup@, current@),
{
    match backup {
        Backup::Lessons(lessons) => reflect::replace_lessons_block(current, &lessons),
        Backup::File { path: _, content } => content,
    }
}

/// Taking back a prompt gives the file as it was.
pub proof fn law_a_reverted_prompt_is_as_it_was(
    id: Seq<char>,
    path: Seq<char>,
    current: Seq<char>,
    content: Seq<char>,
)
    ensures
        ({
            let t = TargetView::PromptFile { id, path };
            reverted_spec(backup_spec(t, current), applied_spec(t, current, content)) == current
        }),
{
}

/// Taking back lessons gives a file that holds those of before, whatever was
/// proposed, and the text around them is left alone.
pub proof fn law_reverted_lessons_are_as_they_were(current: Seq<char>, content: Seq<char>)
    requires
        block::tidy(
            current,
            reflect::LESSONS_START@,
            reflect::LESSONS_END@,
            reflect::LESSONS_START@.len(),
        ),
        !find::contains_spec(
            reflect::lessons_inner(reflect::validated(all_undashed(text::lines_spec(content)))),
            reflect::LESSONS_END@,
        ),
        forall|i: int|
            0 <= i < reflect::lessons_in(current).len() ==> reflect::one_line(
                #[trigger] reflect::lessons_in(current)[i],
            ),
    ensures
        ({
            let t = TargetView::Lessons;
            let after = reverted_spec(backup_spec(t, current), applied_spec(t, current, content));
            &&& reflect::lessons_in(after) == reflect::lessons_in(current)
            &&& after == reflect::with_lessons(current, reflect::lessons_in(current))
        }),
{
    reflect::law_earlier_lessons_come_back(
        current,
        reflect::validated(all_undashed(text::lines_spec(content))),
    );
}

// ---------------------------------------------------------------------------
// What the proposer is shown
// ---------------------------------------------------------------------------

/// The inputs that can be improved.
pub open spec fn inputs_spec(targets: Seq<TargetView>, contents: Seq<Seq<char>>) -> Seq<char>
    decreases targets.len(),
{
    if targets.len() == 0 {
        seq![]
    } else {
        inputs_spec(targets.drop_last(), contents) + "## target: "@ + target_id(targets.last())
            + "\n```\n"@ + text::excerpt_spec(
            contents[targets.len() - 1],
            MAX_INPUT_CHARS as nat,
        ) + "\n```\n\n"@
    }
}

/// How many results are held out.
pub open spec fn holdouts_spec(list: Seq<scores::OutcomeView>) -> nat
    decreases list.len(),
{
    if list.len() == 0 {
        0
    } else {
        holdouts_spec(list.drop_last()) + (if list.last().holdout {
            1nat
        } else {
            0
        })
    }
}

/// Signals as a list.
pub open spec fn signal_list(signals: Seq<Seq<char>>) -> Seq<char>
    decreases signals.len(),
{
    if signals.len() == 0 {
        seq![]
    } else {
        signal_list(signals.drop_last()) + "- "@ + signals.last() + "\n"@
    }
}

/// The words for a run's error.
pub open spec fn error_part(o: scores::OutcomeView) -> Seq<char> {
    match o.error {
        Some(e) => "run error: "@ + e + "\n"@,
        None => seq![],
    }
}

/// The words for what a failed check printed.
pub open spec fn check_part(o: scores::OutcomeView) -> Seq<char> {
    if !o.passed && o.check_excerpt.len() > 0 {
        "check output:\n"@ + o.check_excerpt + "\n"@
    } else {
        seq![]
    }
}

/// The words for what a run gave.
pub open spec fn output_part(o: scores::OutcomeView) -> Seq<char> {
    if o.output_excerpt.len() > 0 {
        "final output: "@ + o.output_excerpt + "\n"@
    } else {
        seq![]
    }
}

/// The words for a verdict.
pub open spec fn pass_word(passed: bool) -> Seq<char> {
    if passed {
        "PASS"@
    } else {
        "FAIL"@
    }
}

/// What is shown of a result.
pub open spec fn result_part(o: scores::OutcomeView) -> Seq<char> {
    "## eval `"@ + o.name + "` — "@ + pass_word(o.passed) + "\n"@ + error_part(o) + check_part(o)
        + output_part(o) + signal_list(o.signals) + "\n"@
}

/// What is shown of the results: nothing of those held out.
pub open spec fn results_spec(list: Seq<scores::OutcomeView>) -> Seq<char>
    decreases list.len(),
{
    if list.len() == 0 {
        seq![]
    } else if list.last().holdout {
        results_spec(list.drop_last())
    } else {
        results_spec(list.drop_last()) + result_part(list.last())
    }
}

/// The words for the results that are held out.
pub open spec fn holdout_note(n: nat) -> Seq<char> {
    if n > 0 {
        "("@ + numbers::decimal_spec(n)
            + " additional held-out eval(s) exist; their content is hidden and your proposal must not regress them.)\n\n"@
    } else {
        seq![]
    }
}

/// The words for an earlier verdict.
pub open spec fn adopted_word(adopted: bool) -> Seq<char> {
    if adopted {
        "adopted"@
    } else {
        "rejected"@
    }
}

/// What is shown of an earlier proposal.
pub open spec fn entry_part(e: HistoryEntry) -> Seq<char> {
    "- ["@ + adopted_word(e.adopted) + "] "@ + e.target@ + ": "@ + text::excerpt_spec(
        e.rationale@,
        120,
    ) + " — "@ + text::excerpt_spec(e.reason@, 120) + "\n"@
}

/// What is shown of the last `n` earlier proposals, the latest first.
pub open spec fn entries_spec(history: Seq<HistoryEntry>, n: nat) -> Seq<char>
    decreases n,
{
    if n == 0 || history.len() == 0 {
        seq![]
    } else {
        entry_part(history.last()) + entries_spec(history.drop_last(), (n - 1) as nat)
    }
}

/// The part of the prompt on earlier proposals.
pub open spec fn history_part(history: Seq<HistoryEntry>) -> Seq<char> {
    if history.len() > 0 {
        "# Previous proposals (do not retry rejected ones)\n\n"@ + entries_spec(
            history,
            MAX_HISTORY_SHOWN as nat,
        ) + "\n"@
    } else {
        seq![]
    }
}

/// What the proposer is asked.
pub open spec fn proposer_prompt_spec(
    targets: Seq<TargetView>,
    contents: Seq<Seq<char>>,
    results: Seq<scores::OutcomeView>,
    history: Seq<HistoryEntry>,
) -> Seq<char> {
    "# Evolvable inputs\n\n"@ + inputs_spec(targets, contents) + "# Eval results\n\n"@
        + holdout_note(holdouts_spec(results)) + results_spec(results) + history_part(history)
        + "Valid targets: "@ + text::join_spec(ids_spec(targets), ", "@) + "\n"@
}

fn inputs_text(targets: &Vec<Target>, contents: &Vec<String>) -> (r: String)
    requires
        targets@.len() == contents@.len(),
    ensures
        r@ == inputs_spec(targets_view(targets@), text::views(contents@)),
{
    let ghost all = targets_view(targets@);
    let ghost held = text::views(contents@);
    let mut out = String::new();
    let mut i: usize = 0;
    assert(out@ =~= inputs_spec(all.take(0), held));
    while i < targets.len()
        invariant
            i <= targets@.len(),
            targets@.len() == contents@.len(),
            all == targets_view(targets@),
            held == text::views(contents@),
            out@ == inputs_spec(all.take(i as int), held),
        decreases targets@.len() - i,
    {
        assert(all.take(i + 1).drop_last() =~= all.take(i as int));
        assert(all.take(i + 1).last() == targets@[i as int]@);
        out.append("## target: ");
        out.append(targets[i].id());
        out.append("\n```\n");
        out.append(text::excerpt(contents[i].as_str(), MAX_INPUT_CHARS).as_str());
        out.append("\n```\n\n");
        i = i + 1;
    }
    assert(all.take(all.len() as int) =~= all);
    out
}

fn signals_text(signals: &Vec<String>) -> (r: String)
    ensures
        r@ == signal_list(text::views(signals@)),
{
    let ghost all = text::views(signals@);
    let mut out = String::new();
    let mut i: usize = 0;
    assert(out@ =~= signal_list(all.take(0)));
    while i < signals.len()
        invariant
            i <= signals@.len(),
            all == text::views(signals@),
            out@ == signal_list(all.take(i as int)),
        decreases signals@.len() - i,
    {
        assert(all.take(i + 1).drop_last() =~= all.take(i as int));
        out.append("- ");
        out.append(signals[i].as_str());
        out.append("\n");
        i = i + 1;
    }
    assert(all.take(all.len() as int) =~= all);
    out
}

fn result_text(outcome: &EvalOutcome) -> (r: String)
    ensures
        r@ == result_part(outcome@),
{
    let word: &str = if outcome.passed {
        "PASS"
    } else {
        "FAIL"
    };
    let nothing = String::new();
    assert(nothing@ =~= seq![]);
    let error = match &outcome.error {
        Some(e) => text::cat3("run error: ", e.as_str(), "\n"),
        None => nothing.clone(),
    };
    let check = if !outcome.passed && !outcome.check_excerpt.as_str().is_empty() {
        text::cat3("check output:\n", outcome.check_excerpt.as_str(), "\n")
    } else {
        nothing.clone()
    };
    let output = if !outcome.output_excerpt.as_str().is_empty() {
        text::cat3("final output: ", outcome.output_excerpt.as_str(), "\n")
    } else {
        nothing
    };
    let mut out = text::cat5("## eval `", outcome.name.as_str(), "` — ", word, "\n");
    out.append(error.as_str());
    out.append(check.as_str());
    out.append(output.as_str());
    out.append(signals_text(&outcome.signals).as_str());
    out.append("\n");
    out
}

fn count_holdouts(outcomes: &Vec<EvalOutcome>) -> (r: usize)
    ensures
        r == holdouts_spec(scores::outcomes_view(outcomes@)),
{
    let ghost all = scores::outcomes_view(outcomes@);
    let mut n: usize = 0;
    let mut i: usize = 0;
    while i < outcomes.len()
        invariant
            n <= i <= outcomes@.len(),
            all == scores::outcomes_view(outcomes@),
            n == holdouts_spec(all.take(i as int)),
        decreases outcomes@.len() - i,
    {
        assert(all.take(i + 1).drop_last() =~= all.take(i as int));
        assert(all.take(i + 1).last() == outcomes@[i as int]@);
        if outcomes[i].holdout {
            n = n + 1;
        }
        i = i + 1;
    }
    assert(all.take(all.len() as int) =~= all);
    n
}

fn results_text(outcomes: &Vec<EvalOutcome>) -> (r: String)
    ensures
        r@ == results_spec(scores::outcomes_view(outcomes@)),
{
    let ghost all = scores::outcomes_view(outcomes@);
    let mut out = String::new();
    let mut i: usize = 0;
    assert(out@ =~= results_spec(all.take(0)));
    while i < outcomes.len()
        invariant
            i <= outcomes@.len(),
            all == scores::outcomes_view(outcomes@),
            out@ == results_spec(all.take(i as int)),
        decreases outcomes@.len() - i,
    {
        assert(all.take(i + 1).drop_last() =~= all.take(i as int));
        assert(all.take(i + 1).last() == outcomes@[i as int]@);
        if !outcomes[i].holdout {
            out.append(result_text(&outcomes[i]).as_str());
        }
        i = i + 1;
    }
    assert(all.take(all.len() as int) =~= all);
    out
}

fn entry_text(entry: &HistoryEntry) -> (r: String)
    ensures
        r@ == entry_part(*entry),
{
    let word: &str = if entry.adopted {
        "adopted"
    } else {
        "rejected"
    };
    let mut out = text::cat5("- [", word, "] ", entry.target.as_str(), ": ");
    out.append(text::excerpt(entry.rationale.as_str(), 120).as_str());
    out.append(" — ");
    out.append(text::excerpt(entry.reason.as_str(), 120).as_str());
    out.append("\n");
    out
}

fn history_text(history: &Vec<HistoryEntry>) -> (r: String)
    ensures
        r@ == history_part(history@),
{
    if history.len() == 0 {
        let nothing = String::new();
        assert(nothing@ =~= seq![]);
        return nothing;
    }
    let mut entries = String::new();
    let mut shown: usize = 0;
    let ghost all = history@;
    let ghost cap = MAX_HISTORY_SHOWN as nat;
    assert(all.take(all.len() as int) =~= all);
    assert(entries@ + entries_spec(all, cap) =~= entries_spec(all, cap));
    while shown < history.len() && shown < MAX_HISTORY_SHOWN
        invariant
            shown <= history@.len(),
            shown <= MAX_HISTORY_SHOWN,
            all == history@,
            cap == MAX_HISTORY_SHOWN,
            entries@ + entries_spec(all.take(all.len() - shown), (cap - shown) as nat)
                == entries_spec(all, cap),
        decreases history@.len() - shown,
    {
        let last: usize = history.len() - shown - 1;
        let ghost rest = all.take(all.len() - shown);
        let ghost before = entries@;
        assert(rest.drop_last() =~= all.take(all.len() - shown - 1));
        assert(rest.last() == all[last as int]);
        let part = entry_text(&history[last]);
        entries.append(part.as_str());
        assert(before + (part@ + entries_spec(rest.drop_last(), (cap - shown - 1) as nat))
            =~= entries@ + entries_spec(rest.drop_last(), (cap - shown - 1) as nat));
        shown = shown + 1;
    }
    assert(entries@ + seq![] =~= entries@);
    text::cat3("# Previous proposals (do not retry rejected ones)\n\n", entries.as_str(), "\n")
}

/// What the proposer is asked: the inputs, the results it may see, and what was
/// tried before.
pub fn build_proposer_prompt(
    targets: &Vec<Target>,
    contents: &Vec<String>,
    results: &SuiteScore,
    history: &Vec<HistoryEntry>,
) -> (r: String)
    requires
        targets@.len() == contents@.len(),
    ensures
        r@ == proposer_prompt_spec(
            targets_view(targets@),
            text::views(contents@),
            scores::outcomes_view(results.outcomes@),
            history@,
        ),
{
    let n: usize = count_holdouts(&results.outcomes);
    let note = if n > 0 {
        let written = numbers::decimal_len(n);
        text::cat3(
            "(",
            written.as_str(),
            " additional held-out eval(s) exist; their content is hidden and your proposal must not regress them.)\n\n",
        )
    } else {
        let nothing = String::new();
        assert(nothing@ =~= seq![]);
        nothing
    };
    let mut out = text::cat3(
        "# Evolvable inputs\n\n",
        inputs_text(targets, contents).as_str(),
        "# Eval results\n\n",
    );
    out.append(note.as_str());
    out.append(results_text(&results.outcomes).as_str());
    out.append(history_text(history).as_str());
    out.append("Valid targets: ");
    out.append(text::join(&ids(targets), ", ").as_str());
    out.append("\n");
    out
}

/// What is held out stays hidden: the proposer is asked the same whatever a
/// held-out eval is called and whatever came of it.
pub proof fn law_holdouts_are_hidden(
    targets: Seq<TargetView>,
    contents: Seq<Seq<char>>,
    results: Seq<scores::OutcomeView>,
    other: Seq<scores::OutcomeView>,
    history: Seq<HistoryEntry>,
)
    requires
        results.len() == other.len(),
        forall|i: int|
            0 <= i < results.len() ==> #[trigger] results[i] == other[i] || results[i].holdout && other[i].holdout,
    ensures
        proposer_prompt_spec(targets, contents, results, history) == proposer_prompt_spec(
            targets,
            contents,
            other,
            history,
        ),
{
    lemma_hidden(results, other);
}

proof fn lemma_hidden(results: Seq<scores::OutcomeView>, other: Seq<scores::OutcomeView>)
    requires
        results.len() == other.len(),
        forall|i: int|
            0 <= i < results.len() ==> #[trigger] results[i] == other[i] || results[i].holdout && other[i].holdout,
    ensures
        results_spec(results) == results_spec(other),
        holdouts_spec(results) == holdouts_spec(other),
    decreases results.len(),
{
    if results.len() > 0 {
        let a = results.drop_last();
        let b = other.drop_last();
        assert forall|i: int| 0 <= i < a.len() implies #[trigger] a[i] == b[i] || a[i].holdout && b[i].holdout by {
            assert(results[i] == other[i] || results[i].holdout && other[i].holdout);
        }
        lemma_hidden(a, b);
        let n = results.len() - 1;
        assert(results[n] == other[n] || results[n].holdout && other[n].holdout);
    }
}

// ---------------------------------------------------------------------------
// The loop
// ---------------------------------------------------------------------------

/// The stages that an eval runs.
pub open spec fn stages_fault(eval: Eval, order: nat) -> Option<Seq<char>> {
    if order == 0 {
        Some("eval `"@ + eval.name@ + "`: the selected workflow is empty"@)
    } else {
        None
    }
}

/// Check that there is something to run.
pub fn check_stages(eval: &Eval, order: usize) -> (r: Result<(), String>)
    ensures
        match r {
            Ok(_) => stages_fault(*eval, order as nat) is None,
            Err(words) => stages_fault(*eval, order as nat) == Some(words@),
        },
{
    if order == 0 {
        return Err(
            text::cat3("eval `", eval.name.as_str(), "`: the selected workflow is empty"),
        );
    }
    Ok(())
}

/// The result of a run: it passed where it came to an end and its check said
/// so.
pub open spec fn graded(
    eval: Eval,
    error: Option<Seq<char>>,
    check: (bool, Seq<char>),
    usage: EvalUsage,
    wall_ms: nat,
    output: Seq<char>,
    events: Seq<agent_loop::EventView>,
    reprompts: nat,
) -> scores::OutcomeView {
    let models = scores::rows_view(usage.models@);
    scores::OutcomeView {
        name: eval.name@,
        holdout: eval.holdout,
        passed: error is None && check.0,
        error,
        tokens: evals::sum_of(models, evals::prompt_column()) + evals::sum_of(
            models,
            evals::completion_column(),
        ),
        models,
        scopes: scores::rows_view(usage.scopes@),
        wall_ms,
        check_excerpt: if error is None {
            check.1
        } else {
            seq![]
        },
        output_excerpt: text::excerpt_spec(output, MAX_OUTPUT_EXCERPT as nat),
        signals: signals_spec(events, reprompts),
    }
}

/// Grade a run. Where it stopped with an error its check was not run, and
/// what is given for the check does not count.
pub fn grade(
    eval: &Eval,
    error: Option<String>,
    check: (bool, String),
    usage: EvalUsage,
    wall_ms: u64,
    progress: &EvalProgress,
    events: &Vec<AgentLoopEvent>,
) -> (r: EvalOutcome)
    requires
        evals::usage_fits(scores::rows_view(usage.models@), scores::rows_view(usage.scopes@)),
    ensures
        r@ == graded(
            *eval,
            model::option_text(error),
            (check.0, check.1@),
            usage,
            wall_ms as nat,
            progress.output@,
            agent_loop::events_view(events@),
            progress.reprompts as nat,
        ),
{
    let failed = error.is_some();
    let tokens: u64 = evals::tokens_used(&usage);
    let nothing = String::new();
    assert(nothing@ =~= seq![]);
    EvalOutcome {
        name: eval.name.clone(),
        holdout: eval.holdout,
        passed: !failed && check.0,
        error,
        tokens,
        usage,
        wall_ms,
        check_excerpt: if failed {
            nothing
        } else {
            check.1
        },
        output_excerpt: text::excerpt(progress.output.as_str(), MAX_OUTPUT_EXCERPT),
        signals: mine_signals(events, progress.reprompts),
    }
}

/// The words for a suite that has nothing to score.
pub const NO_EVALS: &'static str = "no [[eval]] entries configured — soa evolve needs scored tasks to measure improvement against";

/// The warning for a surface that is small.
pub const ONLY_LESSONS: &'static str = "⚠ only the lessons block is evolvable — move stage/agent prompts to system_prompt_file to widen the surface";

/// The warning for a suite that holds nothing out.
pub const NO_HOLDOUTS: &'static str = "⚠ no holdout evals: proposals can overfit to the suite — mark at least one eval `holdout = true`";

/// Whether one of the evals is held out.
pub open spec fn some_holdout(evals: Seq<Eval>) -> bool {
    exists|i: int| 0 <= i < evals.len() && (#[trigger] evals[i]).holdout
}

/// What to warn of before a run.
pub open spec fn warnings_spec(targets: nat, held: bool) -> Seq<Seq<char>> {
    let first = if targets == 1 {
        seq![ONLY_LESSONS@]
    } else {
        seq![]
    };
    if held {
        first
    } else {
        first.push(NO_HOLDOUTS@)
    }
}

/// What to warn of before a run, or why it cannot be made.
pub fn check_suite(evals: &Vec<Eval>, targets: &Vec<Target>) -> (r: Result<Vec<String>, String>)
    ensures
        match r {
            Ok(warnings) => evals@.len() > 0 && text::views(warnings@) == warnings_spec(
                targets@.len(),
                some_holdout(evals@),
            ),
            Err(words) => evals@.len() == 0 && words@ == NO_EVALS@,
        },
{
    if evals.len() == 0 {
        return Err(NO_EVALS.to_owned());
    }
    let mut held = false;
    let mut i: usize = 0;
    while i < evals.len()
        invariant
            i <= evals@.len(),
            held == exists|k: int| 0 <= k < i && (#[trigger] evals@[k]).holdout,
        decreases evals@.len() - i,
    {
        if evals[i].holdout {
            assert(evals@[i as int].holdout);
            held = true;
        }
        i = i + 1;
    }
    let mut out: Vec<String> = Vec::new();
    assert(text::views(out@) =~= seq![]);
    if targets.len() == 1 {
        text::add_text(&mut out, ONLY_LESSONS.to_owned());
        assert(text::views(out@) =~= seq![ONLY_LESSONS@]);
    }
    if !held {
        text::add_text(&mut out, NO_HOLDOUTS.to_owned());
    }
    Ok(out)
}

/// What a verdict decides.
pub struct Settled {
    /// What the history keeps.
    pub entry: HistoryEntry,
    /// Whether the candidate is the next baseline; else the proposal is taken
    /// back.
    pub keep: bool,
    /// The line that tells of it.
    pub line: String,
    /// What the summary says of an adopted proposal.
    pub change: Option<String>,
}

/// Whether a record tells of a proposal and its verdict.
pub open spec fn settles(
    s: Settled,
    target: TargetView,
    proposal: Proposal,
    baseline: Seq<scores::SuiteScore>,
    candidate: Seq<scores::SuiteScore>,
    at: nat,
) -> bool {
    let verdict = scores::verdict_spec(baseline, candidate);
    &&& s.keep == (verdict is Adopt)
    &&& s.entry.at == at
    &&& s.entry.target@ == target_id(target)
    &&& s.entry.rationale@ == proposal.rationale@
    &&& s.entry.adopted == s.keep
    &&& s.entry.baseline@ == scores::describe_spec(baseline)
    &&& s.entry.candidate@ == scores::describe_spec(candidate)
    &&& match verdict {
        scores::VerdictView::Adopt(reason) => {
            &&& s.entry.reason@ == reason
            &&& s.line@ == "✔ adopted ("@ + reason + ")"@
            &&& model::option_text(s.change) == Some(
                target_id(target) + " — "@ + proposal.rationale@,
            )
        },
        scores::VerdictView::Reject(reason) => {
            &&& s.entry.reason@ == reason
            &&& s.line@ == "✗ reverted ("@ + reason + ")"@
            &&& s.change is None
        },
    }
}

/// Settle a proposal by what the suite said before and after it.
pub fn settle(
    target: &Target,
    proposal: &Proposal,
    baseline: &SuiteStats,
    candidate: &SuiteStats,
    at: u64,
) -> (r: Settled)
    requires
        scores::runs_fit(baseline.runs@),
        scores::runs_fit(candidate.runs@),
    ensures
        settles(r, target@, *proposal, baseline.runs@, candidate.runs@, at as nat),
{
    let verdict = scores::compare(baseline, candidate);
    let (keep, reason, line, change) = match verdict {
        Verdict::Adopt(reason) => {
            let line = text::cat3("✔ adopted (", reason.as_str(), ")");
            let change = text::cat3(target.id(), " — ", proposal.rationale.as_str());
            (true, reason, line, Some(change))
        },
        Verdict::Reject(reason) => {
            let line = text::cat3("✗ reverted (", reason.as_str(), ")");
            (false, reason, line, None)
        },
    };
    Settled {
        entry: HistoryEntry {
            at,
            target: target.id().to_owned(),
            rationale: proposal.rationale.clone(),
            adopted: keep,
            reason,
            baseline: baseline.describe(),
            candidate: candidate.describe(),
        },
        keep,
        line,
        change,
    }
}

/// The lines of the adopted changes.
pub open spec fn change_lines(changes: Seq<Seq<char>>) -> Seq<Seq<char>> {
    Seq::new(changes.len(), |i: int| "adopted: "@ + changes[i])
}

/// The lines that end a run.
pub open spec fn summary_spec(baseline: Seq<scores::SuiteScore>, changes: Seq<Seq<char>>) -> Seq<
    Seq<char>,
> {
    let head = seq!["final: "@ + scores::describe_spec(baseline)];
    if changes.len() == 0 {
        head.push("no proposals adopted — inputs are unchanged"@)
    } else {
        (head + change_lines(changes)).push(
            "review the changes with `git diff`, revert with `git checkout`"@,
        )
    }
}

/// The lines that end a run.
pub fn summary(baseline: &SuiteStats, changes: &Vec<String>) -> (r: Vec<String>)
    requires
        scores::runs_fit(baseline.runs@),
    ensures
        text::views(r@) == summary_spec(baseline.runs@, text::views(changes@)),
{
    let ghost all = text::views(changes@);
    let ghost head = seq!["final: "@ + scores::describe_spec(baseline.runs@)];
    let mut out: Vec<String> = Vec::new();
    text::add_text(&mut out, text::cat2("final: ", baseline.describe().as_str()));
    assert(text::views(out@) =~= head);
    if changes.len() == 0 {
        text::add_text(&mut out, "no proposals adopted — inputs are unchanged".to_owned());
        return out;
    }
    let mut i: usize = 0;
    assert(head + change_lines(all).take(0) =~= head);
    while i < changes.len()
        invariant
            i <= changes@.len(),
            all == text::views(changes@),
            text::views(out@) == head + change_lines(all).take(i as int),
        decreases changes@.len() - i,
    {
        let ghost before = text::views(out@);
        text::add_text(&mut out, text::cat2("adopted: ", changes[i].as_str()));
        assert(before.push(change_lines(all)[i as int]) =~= head + change_lines(all).take(i + 1));
        i = i + 1;
    }
    assert(change_lines(all).take(all.len() as int) =~= change_lines(all));
    text::add_text(
        &mut out,
        "review the changes with `git diff`, revert with `git checkout`".to_owned(),
    );
    out
}

} // verus!

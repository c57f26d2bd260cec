//! Checkpoints of pipeline runs.
//!
//! A run's state is saved at stage boundaries, while the events of the active
//! stage go to a log beside it. Resuming merges the two.

use vstd::prelude::*;
use vstd::string::*;

use crate::agent_loop;
use crate::agent_loop::AgentLoopEvent;
use crate::diff::DiffEntry;
use crate::numbers;
use crate::same;
use crate::table::Table;
use crate::text;
use crate::usage;
use crate::usage::UsageSnapshot;

verus! {

// ---------------------------------------------------------------------------
// State
// ---------------------------------------------------------------------------

/// Progress inside the stage that is running: its events are only ever
/// added to, and dropped once the stage's outcome is saved.
pub struct StageProgress {
    pub stage: String,
    pub run: u32,
    pub events: Vec<AgentLoopEvent>,
}

/// What a stage's progress stands for.
pub struct ProgressView {
    pub stage: Seq<char>,
    pub run: u32,
    pub events: Seq<agent_loop::EventView>,
}

impl View for StageProgress {
    type V = ProgressView;

    open spec fn view(&self) -> ProgressView {
        ProgressView {
            stage: self.stage@,
            run: self.run,
            events: agent_loop::events_view(self.events@),
        }
    }
}

/// A checkpoint.
pub struct RunState {
    pub id: String,
    pub started_at: u64,
    pub updated_at: u64,
    /// Directory from which the run was started.
    pub cwd: String,
    pub task: String,
    /// Execution order by stage name, so that a reordered configuration
    /// cannot change what a resumed run does.
    pub stage_names: Vec<String>,
    /// Position in `stage_names` of the next stage to run.
    pub position: usize,
    /// Stage executions so far.
    pub runs: u32,
    /// What the next stage sees as the previous output: after a reprompt the
    /// instructions.
    pub previous: Option<String>,
    /// Outputs of completed stages, by name.
    pub outputs: Table<String>,
    pub usage: UsageSnapshot,
    pub active_stage: Option<StageProgress>,
    pub diffs: Vec<DiffEntry>,
}

impl RunState {
    /// A fresh run.
    pub fn new(id: String, now: u64, cwd: String, task: &str, stage_names: Vec<String>) -> (r:
        RunState)
        ensures
            r.id@ == id@,
            r.started_at == now,
            r.updated_at == now,
            r.cwd@ == cwd@,
            r.task@ == task@,
            text::views(r.stage_names@) == text::views(stage_names@),
            r.position == 0,
            r.runs == 0,
            r.previous is None,
            r.outputs.entries@.len() == 0,
            r.outputs.ordered(),
            r.usage.models.entries@.len() == 0,
            r.usage.models.ordered(),
            r.usage.elapsed_ms == 0,
            r.active_stage is None,
            r.diffs@.len() == 0,
    {
        RunState {
            id,
            started_at: now,
            updated_at: now,
            cwd,
            task: task.to_owned(),
            stage_names,
            position: 0,
            runs: 0,
            previous: None,
            outputs: Table::new(),
            usage: UsageSnapshot::empty(),
            active_stage: None,
            diffs: Vec::new(),
        }
    }
}

/// The record of a run's use that outlives the run.
pub struct UsageRecord {
    pub id: String,
    /// The start of the task.
    pub task: String,
    pub cwd: String,
    pub stage_names: Vec<String>,
    /// "completed" or "failed".
    pub outcome: String,
    pub error: Option<String>,
    pub started_at: u64,
    pub finished_at: u64,
    pub usage: UsageSnapshot,
}

/// Characters of a task that its record keeps.
pub const MAX_RECORDED_TASK: usize = 500;

impl UsageRecord {
    /// The record of a run that has ended, with its error where it failed.
    pub fn of(
        state: &RunState,
        error: Option<String>,
        finished_at: u64,
        usage: UsageSnapshot,
    ) -> (r: UsageRecord)
        ensures
            r.id@ == state.id@,
            r.task@ == text::take_spec(state.task@, MAX_RECORDED_TASK as nat),
            r.cwd@ == state.cwd@,
            text::views(r.stage_names@) == text::views(state.stage_names@),
            r.outcome@ == (if error is None {
                "completed"@
            } else {
                "failed"@
            }),
            r.error == error,
            r.started_at == state.started_at,
            r.finished_at == finished_at,
            r.usage == usage,
    {
        UsageRecord {
            id: state.id.clone(),
            task: text::take(state.task.as_str(), MAX_RECORDED_TASK),
            cwd: state.cwd.clone(),
            stage_names: text::copy_list(&state.stage_names),
            outcome: if error.is_none() {
                "completed".to_owned()
            } else {
                "failed".to_owned()
            },
            error,
            started_at: state.started_at,
            finished_at,
            usage,
        }
    }
}

// ---------------------------------------------------------------------------
// Paths
// ---------------------------------------------------------------------------

/// The directory of the checkpoints.
pub fn runs_dir(data_dir: &str) -> (r: String)
    ensures
        r@ == data_dir@ + "/runs"@,
{
    text::cat2(data_dir, "/runs")
}

/// The directory of the usage records.
pub fn usage_dir(data_dir: &str) -> (r: String)
    ensures
        r@ == data_dir@ + "/usage"@,
{
    text::cat2(data_dir, "/usage")
}

/// The file of a checkpoint.
pub fn run_path(data_dir: &str, id: &str) -> (r: String)
    ensures
        r@ == data_dir@ + "/runs"@ + "/"@ + id@ + ".json"@,
{
    text::cat5(data_dir, "/runs", "/", id, ".json")
}

/// The file of the active stage's events.
pub fn event_log_path(data_dir: &str, id: &str) -> (r: String)
    ensures
        r@ == data_dir@ + "/runs"@ + "/"@ + id@ + ".events.jsonl"@,
{
    text::cat5(data_dir, "/runs", "/", id, ".events.jsonl")
}

// ---------------------------------------------------------------------------
// Identifiers
// ---------------------------------------------------------------------------

/// The n-th name that a run of a moment may get.
pub open spec fn candidate(base: Seq<char>, n: nat) -> Seq<char> {
    if n <= 1 {
        base
    } else {
        base + "-"@ + numbers::decimal_spec(n)
    }
}

proof fn lemma_decimal_injective(a: nat, b: nat)
    requires
        numbers::decimal_spec(a) == numbers::decimal_spec(b),
    ensures
        a == b,
    decreases a + b,
{
    let x = numbers::decimal_spec(a);
    let y = numbers::decimal_spec(b);
    lemma_decimal_shape(a);
    lemma_decimal_shape(b);
    if a >= 10 && b >= 10 {
        assert(x.drop_last() =~= numbers::decimal_spec(a / 10));
        assert(y.drop_last() =~= numbers::decimal_spec(b / 10));
        lemma_decimal_injective(a / 10, b / 10);
        assert(x.last() == numbers::digit_char(a % 10));
        assert(y.last() == numbers::digit_char(b % 10));
        lemma_digit_injective(a % 10, b % 10);
    } else if a < 10 && b < 10 {
        assert(x[0] == y[0]);
        lemma_digit_injective(a, b);
    }
}

proof fn lemma_digit_injective(a: nat, b: nat)
    requires
        a < 10,
        b < 10,
        numbers::digit_char(a) == numbers::digit_char(b),
    ensures
        a == b,
{
    assert(numbers::digit_char(a) as int == 48 + a);
    assert(numbers::digit_char(b) as int == 48 + b);
}

proof fn lemma_decimal_shape(n: nat)
    ensures
        n < 10 ==> numbers::decimal_spec(n).len() == 1 && numbers::decimal_spec(n)[0]
            == numbers::digit_char(n),
        n >= 10 ==> numbers::decimal_spec(n).len() > 1,
        numbers::decimal_spec(n).len() > 0,
    decreases n,
{
    if n >= 10 {
        lemma_decimal_shape(n / 10);
    }
}

proof fn lemma_candidates_differ(base: Seq<char>, a: nat, b: nat)
    requires
        1 <= a < b,
    ensures
        candidate(base, a) != candidate(base, b),
{
    reveal_strlit("-");
    let y = candidate(base, b);
    assert(y.len() > base.len());
    if a > 1 {
        let x = candidate(base, a);
        if x == y {
            assert(x.skip(base.len() as int + 1) =~= numbers::decimal_spec(a));
            assert(y.skip(base.len() as int + 1) =~= numbers::decimal_spec(b));
            lemma_decimal_injective(a, b);
        }
    }
}

/// Where the first `n` names are all taken, at least `n` are.
proof fn lemma_taken(base: Seq<char>, taken: Seq<Seq<char>>, n: nat)
    requires
        forall|k: nat| 1 <= k <= n ==> taken.contains(#[trigger] candidate(base, k)),
    ensures
        n <= taken.len(),
{
    let names = Seq::new(n, |i: int| candidate(base, (i + 1) as nat));
    assert forall|i: int, j: int| 0 <= i < names.len() && 0 <= j < names.len() && i != j implies
        names[i] != names[j] by {
        if i < j {
            lemma_candidates_differ(base, (i + 1) as nat, (j + 1) as nat);
        } else {
            lemma_candidates_differ(base, (j + 1) as nat, (i + 1) as nat);
        }
    }
    assert(names.no_duplicates());
    names.unique_seq_to_set();
    assert(names.to_set().subset_of(taken.to_set())) by {
        assert forall|x: Seq<char>| names.to_set().contains(x) implies taken.to_set().contains(
            x,
        ) by {
            let i = choose|i: int| 0 <= i < names.len() && names[i] == x;
            assert(taken.contains(candidate(base, (i + 1) as nat)));
        }
    }
    vstd::seq_lib::seq_to_set_is_finite(taken);
    vstd::set_lib::lemma_len_subset(names.to_set(), taken.to_set());
    taken.lemma_cardinality_of_set();
}

/// A name for a run that starts now: the moment's own, with a number behind
/// it where that is taken. The number is the first that is free.
pub fn new_run_id(base: &str, taken: &Vec<String>) -> (r: String)
    requires
        taken@.len() < usize::MAX,
    ensures
        !text::views(taken@).contains(r@),
        exists|n: nat|
            n >= 1 && #[trigger] candidate(base@, n) == r@ && forall|k: nat|
                1 <= k < n ==> text::views(taken@).contains(#[trigger] candidate(base@, k)),
{
    let ghost names = text::views(taken@);
    let mut n: usize = 1;
    let mut id = base.to_owned();
    assert(id@ == candidate(base@, 1));
    while text::listed(taken, id.as_str())
        invariant
            1 <= n <= names.len() + 1,
            names == text::views(taken@),
            names.len() == taken@.len(),
            taken@.len() < usize::MAX,
            id@ == candidate(base@, n as nat),
            forall|k: nat| 1 <= k < n ==> names.contains(#[trigger] candidate(base@, k)),
        decreases names.len() + 1 - n,
    {
        proof {
            assert(names.contains(candidate(base@, n as nat)));
            lemma_taken(base@, names, n as nat);
        }
        n = n + 1;
        id = text::cat3(base, "-", numbers::decimal_len(n).as_str());
    }
    id
}

// ---------------------------------------------------------------------------
// The event log
// ---------------------------------------------------------------------------

/// Whether a byte is white space.
pub open spec fn is_blank_byte(b: u8) -> bool {
    b == 32 || b == 9 || b == 10 || b == 12 || b == 13
}

/// Whether a line holds nothing.
pub open spec fn is_blank(line: Seq<u8>) -> bool {
    forall|i: int| 0 <= i < line.len() ==> is_blank_byte(#[trigger] line[i])
}

/// Closed lines and the open line after reading bytes.
pub open spec fn byte_lines_state(bytes: Seq<u8>) -> (Seq<Seq<u8>>, Seq<u8>)
    decreases bytes.len(),
{
    if bytes.len() == 0 {
        (seq![], seq![])
    } else {
        let (done, open) = byte_lines_state(bytes.drop_last());
        if bytes.last() == 10 {
            (
                if is_blank(open) {
                    done
                } else {
                    done.push(open)
                },
                seq![],
            )
        } else {
            (done, open.push(bytes.last()))
        }
    }
}

/// The lines of a log that hold something.
pub open spec fn log_lines_spec(bytes: Seq<u8>) -> Seq<Seq<u8>> {
    let (done, open) = byte_lines_state(bytes);
    if is_blank(open) {
        done
    } else {
        done.push(open)
    }
}

/// The views of lines of bytes.
pub open spec fn bytes_view(lines: Seq<Vec<u8>>) -> Seq<Seq<u8>> {
    Seq::new(lines.len(), |i: int| lines[i]@)
}

fn blank(line: &Vec<u8>) -> (r: bool)
    ensures
        r == is_blank(line@),
{
    let mut i: usize = 0;
    while i < line.len()
        invariant
            i <= line@.len(),
            forall|k: int| 0 <= k < i ==> is_blank_byte(#[trigger] line@[k]),
        decreases line@.len() - i,
    {
        let b: u8 = line[i];
        if !(b == 32 || b == 9 || b == 10 || b == 12 || b == 13) {
            assert(!is_blank_byte(line@[i as int]));
            return false;
        }
        i = i + 1;
    }
    true
}

/// The lines of a log that hold something.
pub fn log_lines(bytes: &Vec<u8>) -> (r: Vec<Vec<u8>>)
    ensures
        bytes_view(r@) == log_lines_spec(bytes@),
{
    let mut out: Vec<Vec<u8>> = Vec::new();
    let mut open: Vec<u8> = Vec::new();
    let mut i: usize = 0;
    assert(bytes_view(out@) =~= seq![]);
    assert(open@ =~= seq![]);
    while i < bytes.len()
        invariant
            i <= bytes@.len(),
            byte_lines_state(bytes@.take(i as int)) == (bytes_view(out@), open@),
        decreases bytes@.len() - i,
    {
        assert(bytes@.take(i + 1).drop_last() =~= bytes@.take(i as int));
        assert(bytes@.take(i + 1).last() == bytes@[i as int]);
        if bytes[i] == 10 {
            if !blank(&open) {
                let ghost before = out@;
                let ghost line = open@;
                out.push(open);
                assert(bytes_view(out@) =~= bytes_view(before).push(line));
            }
            open = Vec::new();
            assert(open@ =~= seq![]);
        } else {
            open.push(bytes[i]);
        }
        i = i + 1;
    }
    assert(bytes@.take(bytes@.len() as int) =~= bytes@);
    if !blank(&open) {
        let ghost before = out@;
        let ghost line = open@;
        out.push(open);
        assert(bytes_view(out@) =~= bytes_view(before).push(line));
    }
    out
}

/// One record of the event log.
pub struct StageEventRecord {
    pub stage: String,
    pub run: u32,
    pub event: AgentLoopEvent,
    pub usage: UsageSnapshot,
    pub updated_at: u64,
}

/// A line of the event log: a record, or the words of why it is none.
pub enum LogLine {
    Record(StageEventRecord),
    Broken(String),
}

/// What a merge comes to: the events, the use, and the time of the last.
pub struct Merged {
    pub events: Seq<agent_loop::EventView>,
    pub usage: usage::LedgerView,
    pub updated_at: nat,
}

/// The words for a log of another stage or run.
pub open spec fn foreign_text(record: StageEventRecord, progress: ProgressView) -> Seq<char> {
    "mid-stage event log belongs to `"@ + record.stage@ + "` run "@ + numbers::decimal_spec(
        record.run as nat,
    ) + ", but checkpoint expects `"@ + progress.stage + "` run "@ + numbers::decimal_spec(
        progress.run as nat,
    )
}

/// What the records up to a line make of a checkpoint. The checkpoint's own
/// events are the start of the log; the rest is added.
pub open spec fn merged(progress: ProgressView, start: Merged, lines: Seq<LogLine>) -> Result<
    Merged,
    Seq<char>,
>
    decreases lines.len(),
{
    if lines.len() == 0 {
        Ok(start)
    } else {
        match merged(progress, start, lines.drop_last()) {
            Err(e) => Err(e),
            Ok(m) => {
                let index = lines.len() - 1;
                match lines.last() {
                    LogLine::Broken(e) => Err("corrupt mid-stage event log: "@ + e@),
                    LogLine::Record(record) => if record.stage@ != progress.stage || record.run
                        != progress.run {
                        Err(foreign_text(record, progress))
                    } else if index < progress.events.len() {
                        if record.event@ != progress.events[index] {
                            Err(
                                "mid-stage event log diverges from checkpoint at event "@
                                    + numbers::decimal_spec(lines.len()),
                            )
                        } else {
                            Ok(m)
                        }
                    } else {
                        Ok(
                            Merged {
                                events: m.events.push(record.event@),
                                usage: record.usage@,
                                updated_at: if record.updated_at > m.updated_at {
                                    record.updated_at as nat
                                } else {
                                    m.updated_at
                                },
                            },
                        )
                    },
                }
            },
        }
    }
}

/// The lines that count: a broken last one is an append that was cut off.
pub open spec fn whole_lines(lines: Seq<LogLine>) -> Seq<LogLine> {
    if lines.len() > 0 && lines.last() is Broken {
        lines.drop_last()
    } else {
        lines
    }
}

/// What a checkpoint with an active stage starts a merge from.
pub open spec fn merge_start(state: RunState, progress: ProgressView) -> Merged {
    Merged {
        events: progress.events,
        usage: state.usage@,
        updated_at: state.updated_at as nat,
    }
}

proof fn lemma_merge_error(progress: ProgressView, start: Merged, lines: Seq<LogLine>, n: int)
    requires
        0 <= n <= lines.len(),
        merged(progress, start, lines.take(n)) is Err,
    ensures
        merged(progress, start, lines) == merged(progress, start, lines.take(n)),
    decreases lines.len() - n,
{
    if n == lines.len() {
        assert(lines.take(n) =~= lines);
    } else {
        assert(lines.take(n + 1).drop_last() =~= lines.take(n));
        lemma_merge_error(progress, start, lines, n + 1);
    }
}

/// Whether two checkpoints agree in all but what a merge changes.
pub open spec fn same_run(a: RunState, b: RunState) -> bool {
    &&& a.id == b.id
    &&& a.started_at == b.started_at
    &&& a.cwd == b.cwd
    &&& a.task == b.task
    &&& a.stage_names == b.stage_names
    &&& a.position == b.position
    &&& a.runs == b.runs
    &&& a.previous == b.previous
    &&& a.outputs == b.outputs
    &&& a.diffs == b.diffs
}

/// The view of an optional progress.
pub open spec fn option_progress(p: Option<StageProgress>) -> Option<ProgressView> {
    match p {
        Some(p) => Some(p@),
        None => None,
    }
}

fn foreign(record: &StageEventRecord, stage: &str, run: u32) -> (r: String)
    ensures
        forall|p: ProgressView|
            p.stage == stage@ && p.run == run ==> r@ == #[trigger] foreign_text(*record, p),
{
    let mut e = text::cat5(
        "mid-stage event log belongs to `",
        record.stage.as_str(),
        "` run ",
        numbers::decimal(record.run as u64).as_str(),
        ", but checkpoint expects `",
    );
    e.append(stage);
    e.append("` run ");
    e.append(numbers::decimal(run as u64).as_str());
    e
}

/// Merge the event log into a checkpoint. A run without an active stage is
/// left alone. A broken last line is taken for an append that was cut off;
/// an earlier one could hide a tool call and is an error.
pub fn hydrate_stage_events(state: RunState, lines: &Vec<LogLine>) -> (r: Result<RunState, String>)
    ensures
        match option_progress(state.active_stage) {
            None => r matches Ok(after) && after == state,
            Some(progress) => match merged(
                progress,
                merge_start(state, progress),
                whole_lines(lines@),
            ) {
                Err(e) => r matches Err(words) && words@ == e,
                Ok(m) => r matches Ok(after) && same_run(after, state) && option_progress(
                    after.active_stage,
                ) == Some(
                    ProgressView { stage: progress.stage, run: progress.run, events: m.events },
                ) && after.usage@ == m.usage && after.updated_at == m.updated_at,
            },
        },
{
    let RunState {
        id,
        started_at,
        updated_at,
        cwd,
        task,
        stage_names,
        position,
        runs,
        previous,
        outputs,
        usage,
        active_stage,
        diffs,
    } = state;
    let progress = match active_stage {
        Some(progress) => progress,
        None => {
            return Ok(
                RunState {
                    id,
                    started_at,
                    updated_at,
                    cwd,
                    task,
                    stage_names,
                    position,
                    runs,
                    previous,
                    outputs,
                    usage,
                    active_stage: None,
                    diffs,
                },
            );
        },
    };
    let ghost view = progress@;
    let ghost start = merge_start(state, view);
    let stage = progress.stage;
    let run: u32 = progress.run;
    let mut events = progress.events;
    let mut usage_now = usage;
    let mut updated: u64 = updated_at;
    let embedded: usize = events.len();
    assert(view.events.len() == embedded);
    let n: usize = if lines.len() > 0 {
        match &lines[lines.len() - 1] {
            LogLine::Broken(_) => lines.len() - 1,
            LogLine::Record(_) => lines.len(),
        }
    } else {
        0
    };
    let ghost whole = whole_lines(lines@);
    assert(whole =~= lines@.take(n as int));
    let mut i: usize = 0;
    while i < n
        invariant
            i <= n <= lines@.len(),
            option_progress(state.active_stage) == Some(view),
            start == merge_start(state, view),
            whole == whole_lines(lines@),
            whole == lines@.take(n as int),
            stage@ == view.stage,
            run == view.run,
            embedded == view.events.len(),
            events@.len() >= embedded,
            agent_loop::events_view(events@).take(embedded as int) == view.events,
            merged(view, start, whole.take(i as int)) == Ok::<Merged, Seq<char>>(
                Merged {
                    events: agent_loop::events_view(events@),
                    usage: usage_now@,
                    updated_at: updated as nat,
                },
            ),
        decreases n - i,
    {
        assert(whole.take(i + 1).drop_last() =~= whole.take(i as int));
        assert(whole.take(i + 1).last() == lines@[i as int]);
        match &lines[i] {
            LogLine::Broken(e) => {
                proof {
                    lemma_merge_error(view, start, whole, i + 1);
                }
                return Err(text::cat2("corrupt mid-stage event log: ", e.as_str()));
            },
            LogLine::Record(record) => {
                if !text::same(record.stage.as_str(), stage.as_str()) || record.run != run {
                    proof {
                        lemma_merge_error(view, start, whole, i + 1);
                    }
                    return Err(foreign(record, stage.as_str(), run));
                }
                if i < embedded {
                    assert(view.events[i as int] == agent_loop::events_view(events@).take(
                        embedded as int,
                    )[i as int]);
                    assert(view.events[i as int] == events@[i as int]@);
                    if !same::same_event(&record.event, &events[i]) {
                        proof {
                            lemma_merge_error(view, start, whole, i + 1);
                        }
                        return Err(
                            text::cat2(
                                "mid-stage event log diverges from checkpoint at event ",
                                numbers::decimal_len(i + 1).as_str(),
                            ),
                        );
                    }
                } else {
                    let ghost before = agent_loop::events_view(events@);
                    let event = record.event.clone();
                    let ghost added = event@;
                    events.push(event);
                    assert(agent_loop::events_view(events@) =~= before.push(added));
                    assert(before.push(added).take(embedded as int) =~= before.take(
                        embedded as int,
                    ));
                    usage_now = record.usage.clone();
                    if record.updated_at > updated {
                        updated = record.updated_at;
                    }
                }
            },
        }
        i = i + 1;
    }
    assert(whole.take(n as int) =~= whole);
    Ok(
        RunState {
            id,
            started_at,
            updated_at: updated,
            cwd,
            task,
            stage_names,
            position,
            runs,
            previous,
            outputs,
            usage: usage_now,
            active_stage: Some(StageProgress { stage, run, events }),
            diffs,
        },
    )
}

/// Merging keeps what a checkpoint holds: its events are the start of the
/// merged ones, so no model turn or tool call is lost or repeated.
pub proof fn law_merging_keeps_the_checkpoint(
    progress: ProgressView,
    start: Merged,
    lines: Seq<LogLine>,
)
    requires
        start.events == progress.events,
        merged(progress, start, lines) is Ok,
    ensures
        ({
            let m = merged(progress, start, lines)->Ok_0;
            &&& progress.events.is_prefix_of(m.events)
            &&& m.events.len() == (if lines.len() > progress.events.len() {
                lines.len()
            } else {
                progress.events.len()
            })
            &&& forall|i: int|
                0 <= i < lines.len() ==> (#[trigger] lines[i]) is Record && m.events[i]
                    == lines[i]->Record_0.event@
        }),
    decreases lines.len(),
{
    if lines.len() > 0 {
        let shorter = lines.drop_last();
        law_merging_keeps_the_checkpoint(progress, start, shorter);
        let m = merged(progress, start, shorter)->Ok_0;
        let after = merged(progress, start, lines)->Ok_0;
        let index = lines.len() - 1;
        assert(progress.events =~= m.events.subrange(0, progress.events.len() as int));
        assert forall|i: int| 0 <= i < lines.len() implies (#[trigger] lines[i]) is Record
            && after.events[i] == lines[i]->Record_0.event@ by {
            if i < index {
                assert(shorter[i] == lines[i]);
                assert(after.events[i] == m.events[i]);
            } else if index < progress.events.len() {
                assert(m.events.subrange(0, progress.events.len() as int)[index]
                    == progress.events[index]);
            }
        }
        assert(progress.events =~= after.events.subrange(0, progress.events.len() as int));
    } else {
        assert(progress.events =~= start.events.subrange(0, progress.events.len() as int));
    }
}

/// Merging twice is merging once: a checkpoint that already holds the merged
/// events takes the same log without adding to it.
pub proof fn law_merging_again_adds_nothing(
    progress: ProgressView,
    start: Merged,
    lines: Seq<LogLine>,
    again: ProgressView,
    second: Merged,
    n: int,
)
    requires
        start.events == progress.events,
        merged(progress, start, lines) is Ok,
        again.stage == progress.stage,
        again.run == progress.run,
        again.events == merged(progress, start, lines)->Ok_0.events,
        second.events == again.events,
        0 <= n <= lines.len(),
    ensures
        merged(again, second, lines.take(n)) == Ok::<Merged, Seq<char>>(second),
    decreases n,
{
    if n > 0 {
        law_merging_again_adds_nothing(progress, start, lines, again, second, n - 1);
        law_merging_keeps_the_checkpoint(progress, start, lines);
        lemma_records_belong(progress, start, lines, n - 1);
        assert(lines.take(n).drop_last() =~= lines.take(n - 1));
        assert(lines.take(n).last() == lines[n - 1]);
    }
}

proof fn lemma_records_belong(progress: ProgressView, start: Merged, lines: Seq<LogLine>, i: int)
    requires
        merged(progress, start, lines) is Ok,
        0 <= i < lines.len(),
    ensures
        lines[i] matches LogLine::Record(record) && record.stage@ == progress.stage && record.run
            == progress.run,
    decreases lines.len(),
{
    if i < lines.len() - 1 {
        lemma_records_belong(progress, start, lines.drop_last(), i);
    }
}

// ---------------------------------------------------------------------------
// Listing
// ---------------------------------------------------------------------------

/// A list, newest first, with one more run put in its place.
pub open spec fn placed(x: RunState, list: Seq<RunState>) -> Seq<RunState>
    decreases list.len(),
{
    if list.len() == 0 || x.updated_at >= list[0].updated_at {
        seq![x] + list
    } else {
        seq![list[0]] + placed(x, list.skip(1))
    }
}

/// Runs in the order of their last update, newest first; those of one moment
/// stay in their order.
pub open spec fn newest_first(list: Seq<RunState>) -> Seq<RunState>
    decreases list.len(),
{
    if list.len() == 0 {
        seq![]
    } else {
        placed(list[0], newest_first(list.skip(1)))
    }
}

/// Where a run goes in a list.
proof fn lemma_placed(x: RunState, list: Seq<RunState>, at: int)
    requires
        0 <= at <= list.len(),
        forall|k: int| 0 <= k < at ==> x.updated_at < (#[trigger] list[k]).updated_at,
        at < list.len() ==> x.updated_at >= list[at].updated_at,
    ensures
        placed(x, list) == list.insert(at, x),
    decreases at,
{
    if at == 0 {
        assert(placed(x, list) =~= list.insert(0, x));
    } else {
        assert(list[0].updated_at > x.updated_at);
        lemma_placed(x, list.skip(1), at - 1);
        assert(placed(x, list) =~= list.insert(at, x));
    }
}

/// Interrupted runs, newest first.
pub fn list_runs(states: Vec<RunState>) -> (r: Vec<RunState>)
    ensures
        r@ == newest_first(states@),
{
    let mut rest = states;
    let mut out: Vec<RunState> = Vec::new();
    let ghost all = rest@;
    assert(all.skip(all.len() as int) =~= seq![]);
    assert(out@ =~= newest_first(all.skip(all.len() as int)));
    while rest.len() > 0
        invariant
            rest@.len() <= all.len(),
            rest@ == all.take(rest@.len() as int),
            out@ == newest_first(all.skip(rest@.len() as int)),
        decreases rest@.len(),
    {
        let ghost n = rest@.len() as int;
        let next = rest.pop();
        match next {
            Some(x) => {
                assert(x == all[n - 1]);
                assert(rest@ =~= all.take(n - 1));
                assert(all.skip(n - 1)[0] == x);
                assert(all.skip(n - 1).skip(1) =~= all.skip(n));
                let mut at: usize = 0;
                while at < out.len() && x.updated_at < out[at].updated_at
                    invariant
                        at <= out@.len(),
                        forall|k: int|
                            0 <= k < at ==> x.updated_at < (#[trigger] out@[k]).updated_at,
                    decreases out@.len() - at,
                {
                    at = at + 1;
                }
                proof {
                    lemma_placed(x, out@, at as int);
                }
                out.insert(at, x);
            },
            None => {},
        }
    }
    assert(all.skip(0) =~= all);
    out
}

/// Whether a list is in the order of the last updates, newest first.
pub open spec fn descending(list: Seq<RunState>) -> bool {
    forall|i: int, j: int|
        0 <= i < j < list.len() ==> (#[trigger] list[i]).updated_at >= (#[trigger] list[j]).updated_at
}

proof fn lemma_placed_keeps(x: RunState, list: Seq<RunState>)
    requires
        descending(list),
    ensures
        descending(placed(x, list)),
        placed(x, list).to_multiset() == list.to_multiset().insert(x),
        placed(x, list).len() == list.len() + 1,
    decreases list.len(),
{
    broadcast use vstd::seq_lib::group_to_multiset_ensures;

    if list.len() == 0 || x.updated_at >= list[0].updated_at {
        vstd::seq_lib::lemma_multiset_commutative(seq![x], list);
        assert(seq![x] =~= Seq::<RunState>::empty().push(x));
        assert(placed(x, list).to_multiset() =~= list.to_multiset().insert(x));
    } else {
        let tail = list.skip(1);
        lemma_placed_keeps(x, tail);
        let rest = placed(x, tail);
        lemma_placed_members(x, tail);
        assert forall|i: int, j: int| 0 <= i < j < placed(x, list).len() implies (
        #[trigger] placed(x, list)[i]).updated_at >= (#[trigger] placed(x, list)[j]).updated_at by {
            if i == 0 {
                let y = rest[j - 1];
                assert(rest.contains(y));
                if y != x {
                    let k = choose|k: int| 0 <= k < tail.len() && tail[k] == y;
                    assert(tail[k] == list[k + 1]);
                }
            } else {
                assert(rest[i - 1].updated_at >= rest[j - 1].updated_at);
            }
        }
        vstd::seq_lib::lemma_multiset_commutative(seq![list[0]], rest);
        vstd::seq_lib::lemma_multiset_commutative(seq![list[0]], tail);
        assert(seq![list[0]] + tail =~= list);
        assert(placed(x, list).to_multiset() =~= list.to_multiset().insert(x));
    }
}

proof fn lemma_placed_members(x: RunState, list: Seq<RunState>)
    ensures
        forall|y: RunState| #[trigger] placed(x, list).contains(y) ==> y == x || list.contains(y),
    decreases list.len(),
{
    if !(list.len() == 0 || x.updated_at >= list[0].updated_at) {
        lemma_placed_members(x, list.skip(1));
        assert forall|y: RunState| #[trigger] placed(x, list).contains(y) implies y == x
            || list.contains(y) by {
            let all = placed(x, list);
            let k = choose|k: int| 0 <= k < all.len() && all[k] == y;
            if k == 0 {
                assert(list[0] == y);
            } else {
                let rest = placed(x, list.skip(1));
                assert(rest[k - 1] == y);
                assert(rest.contains(y));
                if y != x {
                    let j = choose|j: int| 0 <= j < list.skip(1).len() && list.skip(1)[j] == y;
                    assert(list[j + 1] == y);
                }
            }
        }
    } else {
        assert forall|y: RunState| #[trigger] placed(x, list).contains(y) implies y == x
            || list.contains(y) by {
            let all = placed(x, list);
            let k = choose|k: int| 0 <= k < all.len() && all[k] == y;
            if k > 0 {
                assert(list[k - 1] == y);
            }
        }
    }
}

/// A listing holds each run once more, newest first.
pub proof fn law_listings_are_newest_first(list: Seq<RunState>)
    ensures
        descending(newest_first(list)),
        newest_first(list).to_multiset() == list.to_multiset(),
    decreases list.len(),
{
    broadcast use vstd::seq_lib::group_to_multiset_ensures;

    if list.len() > 0 {
        law_listings_are_newest_first(list.skip(1));
        lemma_placed_keeps(list[0], newest_first(list.skip(1)));
        vstd::seq_lib::lemma_multiset_commutative(seq![list[0]], list.skip(1));
        assert(seq![list[0]] + list.skip(1) =~= list);
        assert(seq![list[0]] =~= Seq::<RunState>::empty().push(list[0]));
        assert(list.to_multiset() =~= list.skip(1).to_multiset().insert(list[0]));
    }
}

/// The newest run that was started from a directory: the first of a listing
/// that has it.
pub fn latest_run_for(states: &Vec<RunState>, cwd: &str) -> (r: Option<usize>)
    ensures
        match r {
            Some(i) => i < states@.len() && states@[i as int].cwd@ == cwd@ && forall|k: int|
                0 <= k < i ==> (#[trigger] states@[k]).cwd@ != cwd@,
            None => forall|k: int| 0 <= k < states@.len() ==> (#[trigger] states@[k]).cwd@ != cwd@,
        },
{
    let mut i: usize = 0;
    while i < states.len()
        invariant
            i <= states@.len(),
            forall|k: int| 0 <= k < i ==> (#[trigger] states@[k]).cwd@ != cwd@,
        decreases states@.len() - i,
    {
        if text::same(states[i].cwd.as_str(), cwd) {
            return Some(i);
        }
        i = i + 1;
    }
    None
}

} // verus!

//! Scored runs of an eval suite, and whether one justifies keeping a change.
//! Runs of agents are noisy, so that a suite can be repeated, and repeated
//! runs are compared by their rates and means.

use vstd::prelude::*;
use vstd::string::*;

use crate::model;
use crate::numbers;
use crate::text;
use crate::wide::Wide;

verus! {

/// Token counts of one model in one run.
#[derive(Debug, Clone, Copy, PartialEq, Eq, Structural)]
pub struct ModelTokens {
    pub prompt_tokens: u64,
    pub completion_tokens: u64,
    pub cache_read_tokens: u64,
    pub reasoning_tokens: u64,
    pub unpriced_requests: u64,
    pub unreported_requests: u64,
}

/// What one stage or agent did in one run.
#[derive(Debug, Clone, Copy, PartialEq, Eq, Structural)]
pub struct ScopeUsage {
    pub turns: u64,
    pub tool_calls: u64,
}

/// What a run used, by model and by stage or agent.
pub struct EvalUsage {
    pub models: Vec<(String, ModelTokens)>,
    pub scopes: Vec<(String, ScopeUsage)>,
}

/// The scored result of one eval.
pub struct EvalOutcome {
    pub name: String,
    /// Whether the proposer is kept from seeing it.
    pub holdout: bool,
    pub passed: bool,
    pub error: Option<String>,
    pub tokens: u64,
    pub usage: EvalUsage,
    pub wall_ms: u64,
    pub check_excerpt: String,
    pub output_excerpt: String,
    pub signals: Vec<String>,
}

/// What a result stands for.
pub struct OutcomeView {
    pub name: Seq<char>,
    pub holdout: bool,
    pub passed: bool,
    pub error: Option<Seq<char>>,
    pub tokens: nat,
    pub models: Seq<(Seq<char>, ModelTokens)>,
    pub scopes: Seq<(Seq<char>, ScopeUsage)>,
    pub wall_ms: nat,
    pub check_excerpt: Seq<char>,
    pub output_excerpt: Seq<char>,
    pub signals: Seq<Seq<char>>,
}

/// What named rows stand for.
pub open spec fn rows_view<T>(rows: Seq<(String, T)>) -> Seq<(Seq<char>, T)> {
    Seq::new(rows.len(), |i: int| (rows[i].0@, rows[i].1))
}

impl View for EvalOutcome {
    type V = OutcomeView;

    open spec fn view(&self) -> OutcomeView {
        OutcomeView {
            name: self.name@,
            holdout: self.holdout,
            passed: self.passed,
            error: model::option_text(self.error),
            tokens: self.tokens as nat,
            models: rows_view(self.usage.models@),
            scopes: rows_view(self.usage.scopes@),
            wall_ms: self.wall_ms as nat,
            check_excerpt: self.check_excerpt@,
            output_excerpt: self.output_excerpt@,
            signals: text::views(self.signals@),
        }
    }
}

/// The views of results.
pub open spec fn outcomes_view(list: Seq<EvalOutcome>) -> Seq<OutcomeView> {
    Seq::new(list.len(), |i: int| list[i]@)
}

/// A copy of named rows.
pub fn copy_rows<T: Copy>(rows: &Vec<(String, T)>) -> (r: Vec<(String, T)>)
    ensures
        rows_view(r@) == rows_view(rows@),
{
    let mut out: Vec<(String, T)> = Vec::new();
    let mut i: usize = 0;
    while i < rows.len()
        invariant
            i <= rows@.len(),
            out@.len() == i,
            forall|k: int|
                0 <= k < i ==> (#[trigger] out@[k]).0@ == rows@[k].0@ && out@[k].1 == rows@[k].1,
        decreases rows@.len() - i,
    {
        out.push((rows[i].0.clone(), rows[i].1));
        i = i + 1;
    }
    assert(rows_view(out@) =~= rows_view(rows@));
    out
}

impl Clone for EvalOutcome {
    fn clone(&self) -> (r: EvalOutcome)
        ensures
            r@ == self@,
    {
        EvalOutcome {
            name: self.name.clone(),
            holdout: self.holdout,
            passed: self.passed,
            error: model::copy_text(&self.error),
            tokens: self.tokens,
            usage: EvalUsage {
                models: copy_rows(&self.usage.models),
                scopes: copy_rows(&self.usage.scopes),
            },
            wall_ms: self.wall_ms,
            check_excerpt: self.check_excerpt.clone(),
            output_excerpt: self.output_excerpt.clone(),
            signals: text::copy_list(&self.signals),
        }
    }
}

/// A run of a suite: every eval, scored.
pub struct SuiteScore {
    pub outcomes: Vec<EvalOutcome>,
}

/// How many results passed.
pub open spec fn passed_count(list: Seq<EvalOutcome>) -> nat
    decreases list.len(),
{
    if list.len() == 0 {
        0
    } else {
        passed_count(list.drop_last()) + (if list.last().passed {
            1nat
        } else {
            0
        })
    }
}

/// The tokens of results together.
pub open spec fn tokens_sum(list: Seq<EvalOutcome>) -> nat
    decreases list.len(),
{
    if list.len() == 0 {
        0
    } else {
        tokens_sum(list.drop_last()) + list.last().tokens as nat
    }
}

proof fn lemma_tokens_grow(list: Seq<EvalOutcome>, n: int)
    requires
        0 <= n <= list.len(),
    ensures
        tokens_sum(list.take(n)) <= tokens_sum(list),
    decreases list.len() - n,
{
    if n == list.len() {
        assert(list.take(n) =~= list);
    } else {
        assert(list.take(n + 1).drop_last() =~= list.take(n));
        lemma_tokens_grow(list, n + 1);
    }
}

impl SuiteScore {
    /// How many evals passed.
    pub fn passed(&self) -> (r: usize)
        ensures
            r == passed_count(self.outcomes@),
    {
        let list = &self.outcomes;
        let mut count: usize = 0;
        let mut i: usize = 0;
        while i < list.len()
            invariant
                i <= list@.len(),
                count <= i,
                count == passed_count(list@.take(i as int)),
            decreases list@.len() - i,
        {
            assert(list@.take(i + 1).drop_last() =~= list@.take(i as int));
            if list[i].passed {
                count = count + 1;
            }
            i = i + 1;
        }
        assert(list@.take(list@.len() as int) =~= list@);
        count
    }

    /// The tokens of the run.
    pub fn tokens(&self) -> (r: u64)
        requires
            tokens_sum(self.outcomes@) <= u64::MAX,
        ensures
            r == tokens_sum(self.outcomes@),
    {
        let list = &self.outcomes;
        let mut sum: u64 = 0;
        let mut i: usize = 0;
        while i < list.len()
            invariant
                i <= list@.len(),
                tokens_sum(list@) <= u64::MAX,
                sum == tokens_sum(list@.take(i as int)),
            decreases list@.len() - i,
        {
            assert(list@.take(i + 1).drop_last() =~= list@.take(i as int));
            proof {
                lemma_tokens_grow(list@, i + 1);
            }
            sum = sum + list[i].tokens;
            i = i + 1;
        }
        assert(list@.take(list@.len() as int) =~= list@);
        sum
    }
}

/// Repetitions of a suite.
pub struct SuiteStats {
    pub runs: Vec<SuiteScore>,
}

/// The number of evals: those of the first repetition.
pub open spec fn eval_count_spec(runs: Seq<SuiteScore>) -> nat {
    if runs.len() == 0 {
        0
    } else {
        runs[0].outcomes@.len()
    }
}

/// Whether an eval passed in a repetition.
pub open spec fn passed_in(run: SuiteScore, index: int) -> bool {
    0 <= index < run.outcomes@.len() && run.outcomes@[index].passed
}

/// In how many repetitions an eval passed.
pub open spec fn passes_spec(runs: Seq<SuiteScore>, index: int) -> nat
    decreases runs.len(),
{
    if runs.len() == 0 {
        0
    } else {
        passes_spec(runs.drop_last(), index) + (if passed_in(runs.last(), index) {
            1nat
        } else {
            0
        })
    }
}

/// The number of repetitions, one at least.
pub open spec fn at_least_one(runs: Seq<SuiteScore>) -> nat {
    if runs.len() == 0 {
        1
    } else {
        runs.len()
    }
}

/// Whether every eval passed in every repetition, and there is one.
pub open spec fn all_green_spec(runs: Seq<SuiteScore>) -> bool {
    runs.len() > 0 && forall|i: int|
        0 <= i < runs.len() ==> passed_count((#[trigger] runs[i]).outcomes@)
            == runs[i].outcomes@.len()
}

/// The tokens of repetitions together.
pub open spec fn total_spec(runs: Seq<SuiteScore>) -> nat
    decreases runs.len(),
{
    if runs.len() == 0 {
        0
    } else {
        total_spec(runs.drop_last()) + tokens_sum(runs.last().outcomes@)
    }
}

/// The squares of the tokens of repetitions together.
pub open spec fn squares_spec(runs: Seq<SuiteScore>) -> nat
    decreases runs.len(),
{
    if runs.len() == 0 {
        0
    } else {
        squares_spec(runs.drop_last()) + tokens_sum(runs.last().outcomes@) * tokens_sum(
            runs.last().outcomes@,
        )
    }
}

/// Whether the tokens of each repetition fit their counter.
pub open spec fn runs_fit(runs: Seq<SuiteScore>) -> bool {
    forall|i: int|
        0 <= i < runs.len() ==> tokens_sum((#[trigger] runs[i]).outcomes@) <= u64::MAX
}

/// A quotient rounded to the nearest whole number, halves up.
pub open spec fn rounded_spec(sum: nat, n: nat) -> nat {
    if 2 * (sum % n) >= n {
        sum / n + 1
    } else {
        sum / n
    }
}

/// The mean tokens of repetitions, rounded; zero where there is none.
pub open spec fn mean_spec(runs: Seq<SuiteScore>) -> nat {
    rounded_spec(total_spec(runs), at_least_one(runs))
}

/// The first repetition from one on in which an eval failed.
pub open spec fn failing_from(runs: Seq<SuiteScore>, index: int, from: int) -> Option<int>
    decreases runs.len() - from,
{
    if from < 0 || from >= runs.len() {
        None
    } else if 0 <= index < runs[from].outcomes@.len() && !runs[from].outcomes@[index].passed {
        Some(from)
    } else {
        failing_from(runs, index, from + 1)
    }
}

/// The result that stands for an eval: the first that failed, else the last
/// one.
pub open spec fn representative_of(runs: Seq<SuiteScore>, index: int) -> Option<OutcomeView> {
    match failing_from(runs, index, 0) {
        Some(i) => Some(runs[i].outcomes@[index]@),
        None => if runs.len() > 0 && 0 <= index < runs.last().outcomes@.len() {
            Some(runs.last().outcomes@[index]@)
        } else {
            None
        },
    }
}

/// The results that stand for the first evals.
pub open spec fn representatives(runs: Seq<SuiteScore>, n: int) -> Seq<OutcomeView>
    decreases n,
{
    if n <= 0 {
        seq![]
    } else {
        let before = representatives(runs, n - 1);
        match representative_of(runs, n - 1) {
            Some(o) => before.push(o),
            None => before,
        }
    }
}

/// How many of the first evals passed in every repetition.
pub open spec fn full_count(runs: Seq<SuiteScore>, n: int) -> nat
    decreases n,
{
    if n <= 0 {
        0
    } else {
        full_count(runs, n - 1) + (if passes_spec(runs, n - 1) == runs.len() {
            1nat
        } else {
            0
        })
    }
}

/// The words for repetitions of a suite.
pub open spec fn describe_spec(runs: Seq<SuiteScore>) -> Seq<char> {
    let evals = eval_count_spec(runs);
    let head = numbers::decimal_spec(full_count(runs, evals as int)) + "/"@
        + numbers::decimal_spec(evals);
    if runs.len() == 1 {
        head + " passing · "@ + model::fmt_tokens_spec(mean_spec(runs))
    } else {
        head + " passing in all "@ + numbers::decimal_spec(runs.len()) + " run(s) · mean "@
            + model::fmt_tokens_spec(mean_spec(runs))
    }
}

proof fn lemma_total_bound(runs: Seq<SuiteScore>)
    requires
        runs_fit(runs),
    ensures
        total_spec(runs) <= runs.len() * u64::MAX,
    decreases runs.len(),
{
    if runs.len() > 0 {
        assert forall|i: int| 0 <= i < runs.drop_last().len() implies tokens_sum(
            (#[trigger] runs.drop_last()[i]).outcomes@,
        ) <= u64::MAX by {
            assert(tokens_sum(runs[i].outcomes@) <= u64::MAX);
        }
        lemma_total_bound(runs.drop_last());
        assert(tokens_sum(runs[runs.len() - 1].outcomes@) <= u64::MAX);
    }
}

proof fn lemma_total_grows(runs: Seq<SuiteScore>, n: int)
    requires
        0 <= n <= runs.len(),
    ensures
        total_spec(runs.take(n)) <= total_spec(runs),
    decreases runs.len() - n,
{
    if n == runs.len() {
        assert(runs.take(n) =~= runs);
    } else {
        assert(runs.take(n + 1).drop_last() =~= runs.take(n));
        lemma_total_grows(runs, n + 1);
    }
}

impl SuiteStats {
    /// One repetition.
    pub fn single(score: SuiteScore) -> (r: SuiteStats)
        ensures
            r.runs@ == seq![score],
    {
        let mut runs: Vec<SuiteScore> = Vec::new();
        runs.push(score);
        assert(runs@ =~= seq![score]);
        SuiteStats { runs }
    }

    /// The number of evals.
    pub fn eval_count(&self) -> (r: usize)
        ensures
            r == eval_count_spec(self.runs@),
    {
        if self.runs.len() == 0 {
            0
        } else {
            self.runs[0].outcomes.len()
        }
    }

    /// In how many repetitions an eval passed.
    pub fn passes(&self, index: usize) -> (r: usize)
        ensures
            r == passes_spec(self.runs@, index as int),
            r <= self.runs@.len(),
    {
        let runs = &self.runs;
        let mut count: usize = 0;
        let mut i: usize = 0;
        while i < runs.len()
            invariant
                i <= runs@.len(),
                count <= i,
                count == passes_spec(runs@.take(i as int), index as int),
            decreases runs@.len() - i,
        {
            assert(runs@.take(i + 1).drop_last() =~= runs@.take(i as int));
            assert(runs@.take(i + 1).last() == runs@[i as int]);
            let outcomes = &runs[i].outcomes;
            if index < outcomes.len() && outcomes[index].passed {
                count = count + 1;
            }
            i = i + 1;
        }
        assert(runs@.take(runs@.len() as int) =~= runs@);
        count
    }

    /// Whether every eval passed in every repetition.
    pub fn all_green(&self) -> (r: bool)
        ensures
            r == all_green_spec(self.runs@),
    {
        let runs = &self.runs;
        if runs.len() == 0 {
            return false;
        }
        let mut i: usize = 0;
        while i < runs.len()
            invariant
                i <= runs@.len(),
                runs@ == self.runs@,
                forall|k: int|
                    0 <= k < i ==> passed_count((#[trigger] runs@[k]).outcomes@)
                        == runs@[k].outcomes@.len(),
            decreases runs@.len() - i,
        {
            if runs[i].passed() != runs[i].outcomes.len() {
                assert(passed_count(self.runs@[i as int].outcomes@)
                    != self.runs@[i as int].outcomes@.len());
                return false;
            }
            i = i + 1;
        }
        true
    }

    /// The mean tokens of the repetitions, rounded.
    pub fn mean_tokens(&self) -> (r: u64)
        requires
            runs_fit(self.runs@),
        ensures
            r == mean_spec(self.runs@),
    {
        let runs = &self.runs;
        let n: usize = runs.len();
        if n == 0 {
            return 0;
        }
        let mut sum: u128 = 0;
        let mut i: usize = 0;
        proof {
            lemma_total_bound(runs@);
            assert(n as int * u64::MAX as int <= u128::MAX) by (nonlinear_arith)
                requires
                    n <= 0xffff_ffff_ffff_ffff,
            ;
        }
        while i < n
            invariant
                i <= n,
                n == runs@.len(),
                runs_fit(runs@),
                total_spec(runs@) <= n * u64::MAX <= u128::MAX,
                sum == total_spec(runs@.take(i as int)),
            decreases n - i,
        {
            assert(runs@.take(i + 1).drop_last() =~= runs@.take(i as int));
            assert(runs@.take(i + 1).last() == runs@[i as int]);
            proof {
                lemma_total_grows(runs@, i + 1);
            }
            sum = sum + runs[i].tokens() as u128;
            i = i + 1;
        }
        assert(runs@.take(runs@.len() as int) =~= runs@);
        let whole: u128 = sum / (n as u128);
        let rest: u128 = sum % (n as u128);
        proof {
            let s = sum as int;
            let k = n as int;
            let m = u64::MAX as int;
            assert(s == k * (s / k) + s % k && 0 <= s % k < k) by (nonlinear_arith)
                requires
                    k > 0,
            ;
            assert(s / k <= m && (s / k == m ==> s % k == 0)) by (nonlinear_arith)
                requires
                    s <= k * m,
                    k > 0,
                    s == k * (s / k) + s % k,
                    0 <= s % k < k,
            ;
        }
        if rest >= (n as u128) - rest {
            (whole + 1) as u64
        } else {
            whole as u64
        }
    }

    /// The results that stand for the evals: of each the first that failed, for
    /// failures that come and go are what matters, else the last one.
    pub fn representative(&self) -> (r: SuiteScore)
        ensures
            outcomes_view(r.outcomes@) == representatives(
                self.runs@,
                eval_count_spec(self.runs@) as int,
            ),
    {
        let runs = &self.runs;
        let count: usize = self.eval_count();
        let mut out: Vec<EvalOutcome> = Vec::new();
        let mut index: usize = 0;
        assert(outcomes_view(out@) =~= seq![]);
        while index < count
            invariant
                index <= count,
                runs@ == self.runs@,
                outcomes_view(out@) == representatives(runs@, index as int),
            decreases count - index,
        {
            let ghost before = outcomes_view(out@);
            let mut chosen: Option<usize> = None;
            let mut i: usize = 0;
            while i < runs.len() && chosen.is_none()
                invariant
                    i <= runs@.len(),
                    match chosen {
                        Some(k) => failing_from(runs@, index as int, 0) == Some(k as int) && k
                            < runs@.len() && index < runs@[k as int].outcomes@.len(),
                        None => failing_from(runs@, index as int, 0) == failing_from(
                            runs@,
                            index as int,
                            i as int,
                        ),
                    },
                decreases runs@.len() - i,
            {
                let outcomes = &runs[i].outcomes;
                if index < outcomes.len() && !outcomes[index].passed {
                    chosen = Some(i);
                }
                i = i + 1;
            }
            let place: Option<usize> = match chosen {
                Some(k) => Some(k),
                None => {
                    let n: usize = runs.len();
                    if n > 0 && index < runs[n - 1].outcomes.len() {
                        Some(n - 1)
                    } else {
                        None
                    }
                },
            };
            match place {
                Some(k) => {
                    let copy = runs[k].outcomes[index].clone();
                    let ghost shown = copy@;
                    out.push(copy);
                    assert(outcomes_view(out@) =~= before.push(shown));
                },
                None => {},
            }
            index = index + 1;
        }
        SuiteScore { outcomes: out }
    }

    /// The words for the repetitions.
    pub fn describe(&self) -> (r: String)
        requires
            runs_fit(self.runs@),
        ensures
            r@ == describe_spec(self.runs@),
    {
        let evals: usize = self.eval_count();
        let mut full: usize = 0;
        let mut index: usize = 0;
        while index < evals
            invariant
                index <= evals,
                full <= index,
                full == full_count(self.runs@, index as int),
            decreases evals - index,
        {
            if self.passes(index) == self.runs.len() {
                full = full + 1;
            }
            index = index + 1;
        }
        let passing = numbers::decimal_len(full);
        let total = numbers::decimal_len(evals);
        let tokens = model::fmt_tokens(self.mean_tokens());
        let mut out = text::cat3(passing.as_str(), "/", total.as_str());
        if self.runs.len() == 1 {
            out.append(" passing · ");
            out.append(tokens.as_str());
        } else {
            let runs = numbers::decimal_len(self.runs.len());
            out.append(" passing in all ");
            out.append(runs.as_str());
            out.append(" run(s) · mean ");
            out.append(tokens.as_str());
        }
        out
    }
}

// ---------------------------------------------------------------------------
// Verdicts
// ---------------------------------------------------------------------------

/// Whether a change is kept, and why.
pub enum Verdict {
    Adopt(String),
    Reject(String),
}

/// Whether a change is kept, and why.
pub enum VerdictView {
    Adopt(Seq<char>),
    Reject(Seq<char>),
}

impl View for Verdict {
    type V = VerdictView;

    open spec fn view(&self) -> VerdictView {
        match self {
            Verdict::Adopt(s) => VerdictView::Adopt(s@),
            Verdict::Reject(s) => VerdictView::Reject(s@),
        }
    }
}

/// Whether an eval passes less often in the first repetitions than in the
/// second ones: the share of those that passed is smaller.
pub open spec fn rate_below(a: Seq<SuiteScore>, b: Seq<SuiteScore>, index: int) -> bool {
    passes_spec(a, index) * at_least_one(b) < passes_spec(b, index) * at_least_one(a)
}

/// The first eval from one on whose rate dropped.
pub open spec fn regressed_from(
    baseline: Seq<SuiteScore>,
    candidate: Seq<SuiteScore>,
    evals: int,
    from: int,
) -> Option<int>
    decreases evals - from,
{
    if from < 0 || from >= evals {
        None
    } else if rate_below(candidate, baseline, from) {
        Some(from)
    } else {
        regressed_from(baseline, candidate, evals, from + 1)
    }
}

/// The names of the first evals whose rate rose.
pub open spec fn improved_names(
    baseline: Seq<SuiteScore>,
    candidate: Seq<SuiteScore>,
    n: int,
) -> Seq<Seq<char>>
    decreases n,
{
    if n <= 0 {
        seq![]
    } else {
        let before = improved_names(baseline, candidate, n - 1);
        if rate_below(baseline, candidate, n - 1) {
            before.push(baseline[0].outcomes@[n - 1].name@)
        } else {
            before
        }
    }
}

/// The evals that two sets of repetitions share.
pub open spec fn shared_count(baseline: Seq<SuiteScore>, candidate: Seq<SuiteScore>) -> int {
    if eval_count_spec(baseline) <= eval_count_spec(candidate) {
        eval_count_spec(baseline) as int
    } else {
        eval_count_spec(candidate) as int
    }
}

/// The words for an eval that passes less often.
pub open spec fn regressed_text(
    baseline: Seq<SuiteScore>,
    candidate: Seq<SuiteScore>,
    index: int,
) -> Seq<char> {
    let outcome = baseline[0].outcomes@[index];
    "regressed `"@ + outcome.name@ + "`"@ + (if outcome.holdout {
        " (holdout)"@
    } else {
        seq![]
    }) + " (passed "@ + numbers::decimal_spec(passes_spec(baseline, index)) + "/"@
        + numbers::decimal_spec(baseline.len()) + " → "@ + numbers::decimal_spec(
        passes_spec(candidate, index),
    ) + "/"@ + numbers::decimal_spec(candidate.len()) + ")"@
}

/// The divisor of a sample variance: one less than the number of samples, and
/// one where there is but one.
pub open spec fn divisor(n: nat) -> nat {
    if n >= 2 {
        (n - 1) as nat
    } else {
        1
    }
}

/// The number of samples times their sum of squared distances from the mean.
pub open spec fn spread(runs: Seq<SuiteScore>) -> int {
    at_least_one(runs) * squares_spec(runs) - total_spec(runs) * total_spec(runs)
}

/// Whether the mean tokens fell by more than a tenth.
pub open spec fn tenth_saved(baseline: Seq<SuiteScore>, candidate: Seq<SuiteScore>) -> bool {
    10 * (at_least_one(baseline) * total_spec(candidate)) < 9 * (at_least_one(candidate)
        * total_spec(baseline))
}

/// Whether the mean tokens fell by more than the noise that repetitions show:
/// with means `b` and `c`, sample variances `v` and `w` and sizes `n` and `m`,
/// `b - c` is over `1.645 * sqrt(v / n + w / m)`. Both sides are squared and
/// multiplied out.
pub open spec fn clears_noise(baseline: Seq<SuiteScore>, candidate: Seq<SuiteScore>) -> bool {
    let n = at_least_one(baseline) as int;
    let m = at_least_one(candidate) as int;
    let p = divisor(at_least_one(baseline)) as int;
    let q = divisor(at_least_one(candidate)) as int;
    let gap = m * total_spec(baseline) - n * total_spec(candidate);
    gap > 0 && 2706025 * (spread(baseline) * (m * m * q) + spread(candidate) * (n * n * p))
        < (1000000 * (p * q)) * (gap * gap)
}

/// Whether a candidate is more economical.
pub open spec fn economical(baseline: Seq<SuiteScore>, candidate: Seq<SuiteScore>) -> bool {
    all_green_spec(baseline) && total_spec(baseline) > 0 && tenth_saved(baseline, candidate)
        && clears_noise(baseline, candidate)
}

/// The verdict on a candidate.
pub open spec fn verdict_spec(baseline: Seq<SuiteScore>, candidate: Seq<SuiteScore>) -> VerdictView {
    let evals = shared_count(baseline, candidate);
    match regressed_from(baseline, candidate, evals, 0) {
        Some(i) => VerdictView::Reject(regressed_text(baseline, candidate, i)),
        None => {
            let improved = improved_names(baseline, candidate, evals);
            if improved.len() > 0 {
                VerdictView::Adopt("newly passing: "@ + text::join_spec(improved, ", "@))
            } else if economical(baseline, candidate) {
                VerdictView::Adopt(
                    "same passes, mean tokens "@ + model::fmt_tokens_spec(mean_spec(baseline))
                        + " → "@ + model::fmt_tokens_spec(mean_spec(candidate)),
                )
            } else {
                VerdictView::Reject("no eval newly passes and tokens did not improve"@)
            }
        },
    }
}

fn less_often(a: &SuiteStats, b: &SuiteStats, index: usize) -> (r: bool)
    ensures
        r == rate_below(a.runs@, b.runs@, index as int),
{
    let n: usize = if a.runs.len() == 0 {
        1
    } else {
        a.runs.len()
    };
    let m: usize = if b.runs.len() == 0 {
        1
    } else {
        b.runs.len()
    };
    let x: usize = a.passes(index);
    let y: usize = b.passes(index);
    proof {
        assert(x as int * m as int <= u128::MAX) by (nonlinear_arith)
            requires
                x <= 0xffff_ffff_ffff_ffff,
                m <= 0xffff_ffff_ffff_ffff,
        ;
        assert(y as int * n as int <= u128::MAX) by (nonlinear_arith)
            requires
                y <= 0xffff_ffff_ffff_ffff,
                n <= 0xffff_ffff_ffff_ffff,
        ;
    }
    (x as u128) * (m as u128) < (y as u128) * (n as u128)
}

fn sums(stats: &SuiteStats) -> (r: (Wide, Wide))
    requires
        runs_fit(stats.runs@),
    ensures
        r.0@ == total_spec(stats.runs@),
        r.1@ == squares_spec(stats.runs@),
{
    let runs = &stats.runs;
    let mut total = Wide::from(0);
    let mut squares = Wide::from(0);
    let mut i: usize = 0;
    while i < runs.len()
        invariant
            i <= runs@.len(),
            runs_fit(runs@),
            total@ == total_spec(runs@.take(i as int)),
            squares@ == squares_spec(runs@.take(i as int)),
        decreases runs@.len() - i,
    {
        assert(runs@.take(i + 1).drop_last() =~= runs@.take(i as int));
        assert(runs@.take(i + 1).last() == runs@[i as int]);
        let tokens = Wide::from(runs[i].tokens());
        total = total.sum(&tokens);
        let square = tokens.times(&tokens);
        squares = squares.sum(&square);
        i = i + 1;
    }
    assert(runs@.take(runs@.len() as int) =~= runs@);
    (total, squares)
}

/// A square's sides moved so that nothing is taken away.
proof fn lemma_moved(
    f: int,
    g: int,
    x: int,
    y: int,
    s1: int,
    t1: int,
    w1: int,
    s2: int,
    t2: int,
    w2: int,
)
    ensures
        f * (x * x + y * y) + g * (s1 * w1 + s2 * w2) - (f * (2 * (x * y)) + g * (t1 * w1 + t2
            * w2)) == f * ((x - y) * (x - y)) - g * ((t1 - s1) * w1 + (t2 - s2) * w2),
{
    assert((x - y) * (x - y) == x * x + y * y - 2 * (x * y)) by (nonlinear_arith);
    assert((t1 - s1) * w1 == t1 * w1 - s1 * w1) by (nonlinear_arith);
    assert((t2 - s2) * w2 == t2 * w2 - s2 * w2) by (nonlinear_arith);
    let a = x * x + y * y;
    let b = 2 * (x * y);
    let c = s1 * w1 + s2 * w2;
    let d = t1 * w1 + t2 * w2;
    assert(f * a + g * c - (f * b + g * d) == f * (a - b) - g * (d - c)) by (nonlinear_arith);
}

fn is_economical(baseline: &SuiteStats, candidate: &SuiteStats) -> (r: bool)
    requires
        runs_fit(baseline.runs@),
        runs_fit(candidate.runs@),
    ensures
        r == economical(baseline.runs@, candidate.runs@),
{
    if !baseline.all_green() {
        return false;
    }
    let bn: usize = baseline.runs.len();
    let cn: usize = if candidate.runs.len() == 0 {
        1
    } else {
        candidate.runs.len()
    };
    let bp: usize = if bn >= 2 {
        bn - 1
    } else {
        1
    };
    let cq: usize = if cn >= 2 {
        cn - 1
    } else {
        1
    };
    let n = Wide::from(bn as u64);
    let m = Wide::from(cn as u64);
    let p = Wide::from(bp as u64);
    let q = Wide::from(cq as u64);
    let (sb, qb) = sums(baseline);
    let (sc, qc) = sums(candidate);
    let zero = Wide::from(0);
    if !zero.below(&sb) {
        return false;
    }
    let x = m.times(&sb);
    let y = n.times(&sc);
    let ten = Wide::from(10);
    let nine = Wide::from(9);
    if !ten.times(&y).below(&nine.times(&x)) {
        return false;
    }
    if !y.below(&x) {
        return false;
    }
    let f = Wide::from(1_000_000).times(&p.times(&q));
    let g = Wide::from(2_706_025);
    let two = Wide::from(2);
    let w1 = m.times(&m).times(&q);
    let w2 = n.times(&n).times(&p);
    let s1 = sb.times(&sb);
    let s2 = sc.times(&sc);
    let t1 = n.times(&qb);
    let t2 = m.times(&qc);
    let left = f.times(&x.times(&x).sum(&y.times(&y))).sum(
        &g.times(&s1.times(&w1).sum(&s2.times(&w2))),
    );
    let right = f.times(&two.times(&x.times(&y))).sum(
        &g.times(&t1.times(&w1).sum(&t2.times(&w2))),
    );
    proof {
        lemma_moved(
            f@ as int,
            g@ as int,
            x@ as int,
            y@ as int,
            s1@ as int,
            t1@ as int,
            w1@ as int,
            s2@ as int,
            t2@ as int,
            w2@ as int,
        );
    }
    right.below(&left)
}

fn regression(baseline: &SuiteStats, candidate: &SuiteStats, index: usize) -> (r: String)
    requires
        index < eval_count_spec(baseline.runs@),
    ensures
        r@ == regressed_text(baseline.runs@, candidate.runs@, index as int),
{
    let outcome = &baseline.runs[0].outcomes[index];
    let before = numbers::decimal_len(baseline.passes(index));
    let of_before = numbers::decimal_len(baseline.runs.len());
    let after = numbers::decimal_len(candidate.passes(index));
    let of_after = numbers::decimal_len(candidate.runs.len());
    let mut out = text::cat3("regressed `", outcome.name.as_str(), "`");
    let held: &str = if outcome.holdout {
        " (holdout)"
    } else {
        ""
    };
    proof {
        reveal_strlit("");
        assert(""@ =~= seq![]);
    }
    out.append(held);
    out.append(" (passed ");
    out.append(before.as_str());
    out.append("/");
    out.append(of_before.as_str());
    out.append(" → ");
    out.append(after.as_str());
    out.append("/");
    out.append(of_after.as_str());
    out.append(")");
    out
}

/// Whether a candidate justifies a change: no eval may pass less often, and
/// one has to pass more often, or else, where all passed before, the mean
/// tokens have to fall by more than a tenth and by more than the noise.
pub fn compare(baseline: &SuiteStats, candidate: &SuiteStats) -> (r: Verdict)
    requires
        runs_fit(baseline.runs@),
        runs_fit(candidate.runs@),
    ensures
        r@ == verdict_spec(baseline.runs@, candidate.runs@),
{
    let first: usize = baseline.eval_count();
    let second: usize = candidate.eval_count();
    let evals: usize = if first <= second {
        first
    } else {
        second
    };
    let mut i: usize = 0;
    while i < evals
        invariant
            i <= evals <= first,
            first == eval_count_spec(baseline.runs@),
            evals == shared_count(baseline.runs@, candidate.runs@),
            regressed_from(baseline.runs@, candidate.runs@, evals as int, 0) == regressed_from(
                baseline.runs@,
                candidate.runs@,
                evals as int,
                i as int,
            ),
        decreases evals - i,
    {
        if less_often(candidate, baseline, i) {
            return Verdict::Reject(regression(baseline, candidate, i));
        }
        i = i + 1;
    }
    let mut improved: Vec<String> = Vec::new();
    let mut j: usize = 0;
    assert(text::views(improved@) =~= seq![]);
    while j < evals
        invariant
            j <= evals <= first,
            first == eval_count_spec(baseline.runs@),
            text::views(improved@) == improved_names(baseline.runs@, candidate.runs@, j as int),
        decreases evals - j,
    {
        if less_often(baseline, candidate, j) {
            text::add_text(&mut improved, baseline.runs[0].outcomes[j].name.clone());
        }
        j = j + 1;
    }
    assert(text::views(improved@).len() == improved@.len());
    if improved.len() > 0 {
        let names = text::join(&improved, ", ");
        return Verdict::Adopt(text::cat2("newly passing: ", names.as_str()));
    }
    if is_economical(baseline, candidate) {
        let before = model::fmt_tokens(baseline.mean_tokens());
        let after = model::fmt_tokens(candidate.mean_tokens());
        return Verdict::Adopt(
            text::cat4("same passes, mean tokens ", before.as_str(), " → ", after.as_str()),
        );
    }
    Verdict::Reject("no eval newly passes and tokens did not improve".to_owned())
}

// ---------------------------------------------------------------------------
// Laws
// ---------------------------------------------------------------------------

proof fn lemma_regressed_from(
    baseline: Seq<SuiteScore>,
    candidate: Seq<SuiteScore>,
    evals: int,
    from: int,
)
    requires
        0 <= from,
    ensures
        match regressed_from(baseline, candidate, evals, from) {
            Some(i) => from <= i < evals && rate_below(candidate, baseline, i),
            None => forall|i: int|
                from <= i < evals ==> !#[trigger] rate_below(candidate, baseline, i),
        },
    decreases evals - from,
{
    if from < evals && !rate_below(candidate, baseline, from) {
        lemma_regressed_from(baseline, candidate, evals, from + 1);
    }
}

/// An adopted candidate regresses nothing, held-out evals included.
pub proof fn law_nothing_adopted_regresses(
    baseline: Seq<SuiteScore>,
    candidate: Seq<SuiteScore>,
    index: int,
)
    requires
        verdict_spec(baseline, candidate) is Adopt,
        0 <= index < shared_count(baseline, candidate),
    ensures
        !rate_below(candidate, baseline, index),
{
    lemma_regressed_from(baseline, candidate, shared_count(baseline, candidate), 0);
}

proof fn lemma_improved(baseline: Seq<SuiteScore>, candidate: Seq<SuiteScore>, n: int)
    ensures
        improved_names(baseline, candidate, n).len() > 0 <==> exists|i: int|
            0 <= i < n && #[trigger] rate_below(baseline, candidate, i),
    decreases n,
{
    if n > 0 {
        lemma_improved(baseline, candidate, n - 1);
    }
}

/// Economy does not mask stagnation: a candidate that is adopted although no
/// eval passes more often follows a baseline in which all passed, and its mean
/// tokens are more than a tenth lower.
pub proof fn law_economy_needs_a_green_suite(
    baseline: Seq<SuiteScore>,
    candidate: Seq<SuiteScore>,
)
    requires
        verdict_spec(baseline, candidate) is Adopt,
        forall|i: int|
            0 <= i < shared_count(baseline, candidate) ==> !#[trigger] rate_below(
                baseline,
                candidate,
                i,
            ),
    ensures
        all_green_spec(baseline),
        tenth_saved(baseline, candidate),
{
    lemma_improved(baseline, candidate, shared_count(baseline, candidate));
}

/// With one run on each side there is no noise: a fall by more than a tenth
/// is all that is asked.
pub proof fn law_single_runs_have_no_noise(baseline: Seq<SuiteScore>, candidate: Seq<SuiteScore>)
    requires
        baseline.len() == 1,
        candidate.len() == 1,
        tenth_saved(baseline, candidate),
    ensures
        clears_noise(baseline, candidate),
{
    lemma_single(baseline);
    lemma_single(candidate);
    let n = at_least_one(baseline) as int;
    let m = at_least_one(candidate) as int;
    let b = total_spec(baseline) as int;
    let c = total_spec(candidate) as int;
    let gap = m * b - n * c;
    assert(m * b == b && n * c == c) by (nonlinear_arith)
        requires
            n == 1,
            m == 1,
    ;
    assert(gap == b - c && gap > 0);
    let p = divisor(at_least_one(baseline)) as int;
    let q = divisor(at_least_one(candidate)) as int;
    assert(p == 1 && q == 1);
    assert(0 * (m * m * q) + 0 * (n * n * p) == 0);
    assert((1000000 * (p * q)) * (gap * gap) > 0) by (nonlinear_arith)
        requires
            p == 1,
            q == 1,
            gap > 0,
    ;
}

proof fn lemma_single(runs: Seq<SuiteScore>)
    requires
        runs.len() == 1,
    ensures
        spread(runs) == 0,
{
    assert(runs.drop_last() =~= seq![]);
    assert(total_spec(runs.drop_last()) == 0);
    assert(squares_spec(runs.drop_last()) == 0);
    assert(total_spec(runs) == tokens_sum(runs.last().outcomes@));
    assert(squares_spec(runs) == total_spec(runs) * total_spec(runs));
    let n = at_least_one(runs) as int;
    let t = squares_spec(runs) as int;
    assert(n * t == t) by (nonlinear_arith)
        requires
            n == 1,
    ;
}

/// The repetitions in which an eval passed.
pub open spec fn passing_runs(runs: Seq<SuiteScore>, index: int) -> Seq<SuiteScore> {
    runs.filter(
        |run: SuiteScore| 0 <= index < run.outcomes@.len() && run.outcomes@[index].passed,
    )
}

proof fn lemma_passing_runs(runs: Seq<SuiteScore>, index: int)
    ensures
        passes_spec(runs, index) == passing_runs(runs, index).len(),
    decreases runs.len(),
{
    reveal(Seq::filter);
    if runs.len() > 0 {
        lemma_passing_runs(runs.drop_last(), index);
    }
}

/// Whether an eval passes less often in the first repetitions than in the
/// second ones, counted out: of `n` runs `p` passed, of `m` runs `q`, and `p`
/// times `m` is less than `q` times `n`.
pub open spec fn counted_below(a: Seq<SuiteScore>, b: Seq<SuiteScore>, index: int) -> bool {
    passing_runs(a, index).len() * b.len() < passing_runs(b, index).len() * a.len()
}

proof fn lemma_counted_below(a: Seq<SuiteScore>, b: Seq<SuiteScore>, index: int)
    requires
        a.len() > 0,
        b.len() > 0,
    ensures
        rate_below(a, b, index) == counted_below(a, b, index),
{
    lemma_passing_runs(a, index);
    lemma_passing_runs(b, index);
}

/// Whether both sides have an eval at an index.
pub open spec fn both_hold(baseline: Seq<SuiteScore>, candidate: Seq<SuiteScore>, index: int) -> bool {
    baseline.len() > 0 && candidate.len() > 0 && 0 <= index < baseline[0].outcomes@.len() && index
        < candidate[0].outcomes@.len()
}

/// An adopted candidate lets no eval pass less often than before: of each that
/// both sides hold, the share of passing runs has not fallen, and with as many
/// runs on either side their number has not.
pub proof fn law_adopted_candidates_pass_as_often(
    baseline: Seq<SuiteScore>,
    candidate: Seq<SuiteScore>,
    index: int,
)
    requires
        verdict_spec(baseline, candidate) is Adopt,
        both_hold(baseline, candidate, index),
    ensures
        passing_runs(candidate, index).len() * baseline.len() >= passing_runs(
            baseline,
            index,
        ).len() * candidate.len(),
        baseline.len() == candidate.len() ==> passing_runs(candidate, index).len()
            >= passing_runs(baseline, index).len(),
{
    lemma_regressed_from(baseline, candidate, shared_count(baseline, candidate), 0);
    lemma_counted_below(candidate, baseline, index);
    assert(!rate_below(candidate, baseline, index));
    let p = passing_runs(candidate, index).len() as int;
    let q = passing_runs(baseline, index).len() as int;
    let n = baseline.len() as int;
    if baseline.len() == candidate.len() && p < q {
        assert(p * n < q * n) by (nonlinear_arith)
            requires
                p < q,
                n > 0,
        ;
    }
}

/// A candidate that lets no eval pass less often, and one more often, is
/// adopted, and the words name exactly those that pass more often.
pub proof fn law_improvements_are_adopted(
    baseline: Seq<SuiteScore>,
    candidate: Seq<SuiteScore>,
    better: int,
)
    requires
        both_hold(baseline, candidate, better),
        counted_below(baseline, candidate, better),
        forall|i: int|
            #[trigger] both_hold(baseline, candidate, i) ==> !counted_below(candidate, baseline, i),
    ensures
        verdict_spec(baseline, candidate) == VerdictView::Adopt(
            "newly passing: "@ + text::join_spec(
                Seq::new(
                    if baseline[0].outcomes@.len() <= candidate[0].outcomes@.len() {
                        baseline[0].outcomes@.len()
                    } else {
                        candidate[0].outcomes@.len()
                    },
                    |i: int| i,
                ).filter(|i: int| counted_below(baseline, candidate, i)).map_values(
                    |i: int| baseline[0].outcomes@[i].name@,
                ),
                ", "@,
            ),
        ),
{
    let evals = shared_count(baseline, candidate);
    lemma_regressed_from(baseline, candidate, evals, 0);
    if regressed_from(baseline, candidate, evals, 0) is Some {
        let i = regressed_from(baseline, candidate, evals, 0)->0;
        assert(both_hold(baseline, candidate, i));
        lemma_counted_below(candidate, baseline, i);
    }
    lemma_improved(baseline, candidate, evals);
    lemma_counted_below(baseline, candidate, better);
    assert(rate_below(baseline, candidate, better));
    lemma_improved_names(baseline, candidate, evals as nat);
}

proof fn lemma_improved_names(baseline: Seq<SuiteScore>, candidate: Seq<SuiteScore>, n: nat)
    requires
        baseline.len() > 0,
        candidate.len() > 0,
    ensures
        improved_names(baseline, candidate, n as int) == Seq::new(n, |i: int| i).filter(
            |i: int| counted_below(baseline, candidate, i),
        ).map_values(|i: int| baseline[0].outcomes@[i].name@),
    decreases n,
{
    reveal(Seq::filter);
    let all = Seq::new(n, |i: int| i);
    let better = |i: int| counted_below(baseline, candidate, i);
    let name = |i: int| baseline[0].outcomes@[i].name@;
    if n > 0 {
        let fewer = Seq::new((n - 1) as nat, |i: int| i);
        lemma_improved_names(baseline, candidate, (n - 1) as nat);
        lemma_counted_below(baseline, candidate, n - 1);
        assert(all.drop_last() =~= fewer);
        assert(all.filter(better).map_values(name) =~= if better(n - 1) {
            fewer.filter(better).map_values(name).push(name(n - 1))
        } else {
            fewer.filter(better).map_values(name)
        });
    } else {
        assert(all.filter(better).map_values(name) =~= seq![]);
    }
}

/// A candidate that lets an eval pass less often is rejected, and the words
/// name the first such eval with its counts on either side.
pub proof fn law_regressions_are_rejected(
    baseline: Seq<SuiteScore>,
    candidate: Seq<SuiteScore>,
    worse: int,
)
    requires
        both_hold(baseline, candidate, worse),
        counted_below(candidate, baseline, worse),
        forall|i: int| 0 <= i < worse ==> !#[trigger] counted_below(candidate, baseline, i),
    ensures
        verdict_spec(baseline, candidate) == VerdictView::Reject(
            "regressed `"@ + baseline[0].outcomes@[worse].name@ + "`"@ + (
            if baseline[0].outcomes@[worse].holdout {
                " (holdout)"@
            } else {
                seq![]
            }) + " (passed "@ + numbers::decimal_spec(passing_runs(baseline, worse).len()) + "/"@
                + numbers::decimal_spec(baseline.len()) + " → "@ + numbers::decimal_spec(
                passing_runs(candidate, worse).len(),
            ) + "/"@ + numbers::decimal_spec(candidate.len()) + ")"@,
        ),
{
    let evals = shared_count(baseline, candidate);
    lemma_counted_below(candidate, baseline, worse);
    assert(rate_below(candidate, baseline, worse));
    lemma_regressed_from(baseline, candidate, evals, 0);
    lemma_first_regressed(baseline, candidate, evals, 0);
    let i = regressed_from(baseline, candidate, evals, 0)->0;
    lemma_counted_below(candidate, baseline, i);
    assert(i == worse);
    lemma_passing_runs(baseline, worse);
    lemma_passing_runs(candidate, worse);
}

proof fn lemma_first_regressed(
    baseline: Seq<SuiteScore>,
    candidate: Seq<SuiteScore>,
    evals: int,
    from: int,
)
    requires
        0 <= from,
    ensures
        regressed_from(baseline, candidate, evals, from) matches Some(i) ==> forall|j: int|
            from <= j < i ==> !#[trigger] rate_below(candidate, baseline, j),
    decreases evals - from,
{
    if from < evals && !rate_below(candidate, baseline, from) {
        lemma_first_regressed(baseline, candidate, evals, from + 1);
    }
}

/// Tokens are added up over the evals of a run, and over runs: each counts
/// once, whether it passed or not.
pub proof fn law_every_token_counts_once(
    first: Seq<EvalOutcome>,
    one: EvalOutcome,
    runs: Seq<SuiteScore>,
    run: SuiteScore,
)
    ensures
        tokens_sum(seq![]) == 0,
        tokens_sum(first.push(one)) == tokens_sum(first) + one.tokens,
        total_spec(seq![]) == 0,
        total_spec(runs.push(run)) == total_spec(runs) + tokens_sum(run.outcomes@),
{
    assert(first.push(one).drop_last() =~= first);
    assert(runs.push(run).drop_last() =~= runs);
}

proof fn lemma_all_passed(list: Seq<EvalOutcome>)
    ensures
        passed_count(list) <= list.len(),
        passed_count(list) == list.len() <==> (forall|i: int|
            0 <= i < list.len() ==> (#[trigger] list[i]).passed),
    decreases list.len(),
{
    if list.len() > 0 {
        let rest = list.drop_last();
        lemma_all_passed(rest);
        if passed_count(list) == list.len() {
            assert forall|i: int| 0 <= i < list.len() implies (#[trigger] list[i]).passed by {
                if i < rest.len() {
                    assert(rest[i].passed);
                }
            }
        }
        if forall|i: int| 0 <= i < list.len() ==> (#[trigger] list[i]).passed {
            assert forall|i: int| 0 <= i < rest.len() implies (#[trigger] rest[i]).passed by {
                assert(list[i].passed);
            }
            assert(list[list.len() - 1].passed);
        }
    }
}

/// Whether every eval of every run passed.
pub open spec fn nothing_failed(runs: Seq<SuiteScore>) -> bool {
    forall|k: int, i: int|
        0 <= k < runs.len() && 0 <= i < runs[k].outcomes@.len() ==> (
        #[trigger] runs[k].outcomes@[i]).passed
}

proof fn lemma_nothing_failed(runs: Seq<SuiteScore>)
    requires
        runs.len() > 0,
    ensures
        all_green_spec(runs) == nothing_failed(runs),
{
    assert forall|k: int| 0 <= k < runs.len() implies (passed_count(
        (#[trigger] runs[k]).outcomes@,
    ) == runs[k].outcomes@.len() <==> (forall|i: int|
        0 <= i < runs[k].outcomes@.len() ==> (#[trigger] runs[k].outcomes@[i]).passed)) by {
        lemma_all_passed(runs[k].outcomes@);
    }
}

/// Without an eval that passes more often, a candidate is adopted only where
/// nothing failed before and its mean tokens are more than a tenth lower; with
/// one run on either side that is enough.
pub proof fn law_saving_tokens_may_suffice(
    baseline: Seq<SuiteScore>,
    candidate: Seq<SuiteScore>,
)
    requires
        baseline.len() > 0,
        candidate.len() > 0,
        forall|i: int|
            #[trigger] both_hold(baseline, candidate, i) ==> !counted_below(
                baseline,
                candidate,
                i,
            ) && !counted_below(candidate, baseline, i),
    ensures
        verdict_spec(baseline, candidate) is Adopt ==> nothing_failed(baseline) && 10 * (
        baseline.len() * total_spec(candidate)) < 9 * (candidate.len() * total_spec(baseline)),
        baseline.len() == 1 && candidate.len() == 1 ==> (verdict_spec(baseline, candidate) is Adopt
            <==> nothing_failed(baseline) && 10 * total_spec(candidate) < 9 * total_spec(baseline)),
{
    let evals = shared_count(baseline, candidate);
    lemma_regressed_from(baseline, candidate, evals, 0);
    if regressed_from(baseline, candidate, evals, 0) is Some {
        let i = regressed_from(baseline, candidate, evals, 0)->0;
        assert(both_hold(baseline, candidate, i));
        lemma_counted_below(candidate, baseline, i);
    }
    lemma_improved(baseline, candidate, evals);
    if improved_names(baseline, candidate, evals).len() > 0 {
        let i = choose|i: int| 0 <= i < evals && #[trigger] rate_below(baseline, candidate, i);
        assert(both_hold(baseline, candidate, i));
        lemma_counted_below(baseline, candidate, i);
    }
    lemma_nothing_failed(baseline);
    if baseline.len() == 1 && candidate.len() == 1 {
        assert(1 * total_spec(candidate) == total_spec(candidate));
        assert(1 * total_spec(baseline) == total_spec(baseline));
        if 10 * total_spec(candidate) < 9 * total_spec(baseline) {
            law_single_runs_have_no_noise(baseline, candidate);
        }
    }
}

proof fn lemma_failing_from(runs: Seq<SuiteScore>, index: int, from: int)
    requires
        0 <= from,
    ensures
        match failing_from(runs, index, from) {
            Some(k) => from <= k < runs.len() && 0 <= index < runs[k].outcomes@.len()
                && !runs[k].outcomes@[index].passed && (forall|j: int|
                from <= j < k && 0 <= index < (#[trigger] runs[j]).outcomes@.len()
                    ==> runs[j].outcomes@[index].passed),
            None => forall|j: int|
                from <= j < runs.len() && 0 <= index < (#[trigger] runs[j]).outcomes@.len()
                    ==> runs[j].outcomes@[index].passed,
        },
    decreases runs.len() - from,
{
    if from < runs.len() && !(0 <= index < runs[from].outcomes@.len()
        && !runs[from].outcomes@[index].passed) {
        lemma_failing_from(runs, index, from + 1);
    }
}

/// Each eval is represented once, in its place: by the first run in which it
/// failed, or by the last one where it never did.
pub proof fn law_failures_represent_an_eval(runs: Seq<SuiteScore>, n: int, index: int)
    requires
        runs.len() > 0,
        forall|k: int| 0 <= k < runs.len() ==> (#[trigger] runs[k]).outcomes@.len() >= n,
        0 <= index < n,
    ensures
        representatives(runs, n).len() == n,
        exists|k: int|
            0 <= k < runs.len() && representatives(runs, n)[index] == (
            #[trigger] runs[k]).outcomes@[index]@ && (forall|j: int|
                0 <= j < k ==> (#[trigger] runs[j]).outcomes@[index].passed) && (
            runs[k].outcomes@[index].passed ==> k == runs.len() - 1),
    decreases n,
{
    lemma_failing_from(runs, n - 1, 0);
    let before = representatives(runs, n - 1);
    if n > 1 {
        law_failures_represent_an_eval(runs, n - 1, if index < n - 1 {
            index
        } else {
            0
        });
    } else {
        assert(before =~= seq![]);
    }
    assert(runs.last() == runs[runs.len() - 1]);
    match failing_from(runs, n - 1, 0) {
        Some(k) => {
            assert(representatives(runs, n) == before.push(runs[k].outcomes@[n - 1]@));
        },
        None => {
            assert(representatives(runs, n) == before.push(
                runs[runs.len() - 1].outcomes@[n - 1]@,
            ));
        },
    }
    if index < n - 1 {
        let k = choose|k: int|
            0 <= k < runs.len() && before[index] == (#[trigger] runs[k]).outcomes@[index]@ && (
            forall|j: int| 0 <= j < k ==> (#[trigger] runs[j]).outcomes@[index].passed) && (
            runs[k].outcomes@[index].passed ==> k == runs.len() - 1);
        assert(representatives(runs, n)[index] == runs[k].outcomes@[index]@);
    }
}

proof fn lemma_pair(runs: Seq<SuiteScore>)
    requires
        runs.len() == 2,
    ensures
        ({
            let x = tokens_sum(runs[0].outcomes@) as int;
            let y = tokens_sum(runs[1].outcomes@) as int;
            total_spec(runs) == x + y && spread(runs) == (x - y) * (x - y)
        }),
{
    reveal_with_fuel(total_spec, 3);
    reveal_with_fuel(squares_spec, 3);
    assert(runs.drop_last().drop_last() =~= seq![]);
    assert(runs.drop_last().last() == runs[0]);
    let x = tokens_sum(runs[0].outcomes@) as int;
    let y = tokens_sum(runs[1].outcomes@) as int;
    assert(squares_spec(runs) == x * x + y * y);
    assert(2 * (x * x + y * y) - (x + y) * (x + y) == (x - y) * (x - y)) by (nonlinear_arith);
    assert(at_least_one(runs) == 2);
}

/// With two runs on either side, of `x` and `y` tokens before and `u` and `v`
/// after, the saving is above the noise exactly where the sums have fallen and
/// the square of the fall is more than the square of 1.645 times what the
/// squared distances between the runs add up to.
pub proof fn law_savings_are_above_the_noise(
    baseline: Seq<SuiteScore>,
    candidate: Seq<SuiteScore>,
)
    requires
        baseline.len() == 2,
        candidate.len() == 2,
    ensures
        ({
            let x = tokens_sum(baseline[0].outcomes@) as int;
            let y = tokens_sum(baseline[1].outcomes@) as int;
            let u = tokens_sum(candidate[0].outcomes@) as int;
            let v = tokens_sum(candidate[1].outcomes@) as int;
            clears_noise(baseline, candidate) <==> x + y > u + v && 2706025 * ((x - y) * (x - y) + (
            u - v) * (u - v)) < 1000000 * ((x + y - u - v) * (x + y - u - v))
        }),
{
    lemma_pair(baseline);
    lemma_pair(candidate);
    let b = total_spec(baseline) as int;
    let c = total_spec(candidate) as int;
    let s = spread(baseline);
    let t = spread(candidate);
    let n = at_least_one(baseline) as int;
    let m = at_least_one(candidate) as int;
    let p = divisor(at_least_one(baseline)) as int;
    let q = divisor(at_least_one(candidate)) as int;
    assert(n == 2 && m == 2 && p == 1 && q == 1);
    let gap = m * b - n * c;
    assert(m * b == 2 * b && n * c == 2 * c) by (nonlinear_arith)
        requires
            n == 2,
            m == 2,
    ;
    assert(gap == 2 * (b - c));
    assert(gap * gap == 4 * ((b - c) * (b - c))) by (nonlinear_arith)
        requires
            gap == 2 * (b - c),
    ;
    assert(m * m * q == 4 && n * n * p == 4 && p * q == 1) by (nonlinear_arith)
        requires
            n == 2,
            m == 2,
            p == 1,
            q == 1,
    ;
    assert(s * (m * m * q) == 4 * s && t * (n * n * p) == 4 * t) by (nonlinear_arith)
        requires
            m * m * q == 4,
            n * n * p == 4,
    ;
    assert((1000000 * (p * q)) * (gap * gap) == 1000000 * (gap * gap)) by (nonlinear_arith)
        requires
            p * q == 1,
    ;
}

} // verus!

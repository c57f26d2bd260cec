//! Measuring with a suite of evals: the metrics of every run, what they come to
//! over repetitions, and which evals a request names.

use vstd::prelude::*;

use crate::evolve::Eval;
use crate::model;
use crate::scores;
use crate::scores::{EvalOutcome, EvalUsage, ModelTokens, ScopeUsage};
use crate::text;

verus! {

// ---------------------------------------------------------------------------
// Sums
// ---------------------------------------------------------------------------

/// The sum over named rows of what one column holds.
pub open spec fn sum_of<T>(rows: Seq<(Seq<char>, T)>, column: spec_fn(T) -> nat) -> nat
    decreases rows.len(),
{
    if rows.len() == 0 {
        0
    } else {
        sum_of(rows.drop_last(), column) + column(rows.last().1)
    }
}

/// The prompt tokens of a row.
pub open spec fn prompt_column() -> spec_fn(ModelTokens) -> nat {
    |m: ModelTokens| m.prompt_tokens as nat
}

/// The completion tokens of a row.
pub open spec fn completion_column() -> spec_fn(ModelTokens) -> nat {
    |m: ModelTokens| m.completion_tokens as nat
}

/// The prompt tokens of a row that came from a cache.
pub open spec fn cached_column() -> spec_fn(ModelTokens) -> nat {
    |m: ModelTokens| m.cache_read_tokens as nat
}

/// The reasoning tokens of a row.
pub open spec fn reasoning_column() -> spec_fn(ModelTokens) -> nat {
    |m: ModelTokens| m.reasoning_tokens as nat
}

/// The requests of a row without a known price.
pub open spec fn unpriced_column() -> spec_fn(ModelTokens) -> nat {
    |m: ModelTokens| m.unpriced_requests as nat
}

/// The requests of a row whose usage was not reported.
pub open spec fn unreported_column() -> spec_fn(ModelTokens) -> nat {
    |m: ModelTokens| m.unreported_requests as nat
}

/// The turns of a row.
pub open spec fn turns_column() -> spec_fn(ScopeUsage) -> nat {
    |s: ScopeUsage| s.turns as nat
}

/// The tool calls of a row.
pub open spec fn calls_column() -> spec_fn(ScopeUsage) -> nat {
    |s: ScopeUsage| s.tool_calls as nat
}

proof fn lemma_part_of_sum<T>(rows: Seq<(Seq<char>, T)>, column: spec_fn(T) -> nat, n: int)
    requires
        0 <= n <= rows.len(),
    ensures
        sum_of(rows.take(n), column) <= sum_of(rows, column),
    decreases rows.len() - n,
{
    if n == rows.len() {
        assert(rows.take(n) =~= rows);
    } else {
        lemma_part_of_sum(rows, column, n + 1);
        assert(rows.take(n + 1).drop_last() =~= rows.take(n));
    }
}

/// Whether the sums over a run's usage can be counted.
pub open spec fn usage_fits(
    models: Seq<(Seq<char>, ModelTokens)>,
    scopes: Seq<(Seq<char>, ScopeUsage)>,
) -> bool {
    &&& sum_of(models, prompt_column()) + sum_of(models, completion_column()) <= u64::MAX
    &&& sum_of(models, cached_column()) <= u64::MAX
    &&& sum_of(models, reasoning_column()) <= u64::MAX
    &&& sum_of(models, unpriced_column()) <= u64::MAX
    &&& sum_of(models, unreported_column()) <= u64::MAX
    &&& sum_of(scopes, turns_column()) <= u64::MAX
    &&& sum_of(scopes, calls_column()) <= u64::MAX
}

/// What the models of a run come to together.
pub open spec fn models_total(models: Seq<(Seq<char>, ModelTokens)>, total: ModelTokens) -> bool {
    &&& total.prompt_tokens == sum_of(models, prompt_column())
    &&& total.completion_tokens == sum_of(models, completion_column())
    &&& total.cache_read_tokens == sum_of(models, cached_column())
    &&& total.reasoning_tokens == sum_of(models, reasoning_column())
    &&& total.unpriced_requests == sum_of(models, unpriced_column())
    &&& total.unreported_requests == sum_of(models, unreported_column())
}

fn total_models(rows: &Vec<(String, ModelTokens)>) -> (r: ModelTokens)
    requires
        usage_fits(scores::rows_view(rows@), seq![]),
    ensures
        models_total(scores::rows_view(rows@), r),
{
    let ghost all = scores::rows_view(rows@);
    let mut total = ModelTokens {
        prompt_tokens: 0,
        completion_tokens: 0,
        cache_read_tokens: 0,
        reasoning_tokens: 0,
        unpriced_requests: 0,
        unreported_requests: 0,
    };
    let mut i: usize = 0;
    while i < rows.len()
        invariant
            i <= rows@.len(),
            all == scores::rows_view(rows@),
            usage_fits(all, seq![]),
            models_total(all.take(i as int), total),
        decreases rows@.len() - i,
    {
        proof {
            assert(all.take(i + 1).drop_last() =~= all.take(i as int));
            assert(all.take(i + 1).last() == all[i as int]);
            lemma_part_of_sum(all, prompt_column(), i + 1);
            lemma_part_of_sum(all, completion_column(), i + 1);
            lemma_part_of_sum(all, cached_column(), i + 1);
            lemma_part_of_sum(all, reasoning_column(), i + 1);
            lemma_part_of_sum(all, unpriced_column(), i + 1);
            lemma_part_of_sum(all, unreported_column(), i + 1);
        }
        let row = rows[i].1;
        total = ModelTokens {
            prompt_tokens: total.prompt_tokens + row.prompt_tokens,
            completion_tokens: total.completion_tokens + row.completion_tokens,
            cache_read_tokens: total.cache_read_tokens + row.cache_read_tokens,
            reasoning_tokens: total.reasoning_tokens + row.reasoning_tokens,
            unpriced_requests: total.unpriced_requests + row.unpriced_requests,
            unreported_requests: total.unreported_requests + row.unreported_requests,
        };
        i = i + 1;
    }
    assert(all.take(all.len() as int) =~= all);
    total
}

fn total_scopes(rows: &Vec<(String, ScopeUsage)>) -> (r: ScopeUsage)
    requires
        usage_fits(seq![], scores::rows_view(rows@)),
    ensures
        r.turns == sum_of(scores::rows_view(rows@), turns_column()),
        r.tool_calls == sum_of(scores::rows_view(rows@), calls_column()),
{
    let ghost all = scores::rows_view(rows@);
    let mut total = ScopeUsage { turns: 0, tool_calls: 0 };
    let mut i: usize = 0;
    while i < rows.len()
        invariant
            i <= rows@.len(),
            all == scores::rows_view(rows@),
            usage_fits(seq![], all),
            total.turns == sum_of(all.take(i as int), turns_column()),
            total.tool_calls == sum_of(all.take(i as int), calls_column()),
        decreases rows@.len() - i,
    {
        proof {
            assert(all.take(i + 1).drop_last() =~= all.take(i as int));
            assert(all.take(i + 1).last() == all[i as int]);
            lemma_part_of_sum(all, turns_column(), i + 1);
            lemma_part_of_sum(all, calls_column(), i + 1);
        }
        let row = rows[i].1;
        total = ScopeUsage {
            turns: total.turns + row.turns,
            tool_calls: total.tool_calls + row.tool_calls,
        };
        i = i + 1;
    }
    assert(all.take(all.len() as int) =~= all);
    total
}

/// Prompt and completion tokens of a run, over all its models.
pub fn tokens_used(usage: &EvalUsage) -> (r: u64)
    requires
        usage_fits(scores::rows_view(usage.models@), scores::rows_view(usage.scopes@)),
    ensures
        r == sum_of(scores::rows_view(usage.models@), prompt_column()) + sum_of(
            scores::rows_view(usage.models@),
            completion_column(),
        ),
{
    let total = total_models(&usage.models);
    total.prompt_tokens + total.completion_tokens
}

// ---------------------------------------------------------------------------
// Metrics
// ---------------------------------------------------------------------------

/// The metrics of one run of one eval.
pub struct RunMetrics {
    pub passed: bool,
    pub error: Option<String>,
    pub prompt_tokens: u64,
    pub completion_tokens: u64,
    pub cache_read_tokens: u64,
    pub reasoning_tokens: u64,
    pub total_tokens: u64,
    /// Requests whose price is not known.
    pub unpriced_requests: u64,
    pub unreported_requests: u64,
    pub turns: u64,
    pub tool_calls: u64,
    pub wall_ms: u64,
    /// What each stage and agent did.
    pub scopes: Vec<(String, ScopeUsage)>,
}

/// What metrics stand for.
pub struct MetricsView {
    pub passed: bool,
    pub error: Option<Seq<char>>,
    pub prompt_tokens: nat,
    pub completion_tokens: nat,
    pub cache_read_tokens: nat,
    pub reasoning_tokens: nat,
    pub total_tokens: nat,
    pub unpriced_requests: nat,
    pub unreported_requests: nat,
    pub turns: nat,
    pub tool_calls: nat,
    pub wall_ms: nat,
    pub scopes: Seq<(Seq<char>, ScopeUsage)>,
}

impl View for RunMetrics {
    type V = MetricsView;

    open spec fn view(&self) -> MetricsView {
        MetricsView {
            passed: self.passed,
            error: model::option_text(self.error),
            prompt_tokens: self.prompt_tokens as nat,
            completion_tokens: self.completion_tokens as nat,
            cache_read_tokens: self.cache_read_tokens as nat,
            reasoning_tokens: self.reasoning_tokens as nat,
            total_tokens: self.total_tokens as nat,
            unpriced_requests: self.unpriced_requests as nat,
            unreported_requests: self.unreported_requests as nat,
            turns: self.turns as nat,
            tool_calls: self.tool_calls as nat,
            wall_ms: self.wall_ms as nat,
            scopes: scores::rows_view(self.scopes@),
        }
    }
}

/// The views of metrics.
pub open spec fn runs_view(runs: Seq<RunMetrics>) -> Seq<MetricsView> {
    Seq::new(runs.len(), |i: int| runs[i]@)
}

/// The metrics of a result: sums over its models and over its stages and
/// agents.
pub open spec fn metrics_spec(o: scores::OutcomeView) -> MetricsView {
    MetricsView {
        passed: o.passed,
        error: o.error,
        prompt_tokens: sum_of(o.models, prompt_column()),
        completion_tokens: sum_of(o.models, completion_column()),
        cache_read_tokens: sum_of(o.models, cached_column()),
        reasoning_tokens: sum_of(o.models, reasoning_column()),
        total_tokens: sum_of(o.models, prompt_column()) + sum_of(o.models, completion_column()),
        unpriced_requests: sum_of(o.models, unpriced_column()),
        unreported_requests: sum_of(o.models, unreported_column()),
        turns: sum_of(o.scopes, turns_column()),
        tool_calls: sum_of(o.scopes, calls_column()),
        wall_ms: o.wall_ms,
        scopes: o.scopes,
    }
}

impl RunMetrics {
    /// The metrics of a result.
    pub fn from_outcome(outcome: &EvalOutcome) -> (r: RunMetrics)
        requires
            usage_fits(outcome@.models, outcome@.scopes),
        ensures
            r@ == metrics_spec(outcome@),
    {
        let total = total_models(&outcome.usage.models);
        let scopes = total_scopes(&outcome.usage.scopes);
        RunMetrics {
            passed: outcome.passed,
            error: model::copy_text(&outcome.error),
            prompt_tokens: total.prompt_tokens,
            completion_tokens: total.completion_tokens,
            cache_read_tokens: total.cache_read_tokens,
            reasoning_tokens: total.reasoning_tokens,
            total_tokens: total.prompt_tokens + total.completion_tokens,
            unpriced_requests: total.unpriced_requests,
            unreported_requests: total.unreported_requests,
            turns: scopes.turns,
            tool_calls: scopes.tool_calls,
            wall_ms: outcome.wall_ms,
            scopes: scores::copy_rows(&outcome.usage.scopes),
        }
    }
}

// ---------------------------------------------------------------------------
// Aggregates
// ---------------------------------------------------------------------------

/// What runs come to together. A mean is a sum over the number of runs.
#[derive(Debug, Clone, Copy, PartialEq, Eq, Structural)]
pub struct Aggregate {
    pub runs: usize,
    pub passed: usize,
    pub token_sum: u128,
    pub min_total_tokens: u64,
    pub max_total_tokens: u64,
    pub turn_sum: u128,
    pub tool_call_sum: u128,
    pub wall_ms_sum: u128,
}

/// How many runs passed.
pub open spec fn passed_runs(runs: Seq<MetricsView>) -> nat
    decreases runs.len(),
{
    if runs.len() == 0 {
        0
    } else {
        passed_runs(runs.drop_last()) + (if runs.last().passed {
            1nat
        } else {
            0
        })
    }
}

/// The sum of a metric over runs.
pub open spec fn metric_sum(runs: Seq<MetricsView>, metric: spec_fn(MetricsView) -> nat) -> nat
    decreases runs.len(),
{
    if runs.len() == 0 {
        0
    } else {
        metric_sum(runs.drop_last(), metric) + metric(runs.last())
    }
}

/// The tokens of a run.
pub open spec fn token_metric() -> spec_fn(MetricsView) -> nat {
    |m: MetricsView| m.total_tokens
}

/// The turns of a run.
pub open spec fn turn_metric() -> spec_fn(MetricsView) -> nat {
    |m: MetricsView| m.turns
}

/// The tool calls of a run.
pub open spec fn call_metric() -> spec_fn(MetricsView) -> nat {
    |m: MetricsView| m.tool_calls
}

/// The time of a run.
pub open spec fn wall_metric() -> spec_fn(MetricsView) -> nat {
    |m: MetricsView| m.wall_ms
}

/// The fewest tokens of a run; zero where there is none.
pub open spec fn least_tokens(runs: Seq<MetricsView>) -> nat
    decreases runs.len(),
{
    if runs.len() == 0 {
        0
    } else if runs.len() == 1 || runs.last().total_tokens < least_tokens(runs.drop_last()) {
        runs.last().total_tokens
    } else {
        least_tokens(runs.drop_last())
    }
}

/// The most tokens of a run; zero where there is none.
pub open spec fn most_tokens(runs: Seq<MetricsView>) -> nat
    decreases runs.len(),
{
    if runs.len() == 0 {
        0
    } else if runs.last().total_tokens > most_tokens(runs.drop_last()) {
        runs.last().total_tokens
    } else {
        most_tokens(runs.drop_last())
    }
}

/// What an aggregate says of runs.
pub open spec fn aggregates(a: Aggregate, runs: Seq<MetricsView>) -> bool {
    &&& a.runs == runs.len()
    &&& a.passed == passed_runs(runs)
    &&& a.token_sum == metric_sum(runs, token_metric())
    &&& a.min_total_tokens == least_tokens(runs)
    &&& a.max_total_tokens == most_tokens(runs)
    &&& a.turn_sum == metric_sum(runs, turn_metric())
    &&& a.tool_call_sum == metric_sum(runs, call_metric())
    &&& a.wall_ms_sum == metric_sum(runs, wall_metric())
}

impl Aggregate {
    /// What no run comes to.
    fn none() -> (r: Aggregate)
        ensures
            aggregates(r, seq![]),
    {
        Aggregate {
            runs: 0,
            passed: 0,
            token_sum: 0,
            min_total_tokens: 0,
            max_total_tokens: 0,
            turn_sum: 0,
            tool_call_sum: 0,
            wall_ms_sum: 0,
        }
    }

    /// Whether the sums are those of no more runs than were counted.
    spec fn bounded(self) -> bool {
        &&& self.passed <= self.runs
        &&& self.token_sum <= self.runs * (u64::MAX as int)
        &&& self.turn_sum <= self.runs * (u64::MAX as int)
        &&& self.tool_call_sum <= self.runs * (u64::MAX as int)
        &&& self.wall_ms_sum <= self.runs * (u64::MAX as int)
    }

    fn take_in(&mut self, run: &RunMetrics, Ghost(before): Ghost<Seq<MetricsView>>)
        requires
            aggregates(*old(self), before),
            old(self).bounded(),
            old(self).runs < usize::MAX,
        ensures
            aggregates(*final(self), before.push(run@)),
            final(self).bounded(),
    {
        let n: usize = self.runs;
        assert(before.push(run@).drop_last() =~= before);
        assert(n * (u64::MAX as int) + u64::MAX <= u128::MAX) by (nonlinear_arith)
            requires
                n < usize::MAX,
        ;
        assert((n + 1) * (u64::MAX as int) == n * (u64::MAX as int) + u64::MAX) by (nonlinear_arith);
        let least: u64 = if n == 0 || run.total_tokens < self.min_total_tokens {
            run.total_tokens
        } else {
            self.min_total_tokens
        };
        let most: u64 = if run.total_tokens > self.max_total_tokens {
            run.total_tokens
        } else {
            self.max_total_tokens
        };
        let passed: usize = if run.passed {
            self.passed + 1
        } else {
            self.passed
        };
        self.runs = n + 1;
        self.passed = passed;
        self.token_sum = self.token_sum + run.total_tokens as u128;
        self.min_total_tokens = least;
        self.max_total_tokens = most;
        self.turn_sum = self.turn_sum + run.turns as u128;
        self.tool_call_sum = self.tool_call_sum + run.tool_calls as u128;
        self.wall_ms_sum = self.wall_ms_sum + run.wall_ms as u128;
    }

    /// What runs come to together.
    pub fn over(runs: &Vec<RunMetrics>) -> (r: Aggregate)
        ensures
            aggregates(r, runs_view(runs@)),
    {
        let ghost all = runs_view(runs@);
        let mut total = Aggregate::none();
        let mut i: usize = 0;
        assert(all.take(0) =~= seq![]);
        while i < runs.len()
            invariant
                i <= runs@.len(),
                all == runs_view(runs@),
                aggregates(total, all.take(i as int)),
                total.bounded(),
            decreases runs@.len() - i,
        {
            total.take_in(&runs[i], Ghost(all.take(i as int)));
            assert(all.take(i as int).push(all[i as int]) =~= all.take(i + 1));
            i = i + 1;
        }
        assert(all.take(all.len() as int) =~= all);
        total
    }
}

/// The spread of tokens brackets every run.
pub proof fn law_the_spread_brackets_every_run(runs: Seq<MetricsView>, i: int)
    requires
        0 <= i < runs.len(),
    ensures
        least_tokens(runs) <= runs[i].total_tokens <= most_tokens(runs),
    decreases runs.len(),
{
    if i < runs.len() - 1 {
        law_the_spread_brackets_every_run(runs.drop_last(), i);
    }
}

// ---------------------------------------------------------------------------
// Reports
// ---------------------------------------------------------------------------

/// The names of results, each where it comes first.
pub open spec fn first_names(list: Seq<scores::OutcomeView>) -> Seq<Seq<char>>
    decreases list.len(),
{
    if list.len() == 0 {
        seq![]
    } else {
        let before = first_names(list.drop_last());
        if before.contains(list.last().name) {
            before
        } else {
            before.push(list.last().name)
        }
    }
}

/// The results of one eval, in their order.
pub open spec fn results_of(list: Seq<scores::OutcomeView>, name: Seq<char>) -> Seq<scores::OutcomeView>
    decreases list.len(),
{
    if list.len() == 0 {
        seq![]
    } else {
        let before = results_of(list.drop_last(), name);
        if list.last().name == name {
            before.push(list.last())
        } else {
            before
        }
    }
}

/// The metrics of results.
pub open spec fn all_metrics(list: Seq<scores::OutcomeView>) -> Seq<MetricsView> {
    Seq::new(list.len(), |i: int| metrics_spec(list[i]))
}

/// What all runs of one eval show.
pub struct EvalReport {
    pub name: String,
    pub holdout: bool,
    pub runs: Vec<RunMetrics>,
    pub aggregate: Aggregate,
}

/// What a report says of the results of the eval that it names.
pub open spec fn reports_on(r: EvalReport, list: Seq<scores::OutcomeView>) -> bool {
    let own = results_of(list, r.name@);
    &&& runs_view(r.runs@) == all_metrics(own)
    &&& aggregates(r.aggregate, runs_view(r.runs@))
    &&& r.holdout == (own.len() > 0 && own[0].holdout)
}

fn names_in_order(outcomes: &Vec<EvalOutcome>) -> (r: Vec<String>)
    ensures
        text::views(r@) == first_names(scores::outcomes_view(outcomes@)),
{
    let ghost all = scores::outcomes_view(outcomes@);
    let mut names: Vec<String> = Vec::new();
    let mut i: usize = 0;
    assert(text::views(names@) =~= first_names(all.take(0)));
    while i < outcomes.len()
        invariant
            i <= outcomes@.len(),
            all == scores::outcomes_view(outcomes@),
            text::views(names@) == first_names(all.take(i as int)),
        decreases outcomes@.len() - i,
    {
        assert(all.take(i + 1).drop_last() =~= all.take(i as int));
        assert(all.take(i + 1).last() == outcomes@[i as int]@);
        if !text::listed(&names, outcomes[i].name.as_str()) {
            text::add_text(&mut names, outcomes[i].name.clone());
        }
        i = i + 1;
    }
    assert(all.take(all.len() as int) =~= all);
    names
}

/// Whether the usage of every result can be counted.
pub open spec fn results_fit(list: Seq<scores::OutcomeView>) -> bool {
    forall|i: int| 0 <= i < list.len() ==> usage_fits(#[trigger] list[i].models, list[i].scopes)
}

fn report(outcomes: &Vec<EvalOutcome>, name: &str) -> (r: EvalReport)
    requires
        results_fit(scores::outcomes_view(outcomes@)),
    ensures
        r.name@ == name@,
        reports_on(r, scores::outcomes_view(outcomes@)),
{
    let ghost all = scores::outcomes_view(outcomes@);
    let mut runs: Vec<RunMetrics> = Vec::new();
    let mut holdout = false;
    let mut i: usize = 0;
    assert(runs_view(runs@) =~= all_metrics(results_of(all.take(0), name@)));
    while i < outcomes.len()
        invariant
            i <= outcomes@.len(),
            all == scores::outcomes_view(outcomes@),
            results_fit(all),
            runs_view(runs@) == all_metrics(results_of(all.take(i as int), name@)),
            holdout == (results_of(all.take(i as int), name@).len() > 0 && results_of(
                all.take(i as int),
                name@,
            )[0].holdout),
        decreases outcomes@.len() - i,
    {
        assert(all.take(i + 1).drop_last() =~= all.take(i as int));
        assert(all.take(i + 1).last() == all[i as int]);
        assert(all[i as int] == outcomes@[i as int]@);
        if text::same(outcomes[i].name.as_str(), name) {
            let ghost own = results_of(all.take(i as int), name@);
            let ghost before = runs@;
            assert(runs_view(runs@).len() == own.len());
            assert(usage_fits(all[i as int].models, all[i as int].scopes));
            if runs.len() == 0 {
                holdout = outcomes[i].holdout;
            }
            let metrics = RunMetrics::from_outcome(&outcomes[i]);
            runs.push(metrics);
            assert(runs_view(runs@) =~= runs_view(before).push(metrics@));
            assert(all_metrics(own.push(all[i as int])) =~= all_metrics(own).push(
                metrics_spec(all[i as int]),
            ));
        }
        i = i + 1;
    }
    assert(all.take(all.len() as int) =~= all);
    let aggregate = Aggregate::over(&runs);
    EvalReport { name: name.to_owned(), holdout, runs, aggregate }
}

/// Report on every eval, each where it was first run.
pub fn reports(outcomes: &Vec<EvalOutcome>) -> (r: Vec<EvalReport>)
    requires
        results_fit(scores::outcomes_view(outcomes@)),
    ensures
        Seq::new(r@.len(), |i: int| r@[i].name@) == first_names(scores::outcomes_view(outcomes@)),
        forall|i: int|
            0 <= i < r@.len() ==> reports_on(
                #[trigger] r@[i],
                scores::outcomes_view(outcomes@),
            ),
{
    let ghost all = scores::outcomes_view(outcomes@);
    let names = names_in_order(outcomes);
    let ghost wanted = text::views(names@);
    let mut out: Vec<EvalReport> = Vec::new();
    let mut i: usize = 0;
    while i < names.len()
        invariant
            i <= names@.len(),
            out@.len() == i,
            wanted == text::views(names@),
            all == scores::outcomes_view(outcomes@),
            results_fit(all),
            forall|k: int| 0 <= k < i ==> (#[trigger] out@[k]).name@ == wanted[k],
            forall|k: int| 0 <= k < i ==> reports_on(#[trigger] out@[k], all),
        decreases names@.len() - i,
    {
        out.push(report(outcomes, names[i].as_str()));
        i = i + 1;
    }
    assert(Seq::new(out@.len(), |k: int| out@[k].name@) =~= wanted);
    out
}

proof fn lemma_results_step(list: Seq<scores::OutcomeView>, name: Seq<char>)
    requires
        list.len() > 0,
    ensures
        results_of(list, name).len() == results_of(list.drop_last(), name).len() + (if list.last().name
            == name {
            1nat
        } else {
            0
        }),
{
}

/// The sum over names of how many results each has.
pub open spec fn counted(list: Seq<scores::OutcomeView>, names: Seq<Seq<char>>) -> nat
    decreases names.len(),
{
    if names.len() == 0 {
        0
    } else {
        counted(list, names.drop_last()) + results_of(list, names.last()).len()
    }
}

proof fn lemma_counted_step(list: Seq<scores::OutcomeView>, names: Seq<Seq<char>>)
    requires
        list.len() > 0,
        names.no_duplicates(),
    ensures
        counted(list, names) == counted(list.drop_last(), names) + (if names.contains(
            list.last().name,
        ) {
            1nat
        } else {
            0
        }),
    decreases names.len(),
{
    if names.len() > 0 {
        let rest = names.drop_last();
        lemma_counted_step(list, rest);
        lemma_results_step(list, names.last());
        let name = list.last().name;
        if names.contains(name) {
            let k = names.index_of(name);
            if k < rest.len() {
                assert(rest[k] == name);
                assert(names.last() != name);
            } else {
                assert(!rest.contains(name)) by {
                    if rest.contains(name) {
                        let m = rest.index_of(name);
                        assert(names[m] == name);
                    }
                }
            }
        } else {
            assert(!rest.contains(name)) by {
                if rest.contains(name) {
                    let m = rest.index_of(name);
                    assert(names[m] == name);
                }
            }
            assert(names[names.len() - 1] == names.last());
        }
    }
}

proof fn lemma_counted_without(list: Seq<scores::OutcomeView>, name: Seq<char>)
    requires
        !first_names(list).contains(name),
    ensures
        results_of(list, name).len() == 0,
    decreases list.len(),
{
    if list.len() > 0 {
        let before = first_names(list.drop_last());
        let last = list.last().name;
        assert(!before.contains(name)) by {
            if before.contains(name) {
                let k = before.index_of(name);
                assert(first_names(list)[k] == name);
            }
        }
        assert(last != name) by {
            if last == name {
                assert(before.push(last).last() == name);
                assert(first_names(list)[before.len() as int] == name);
            }
        }
        lemma_counted_without(list.drop_last(), name);
    }
}

/// Every result is in exactly one report: no name comes twice, and the reports
/// hold as many runs as there are results.
pub proof fn law_every_run_is_reported_once(list: Seq<scores::OutcomeView>)
    ensures
        first_names(list).no_duplicates(),
        counted(list, first_names(list)) == list.len(),
    decreases list.len(),
{
    if list.len() > 0 {
        let rest = list.drop_last();
        law_every_run_is_reported_once(rest);
        let before = first_names(rest);
        let name = list.last().name;
        lemma_counted_step(list, before);
        if !before.contains(name) {
            lemma_counted_without(rest, name);
            lemma_results_step(list, name);
            assert(before.push(name).drop_last() =~= before);
        }
    }
}

// ---------------------------------------------------------------------------
// Requests
// ---------------------------------------------------------------------------

/// Whether an eval of a name is among the first ones.
pub open spec fn has_eval(evals: Seq<Eval>, name: Seq<char>) -> bool {
    exists|i: int| 0 <= i < evals.len() && (#[trigger] evals[i]).name@ == name
}

/// The first name that no eval has, from a place on.
pub open spec fn unknown_from(evals: Seq<Eval>, filter: Seq<Seq<char>>, from: int) -> Option<
    Seq<char>,
>
    decreases filter.len() - from,
{
    if from < 0 || from >= filter.len() {
        None
    } else if !has_eval(evals, filter[from]) {
        Some(filter[from])
    } else {
        unknown_from(evals, filter, from + 1)
    }
}

/// Why a request to measure cannot be met, if it cannot.
pub open spec fn request_fault(evals: Seq<Eval>, runs: nat, filter: Seq<Seq<char>>) -> Option<
    Seq<char>,
> {
    if evals.len() == 0 {
        Some("no [[eval]] entries configured — soa eval needs scored tasks to measure"@)
    } else if runs == 0 {
        Some("--runs must be at least 1"@)
    } else {
        match unknown_from(evals, filter, 0) {
            Some(name) => Some(
                "no eval named `"@ + name + "` (see the [[eval]] entries in the config)"@,
            ),
            None => None,
        }
    }
}

fn find_eval(evals: &Vec<Eval>, name: &str) -> (r: bool)
    ensures
        r == has_eval(evals@, name@),
{
    let mut i: usize = 0;
    while i < evals.len()
        invariant
            i <= evals@.len(),
            forall|k: int| 0 <= k < i ==> (#[trigger] evals@[k]).name@ != name@,
        decreases evals@.len() - i,
    {
        if text::same(evals[i].name.as_str(), name) {
            assert(evals@[i as int].name@ == name@);
            return true;
        }
        i = i + 1;
    }
    false
}

/// Check a request to measure: there are evals, each is to be run at least
/// once, and every name in the filter is one of theirs.
pub fn check_request(evals: &Vec<Eval>, runs: u32, filter: &Vec<String>) -> (r: Result<(), String>)
    ensures
        match r {
            Ok(_) => request_fault(evals@, runs as nat, text::views(filter@)) is None,
            Err(words) => request_fault(evals@, runs as nat, text::views(filter@)) == Some(words@),
        },
{
    if evals.len() == 0 {
        return Err(
            "no [[eval]] entries configured — soa eval needs scored tasks to measure".to_owned(),
        );
    }
    if runs == 0 {
        return Err("--runs must be at least 1".to_owned());
    }
    let ghost all = text::views(filter@);
    let mut i: usize = 0;
    while i < filter.len()
        invariant
            i <= filter@.len(),
            evals@.len() > 0,
            runs > 0,
            all == text::views(filter@),
            unknown_from(evals@, all, 0) == unknown_from(evals@, all, i as int),
        decreases filter@.len() - i,
    {
        if !find_eval(evals, filter[i].as_str()) {
            return Err(
                text::cat3(
                    "no eval named `",
                    filter[i].as_str(),
                    "` (see the [[eval]] entries in the config)",
                ),
            );
        }
        i = i + 1;
    }
    Ok(())
}

} // verus!

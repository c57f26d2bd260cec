//! The ledger of a run: what each model was used for, the budgets of the run,
//! and the report of both. Prices are not computed here: the texts of costs,
//! and whether one exceeds its budget, are handed in.

use vstd::prelude::*;
use vstd::string::*;

use crate::model;
use crate::model::Usage;
use crate::numbers;
use crate::table::Table;
use crate::text;

verus! {

// ---------------------------------------------------------------------------
// Ledger
// ---------------------------------------------------------------------------

/// What one model was used for.
pub struct ModelUsage {
    pub adapter: String,
    pub external: bool,
    pub attempts: u64,
    pub failures: u64,
    pub requests: u64,
    pub prompt_tokens: u64,
    pub completion_tokens: u64,
    /// Requests whose tokens the provider did not report.
    pub unreported_requests: u64,
    /// Requests for which no price is known.
    pub unpriced_requests: u64,
    pub latency_ms: u64,
}

/// What a row of the ledger stands for.
pub struct RowView {
    pub adapter: Seq<char>,
    pub external: bool,
    pub attempts: nat,
    pub failures: nat,
    pub requests: nat,
    pub prompt_tokens: nat,
    pub completion_tokens: nat,
    pub unreported_requests: nat,
    pub unpriced_requests: nat,
    pub latency_ms: nat,
}

impl View for ModelUsage {
    type V = RowView;

    open spec fn view(&self) -> RowView {
        RowView {
            adapter: self.adapter@,
            external: self.external,
            attempts: self.attempts as nat,
            failures: self.failures as nat,
            requests: self.requests as nat,
            prompt_tokens: self.prompt_tokens as nat,
            completion_tokens: self.completion_tokens as nat,
            unreported_requests: self.unreported_requests as nat,
            unpriced_requests: self.unpriced_requests as nat,
            latency_ms: self.latency_ms as nat,
        }
    }
}

impl Clone for ModelUsage {
    fn clone(&self) -> (r: ModelUsage)
        ensures
            r@ == self@,
    {
        ModelUsage {
            adapter: self.adapter.clone(),
            external: self.external,
            attempts: self.attempts,
            failures: self.failures,
            requests: self.requests,
            prompt_tokens: self.prompt_tokens,
            completion_tokens: self.completion_tokens,
            unreported_requests: self.unreported_requests,
            unpriced_requests: self.unpriced_requests,
            latency_ms: self.latency_ms,
        }
    }
}

/// An empty row.
pub open spec fn unused() -> RowView {
    RowView {
        adapter: seq![],
        external: false,
        attempts: 0,
        failures: 0,
        requests: 0,
        prompt_tokens: 0,
        completion_tokens: 0,
        unreported_requests: 0,
        unpriced_requests: 0,
        latency_ms: 0,
    }
}

impl ModelUsage {
    /// An empty row.
    pub fn empty() -> (r: ModelUsage)
        ensures
            r@ == unused(),
    {
        let adapter = String::new();
        assert(adapter@ =~= seq![]);
        ModelUsage {
            adapter,
            external: false,
            attempts: 0,
            failures: 0,
            requests: 0,
            prompt_tokens: 0,
            completion_tokens: 0,
            unreported_requests: 0,
            unpriced_requests: 0,
            latency_ms: 0,
        }
    }
}

/// The ledger: a row for each model, and the active time of the run.
pub struct UsageSnapshot {
    pub models: Table<ModelUsage>,
    pub elapsed_ms: u64,
}

/// What a ledger stands for.
pub struct LedgerView {
    pub models: Seq<(Seq<char>, RowView)>,
    pub elapsed_ms: nat,
}

/// The rows of a ledger by their views.
pub open spec fn rows_view(rows: Seq<(String, ModelUsage)>) -> Seq<(Seq<char>, RowView)> {
    Seq::new(rows.len(), |i: int| (rows[i].0@, rows[i].1@))
}

impl View for UsageSnapshot {
    type V = LedgerView;

    open spec fn view(&self) -> LedgerView {
        LedgerView {
            models: rows_view(self.models.entries@),
            elapsed_ms: self.elapsed_ms as nat,
        }
    }
}

impl Clone for UsageSnapshot {
    fn clone(&self) -> (r: UsageSnapshot)
        ensures
            r@ == self@,
            self.models.ordered() ==> r.models.ordered(),
    {
        let rows = &self.models.entries;
        let mut out: Vec<(String, ModelUsage)> = Vec::new();
        let mut i: usize = 0;
        while i < rows.len()
            invariant
                i <= rows@.len(),
                out@.len() == i,
                forall|k: int|
                    0 <= k < i ==> (#[trigger] out@[k]).0@ == rows@[k].0@ && out@[k].1@
                        == rows@[k].1@,
            decreases rows@.len() - i,
        {
            out.push((rows[i].0.clone(), rows[i].1.clone()));
            i = i + 1;
        }
        let r = UsageSnapshot { models: Table { entries: out }, elapsed_ms: self.elapsed_ms };
        assert(r@.models =~= self@.models);
        r
    }
}

/// A sum that stops at the greatest number.
pub open spec fn saturated(a: nat, b: nat) -> nat {
    if a + b <= u64::MAX {
        a + b
    } else {
        u64::MAX as nat
    }
}

fn add_saturated(a: u64, b: u64) -> (r: u64)
    ensures
        r as nat == saturated(a as nat, b as nat),
{
    if a <= u64::MAX - b {
        a + b
    } else {
        u64::MAX
    }
}

/// A row after one more attempt. `response` is none for a failed attempt,
/// else the reported tokens; `priced` says whether the cost is known.
pub open spec fn attempted(
    row: RowView,
    adapter: Seq<char>,
    external: bool,
    elapsed_ms: nat,
    response: Option<Option<Usage>>,
    priced: bool,
) -> RowView {
    let base = RowView {
        adapter,
        external: row.external || external,
        attempts: row.attempts + 1,
        latency_ms: saturated(row.latency_ms, elapsed_ms),
        ..row
    };
    match response {
        None => RowView { failures: row.failures + 1, ..base },
        Some(None) => RowView {
            requests: row.requests + 1,
            unreported_requests: row.unreported_requests + 1,
            unpriced_requests: row.unpriced_requests + 1,
            ..base
        },
        Some(Some(usage)) => RowView {
            requests: row.requests + 1,
            prompt_tokens: saturated(row.prompt_tokens, usage.prompt_tokens as nat),
            completion_tokens: saturated(row.completion_tokens, usage.completion_tokens as nat),
            unpriced_requests: if priced {
                row.unpriced_requests
            } else {
                row.unpriced_requests + 1
            },
            ..base
        },
    }
}

/// Whether a row can count one more attempt.
pub open spec fn countable(row: RowView) -> bool {
    row.attempts < u64::MAX && row.failures < u64::MAX && row.requests < u64::MAX
        && row.unreported_requests < u64::MAX && row.unpriced_requests < u64::MAX
}

/// The row of a model, or an empty one.
pub open spec fn row_of(models: Table<ModelUsage>, label: Seq<char>) -> RowView {
    if models.has_name(label) {
        models.at(label)@
    } else {
        unused()
    }
}

/// Whether the counts of a row agree: each attempt is a request or a failure,
/// and the requests without known cost are requests, those without reported
/// tokens among them.
pub open spec fn adds_up(row: RowView) -> bool {
    &&& row.requests + row.failures == row.attempts
    &&& row.unreported_requests <= row.unpriced_requests <= row.requests
}

/// Whether the counts of every row agree.
pub open spec fn all_add_up(models: Table<ModelUsage>) -> bool {
    forall|label: Seq<char>| adds_up(#[trigger] row_of(models, label))
}

impl UsageSnapshot {
    /// An empty ledger.
    pub fn empty() -> (r: UsageSnapshot)
        ensures
            r.models.entries@.len() == 0,
            r.models.ordered(),
            all_add_up(r.models),
            r.elapsed_ms == 0,
    {
        UsageSnapshot { models: Table::new(), elapsed_ms: 0 }
    }

    /// Count one attempt in the row of its model.
    pub fn record_attempt(
        &mut self,
        label: &str,
        adapter: &str,
        external: bool,
        elapsed_ms: u64,
        response: Option<Option<Usage>>,
        priced: bool,
    )
        requires
            old(self).models.ordered(),
            countable(row_of(old(self).models, label@)),
        ensures
            final(self).models.ordered(),
            final(self).models.has_name(label@),
            final(self).models.at(label@)@ == attempted(
                row_of(old(self).models, label@),
                adapter@,
                external,
                elapsed_ms as nat,
                response,
                priced,
            ),
            old(self).models.same_but_for(final(self).models, label@),
            all_add_up(old(self).models) ==> all_add_up(final(self).models),
            final(self).elapsed_ms == old(self).elapsed_ms,
    {
        let ghost start = self.models;
        let row = match self.models.get(label) {
            Some(row) => row.clone(),
            None => ModelUsage::empty(),
        };
        let mut next = ModelUsage {
            adapter: adapter.to_owned(),
            external: row.external || external,
            attempts: row.attempts + 1,
            failures: row.failures,
            requests: row.requests,
            prompt_tokens: row.prompt_tokens,
            completion_tokens: row.completion_tokens,
            unreported_requests: row.unreported_requests,
            unpriced_requests: row.unpriced_requests,
            latency_ms: add_saturated(row.latency_ms, elapsed_ms),
        };
        match response {
            None => {
                next.failures = next.failures + 1;
            },
            Some(reported) => {
                next.requests = next.requests + 1;
                match reported {
                    Some(usage) => {
                        next.prompt_tokens = add_saturated(
                            next.prompt_tokens,
                            usage.prompt_tokens,
                        );
                        next.completion_tokens = add_saturated(
                            next.completion_tokens,
                            usage.completion_tokens,
                        );
                        if !priced {
                            next.unpriced_requests = next.unpriced_requests + 1;
                        }
                    },
                    None => {
                        next.unreported_requests = next.unreported_requests + 1;
                        next.unpriced_requests = next.unpriced_requests + 1;
                    },
                }
            },
        }
        self.models.insert(label.to_owned(), next);
        proof {
            let models = self.models;
            if all_add_up(start) {
                assert forall|other: Seq<char>| adds_up(#[trigger] row_of(models, other)) by {
                    assert(adds_up(row_of(start, other)));
                }
            }
        }
    }
}

// ---------------------------------------------------------------------------
// Totals
// ---------------------------------------------------------------------------

/// A column of the ledger.
pub enum Column {
    Attempts,
    Failures,
    Requests,
    PromptTokens,
    CompletionTokens,
    Unreported,
    Unpriced,
    Latency,
}

/// A row's number in a column.
pub open spec fn cell(row: RowView, column: Column) -> nat {
    match column {
        Column::Attempts => row.attempts,
        Column::Failures => row.failures,
        Column::Requests => row.requests,
        Column::PromptTokens => row.prompt_tokens,
        Column::CompletionTokens => row.completion_tokens,
        Column::Unreported => row.unreported_requests,
        Column::Unpriced => row.unpriced_requests,
        Column::Latency => row.latency_ms,
    }
}

/// The sum of a column over rows.
pub open spec fn column_sum(rows: Seq<(String, ModelUsage)>, column: Column) -> nat
    decreases rows.len(),
{
    if rows.len() == 0 {
        0
    } else {
        column_sum(rows.drop_last(), column) + cell(rows.last().1@, column)
    }
}

/// Whether the sums of a ledger fit their counters.
pub open spec fn totals_fit(models: Table<ModelUsage>) -> bool {
    forall|column: Column| #[trigger] column_sum(models.entries@, column) <= u64::MAX
}

proof fn lemma_sum_grows(rows: Seq<(String, ModelUsage)>, column: Column, n: int)
    requires
        0 <= n <= rows.len(),
    ensures
        column_sum(rows.take(n), column) <= column_sum(rows, column),
    decreases rows.len() - n,
{
    if n == rows.len() {
        assert(rows.take(n) =~= rows);
    } else {
        assert(rows.take(n + 1).drop_last() =~= rows.take(n));
        lemma_sum_grows(rows, column, n + 1);
    }
}

/// The sums of a ledger.
pub struct UsageTotals {
    pub attempts: u64,
    pub failures: u64,
    pub requests: u64,
    pub prompt_tokens: u64,
    pub completion_tokens: u64,
    pub unreported_requests: u64,
    pub unpriced_requests: u64,
    pub latency_ms: u64,
}

impl UsageTotals {
    /// Whether each total is the sum of its column.
    pub open spec fn sums(self, rows: Seq<(String, ModelUsage)>) -> bool {
        &&& self.attempts == column_sum(rows, Column::Attempts)
        &&& self.failures == column_sum(rows, Column::Failures)
        &&& self.requests == column_sum(rows, Column::Requests)
        &&& self.prompt_tokens == column_sum(rows, Column::PromptTokens)
        &&& self.completion_tokens == column_sum(rows, Column::CompletionTokens)
        &&& self.unreported_requests == column_sum(rows, Column::Unreported)
        &&& self.unpriced_requests == column_sum(rows, Column::Unpriced)
        &&& self.latency_ms == column_sum(rows, Column::Latency)
    }
}

impl UsageSnapshot {
    /// The sums of the ledger.
    pub fn totals(&self) -> (t: UsageTotals)
        requires
            totals_fit(self.models),
        ensures
            t.sums(self.models.entries@),
    {
        let rows = &self.models.entries;
        let ghost all = rows@;
        let mut t = UsageTotals {
            attempts: 0,
            failures: 0,
            requests: 0,
            prompt_tokens: 0,
            completion_tokens: 0,
            unreported_requests: 0,
            unpriced_requests: 0,
            latency_ms: 0,
        };
        let mut i: usize = 0;
        while i < rows.len()
            invariant
                i <= rows@.len(),
                all == rows@,
                totals_fit(self.models),
                self.models.entries@ == all,
                t.sums(all.take(i as int)),
            decreases rows@.len() - i,
        {
            proof {
                assert(all.take(i + 1).drop_last() =~= all.take(i as int));
                assert(all.take(i + 1).last() == all[i as int]);
                lemma_sum_grows(all, Column::Attempts, i + 1);
                lemma_sum_grows(all, Column::Failures, i + 1);
                lemma_sum_grows(all, Column::Requests, i + 1);
                lemma_sum_grows(all, Column::PromptTokens, i + 1);
                lemma_sum_grows(all, Column::CompletionTokens, i + 1);
                lemma_sum_grows(all, Column::Unreported, i + 1);
                lemma_sum_grows(all, Column::Unpriced, i + 1);
                lemma_sum_grows(all, Column::Latency, i + 1);
            }
            let row = &rows[i].1;
            t.attempts = t.attempts + row.attempts;
            t.failures = t.failures + row.failures;
            t.requests = t.requests + row.requests;
            t.prompt_tokens = t.prompt_tokens + row.prompt_tokens;
            t.completion_tokens = t.completion_tokens + row.completion_tokens;
            t.unreported_requests = t.unreported_requests + row.unreported_requests;
            t.unpriced_requests = t.unpriced_requests + row.unpriced_requests;
            t.latency_ms = t.latency_ms + row.latency_ms;
            i = i + 1;
        }
        assert(all.take(rows@.len() as int) =~= all);
        t
    }
}

/// The tokens that a ledger counts, sent and received.
pub open spec fn tokens_used(models: Table<ModelUsage>) -> nat {
    saturated(
        column_sum(models.entries@, Column::PromptTokens),
        column_sum(models.entries@, Column::CompletionTokens),
    )
}

fn used_tokens(t: &UsageTotals) -> (r: u64)
    ensures
        r as nat == saturated(t.prompt_tokens as nat, t.completion_tokens as nat),
{
    add_saturated(t.prompt_tokens, t.completion_tokens)
}

// ---------------------------------------------------------------------------
// Budgets
// ---------------------------------------------------------------------------

/// The limits of a run.
pub struct RunLimits {
    pub max_tokens: Option<u64>,
    /// The cost limit as it is written, where there is one.
    pub max_cost: Option<String>,
    pub max_time_ms: Option<u64>,
}

/// The cost of a run so far, as it is written, and whether the limit is
/// reached: before a request at the limit, after a response over it.
pub struct CostState {
    pub written: String,
    pub reached: bool,
}

/// The active time of a run: that of earlier runs, and that since the start.
pub fn active_time(prior_ms: u64, since_start_ms: u64) -> (r: u64)
    ensures
        r as nat == saturated(prior_ms as nat, since_start_ms as nat),
{
    add_saturated(prior_ms, since_start_ms)
}

/// The tokens that are left of the budget.
pub fn remaining_tokens(snapshot: &UsageSnapshot, limits: &RunLimits) -> (r: Option<u64>)
    requires
        totals_fit(snapshot.models),
    ensures
        match limits.max_tokens {
            None => r is None,
            Some(limit) => r == Some(
                (if tokens_used(snapshot.models) <= limit {
                    limit - tokens_used(snapshot.models)
                } else {
                    0
                }) as u64,
            ),
        },
{
    match limits.max_tokens {
        None => None,
        Some(limit) => {
            let t = snapshot.totals();
            let used: u64 = used_tokens(&t);
            if used <= limit {
                Some(limit - used)
            } else {
                Some(0)
            }
        },
    }
}

/// The words for an exhausted time budget.
pub open spec fn time_exhausted(elapsed_ms: nat, limit_ms: nat) -> Seq<char> {
    "run time budget exhausted: "@ + model::fmt_duration_spec(elapsed_ms) + " elapsed of "@
        + model::fmt_duration_spec(limit_ms)
}

fn time_error(elapsed_ms: u64, limit_ms: u64) -> (r: String)
    ensures
        r@ == time_exhausted(elapsed_ms as nat, limit_ms as nat),
{
    text::cat4(
        "run time budget exhausted: ",
        model::fmt_duration(elapsed_ms).as_str(),
        " elapsed of ",
        model::fmt_duration(limit_ms).as_str(),
    )
}

/// The time that is left of the budget, in milliseconds: nothing where there
/// is no limit, an error where none is left.
pub fn remaining_time(elapsed_ms: u64, limits: &RunLimits) -> (r: Result<Option<u64>, String>)
    ensures
        match limits.max_time_ms {
            None => r matches Ok(None),
            Some(limit) => if elapsed_ms < limit {
                r matches Ok(Some(left)) && left == limit - elapsed_ms
            } else {
                r matches Err(e) && e@ == time_exhausted(elapsed_ms as nat, limit as nat)
            },
        },
{
    match limits.max_time_ms {
        None => Ok(None),
        Some(limit) => if elapsed_ms < limit {
            Ok(Some(limit - elapsed_ms))
        } else {
            Err(time_error(elapsed_ms, limit))
        },
    }
}

/// The first budget that is exhausted: tokens, then cost, then time.
pub open spec fn exhausted(
    snapshot: UsageSnapshot,
    limits: RunLimits,
    cost: CostState,
    after_response: bool,
) -> Option<Seq<char>> {
    let tokens = tokens_used(snapshot.models);
    let over_tokens = match limits.max_tokens {
        Some(limit) => if after_response {
            tokens > limit
        } else {
            tokens >= limit
        },
        None => false,
    };
    if over_tokens {
        Some(
            "run token budget exhausted: "@ + model::fmt_tokens_spec(tokens) + " used of "@
                + model::fmt_tokens_spec(limits.max_tokens->0 as nat),
        )
    } else if limits.max_cost is Some && cost.reached {
        Some(
            "run cost budget exhausted: "@ + cost.written@ + " used of "@ + limits.max_cost->0@,
        )
    } else {
        match limits.max_time_ms {
            Some(limit) => if snapshot.elapsed_ms >= limit {
                Some(time_exhausted(snapshot.elapsed_ms as nat, limit as nat))
            } else {
                None
            },
            None => None,
        }
    }
}

/// Check the budgets. Before a request a budget is exhausted once it is used
/// up, after a response once it is exceeded.
pub fn check_limits(
    snapshot: &UsageSnapshot,
    limits: &RunLimits,
    cost: &CostState,
    after_response: bool,
) -> (r: Result<(), String>)
    requires
        totals_fit(snapshot.models),
    ensures
        match r {
            Ok(()) => exhausted(*snapshot, *limits, *cost, after_response) is None,
            Err(e) => exhausted(*snapshot, *limits, *cost, after_response) == Some(e@),
        },
{
    let t = snapshot.totals();
    let tokens: u64 = used_tokens(&t);
    match limits.max_tokens {
        Some(limit) => {
            let over = if after_response {
                tokens > limit
            } else {
                tokens >= limit
            };
            if over {
                return Err(
                    text::cat4(
                        "run token budget exhausted: ",
                        model::fmt_tokens(tokens).as_str(),
                        " used of ",
                        model::fmt_tokens(limit).as_str(),
                    ),
                );
            }
        },
        None => {},
    }
    match &limits.max_cost {
        Some(limit) => {
            if cost.reached {
                return Err(
                    text::cat4(
                        "run cost budget exhausted: ",
                        cost.written.as_str(),
                        " used of ",
                        limit.as_str(),
                    ),
                );
            }
        },
        None => {},
    }
    match limits.max_time_ms {
        Some(limit) => {
            if snapshot.elapsed_ms >= limit {
                return Err(time_error(snapshot.elapsed_ms, limit));
            }
        },
        None => {},
    }
    Ok(())
}

/// The words for a model without prices under a cost budget.
pub open spec fn unpriced_text(label: Seq<char>) -> Seq<char> {
    "run cost budget cannot be enforced for model `"@ + label
        + "`: configure both input_cost_per_million and output_cost_per_million"@
}

/// Check the budgets before a request: under a cost budget the model's
/// prices have to be known.
pub fn check_before_request(
    snapshot: &UsageSnapshot,
    limits: &RunLimits,
    cost: &CostState,
    label: &str,
    priced: bool,
) -> (r: Result<(), String>)
    requires
        totals_fit(snapshot.models),
    ensures
        match r {
            Ok(()) => exhausted(*snapshot, *limits, *cost, false) is None && (limits.max_cost is None
                || priced),
            Err(e) => match exhausted(*snapshot, *limits, *cost, false) {
                Some(words) => e@ == words,
                None => limits.max_cost is Some && !priced && e@ == unpriced_text(label@),
            },
        },
{
    match check_limits(snapshot, limits, cost, false) {
        Ok(()) => {},
        Err(e) => {
            return Err(e);
        },
    }
    if limits.max_cost.is_some() && !priced {
        return Err(
            text::cat3(
                "run cost budget cannot be enforced for model `",
                label,
                "`: configure both input_cost_per_million and output_cost_per_million",
            ),
        );
    }
    Ok(())
}

/// The words for a response without token counts under a budget.
pub const UNREPORTED_TEXT: &'static str = "run budget cannot be enforced because the provider omitted token usage for a successful request";

/// Check the budgets after a response: under a token or cost budget its
/// tokens have to be reported.
pub fn check_after_response(
    snapshot: &UsageSnapshot,
    limits: &RunLimits,
    cost: &CostState,
    reported: bool,
) -> (r: Result<(), String>)
    requires
        totals_fit(snapshot.models),
    ensures
        ({
            let unknown = !reported && (limits.max_tokens is Some || limits.max_cost is Some);
            match r {
                Ok(()) => !unknown && exhausted(*snapshot, *limits, *cost, true) is None,
                Err(e) => if unknown {
                    e@ == UNREPORTED_TEXT@
                } else {
                    exhausted(*snapshot, *limits, *cost, true) == Some(e@)
                },
            }
        }),
{
    if !reported && (limits.max_tokens.is_some() || limits.max_cost.is_some()) {
        return Err(UNREPORTED_TEXT.to_owned());
    }
    check_limits(snapshot, limits, cost, true)
}

/// An attempt never lowers what a ledger counts: a token budget that is
/// exhausted stays exhausted.
pub proof fn law_counts_never_fall(
    row: RowView,
    adapter: Seq<char>,
    external: bool,
    elapsed_ms: nat,
    response: Option<Option<Usage>>,
    priced: bool,
    column: Column,
)
    requires
        row.prompt_tokens <= u64::MAX,
        row.completion_tokens <= u64::MAX,
        row.latency_ms <= u64::MAX,
    ensures
        cell(attempted(row, adapter, external, elapsed_ms, response, priced), column) >= cell(
            row,
            column,
        ),
{
}

/// Every attempt is either a request or a failure: a row in which the two
/// add up to the attempts goes on doing so. A request whose tokens were not
/// reported has no known cost, and only requests can lack one: a row in which
/// these counts stand in that order keeps them so.
pub proof fn law_attempts_are_requests_or_failures(
    row: RowView,
    adapter: Seq<char>,
    external: bool,
    elapsed_ms: nat,
    response: Option<Option<Usage>>,
    priced: bool,
)
    requires
        row.requests + row.failures == row.attempts,
    ensures
        ({
            let next = attempted(row, adapter, external, elapsed_ms, response, priced);
            &&& next.requests + next.failures == next.attempts
            &&& row.unreported_requests <= row.unpriced_requests <= row.requests
                ==> next.unreported_requests <= next.unpriced_requests <= next.requests
        }),
{
}

// ---------------------------------------------------------------------------
// Report
// ---------------------------------------------------------------------------

/// A cost with the requests that it leaves out.
pub open spec fn cost_text(written: Seq<char>, unpriced: nat) -> Seq<char> {
    if unpriced == 0 {
        written
    } else {
        written + " known + "@ + numbers::decimal_spec(unpriced) + " unpriced"@
    }
}

/// A cost with the requests that it leaves out.
pub fn describe_cost(written: &str, unpriced: u64) -> (r: String)
    ensures
        r@ == cost_text(written@, unpriced as nat),
{
    if unpriced == 0 {
        written.to_owned()
    } else {
        text::cat4(written, " known + ", numbers::decimal(unpriced).as_str(), " unpriced")
    }
}

/// One text, or none.
pub open spec fn shown_if(shown: bool, s: Seq<char>) -> Seq<Seq<char>> {
    if shown {
        seq![s]
    } else {
        seq![]
    }
}

/// The requests and attempts of a row.
pub open spec fn requests_text(requests: nat, attempts: nat) -> Seq<char> {
    numbers::decimal_spec(requests) + " request(s)/"@ + numbers::decimal_spec(attempts)
        + " attempt(s)"@
}

/// The tokens of a row.
pub open spec fn tokens_text(prompt: nat, completion: nat) -> Seq<char> {
    model::fmt_tokens_spec(prompt) + " in + "@ + model::fmt_tokens_spec(completion) + " out"@
}

/// What the report says of one model.
pub open spec fn row_details(row: RowView, cost: Seq<char>) -> Seq<Seq<char>> {
    seq![
        requests_text(row.requests, row.attempts),
        tokens_text(row.prompt_tokens, row.completion_tokens),
        cost_text(cost, row.unpriced_requests),
        model::fmt_duration_spec(row.latency_ms) + " provider time"@,
        "via "@ + row.adapter,
    ] + shown_if(row.failures > 0, numbers::decimal_spec(row.failures) + " failed"@) + shown_if(
        row.unreported_requests > 0,
        numbers::decimal_spec(row.unreported_requests) + " without usage"@,
    ) + shown_if(row.external, "external"@)
}

/// The report's line of one model.
pub open spec fn row_line(label: Seq<char>, row: RowView, cost: Seq<char>) -> Seq<char> {
    label + ": "@ + text::join_spec(row_details(row, cost), " · "@)
}

fn requests_part(requests: u64, attempts: u64) -> (r: String)
    ensures
        r@ == requests_text(requests as nat, attempts as nat),
{
    text::cat4(
        numbers::decimal(requests).as_str(),
        " request(s)/",
        numbers::decimal(attempts).as_str(),
        " attempt(s)",
    )
}

fn tokens_part(prompt: u64, completion: u64) -> (r: String)
    ensures
        r@ == tokens_text(prompt as nat, completion as nat),
{
    text::cat4(
        model::fmt_tokens(prompt).as_str(),
        " in + ",
        model::fmt_tokens(completion).as_str(),
        " out",
    )
}

fn model_line(label: &str, row: &ModelUsage, cost: &str) -> (r: String)
    ensures
        r@ == row_line(label@, row@, cost@),
{
    let mut details: Vec<String> = Vec::new();
    details.push(requests_part(row.requests, row.attempts));
    details.push(tokens_part(row.prompt_tokens, row.completion_tokens));
    details.push(describe_cost(cost, row.unpriced_requests));
    details.push(
        text::cat2(model::fmt_duration(row.latency_ms).as_str(), " provider time"),
    );
    details.push(text::cat2("via ", row.adapter.as_str()));
    if row.failures > 0 {
        details.push(text::cat2(numbers::decimal(row.failures).as_str(), " failed"));
    }
    if row.unreported_requests > 0 {
        details.push(
            text::cat2(numbers::decimal(row.unreported_requests).as_str(), " without usage"),
        );
    }
    if row.external {
        details.push("external".to_owned());
    }
    assert(text::views(details@) =~= row_details(row@, cost@));
    text::cat3(label, ": ", text::join(&details, " · ").as_str())
}

/// The costs that a report writes: each model's in the order of the ledger,
/// and the total.
pub struct CostTexts {
    pub models: Vec<String>,
    pub total: String,
}

/// The report's lines of the models.
pub open spec fn row_lines(rows: Seq<(String, ModelUsage)>, costs: Seq<Seq<char>>) -> Seq<
    Seq<char>,
> {
    Seq::new(rows.len(), |i: int| row_line(rows[i].0@, rows[i].1@, costs[i]))
}

/// The report's line of the totals.
pub open spec fn total_line(snapshot: UsageSnapshot, cost: Seq<char>) -> Seq<char> {
    let rows = snapshot.models.entries@;
    let failures = column_sum(rows, Column::Failures);
    let unreported = column_sum(rows, Column::Unreported);
    "total: "@ + requests_text(
        column_sum(rows, Column::Requests),
        column_sum(rows, Column::Attempts),
    ) + " · "@ + tokens_text(
        column_sum(rows, Column::PromptTokens),
        column_sum(rows, Column::CompletionTokens),
    ) + " · "@ + cost_text(cost, column_sum(rows, Column::Unpriced)) + " · "@
        + model::fmt_duration_spec(column_sum(rows, Column::Latency)) + " provider time · "@
        + model::fmt_duration_spec(snapshot.elapsed_ms as nat) + " elapsed"@ + (if failures > 0 {
        " · "@ + numbers::decimal_spec(failures) + " failed"@
    } else {
        ""@
    }) + (if unreported > 0 {
        " · "@ + numbers::decimal_spec(unreported) + " without usage"@
    } else {
        ""@
    })
}

/// What the report says of the budgets.
pub open spec fn budget_parts(
    limits: RunLimits,
    tokens: nat,
    cost: Seq<char>,
    elapsed_ms: nat,
) -> Seq<Seq<char>> {
    (match limits.max_tokens {
        Some(limit) => seq![
            "tokens "@ + model::fmt_tokens_spec(tokens) + "/"@ + model::fmt_tokens_spec(
                limit as nat,
            ),
        ],
        None => seq![],
    }) + (match limits.max_cost {
        Some(limit) => seq!["cost "@ + cost + "/"@ + limit@],
        None => seq![],
    }) + (match limits.max_time_ms {
        Some(limit) => seq![
            "time "@ + model::fmt_duration_spec(elapsed_ms) + "/"@ + model::fmt_duration_spec(
                limit as nat,
            ),
        ],
        None => seq![],
    })
}

/// The report of a run: nothing where nothing was attempted and no budget is
/// set.
pub open spec fn report_spec(
    snapshot: UsageSnapshot,
    limits: RunLimits,
    costs: Seq<Seq<char>>,
    total: Seq<char>,
) -> Seq<Seq<char>> {
    let rows = snapshot.models.entries@;
    let elapsed = snapshot.elapsed_ms as nat;
    if column_sum(rows, Column::Attempts) == 0 {
        let budgets = budget_parts(limits, 0, "$0.0000"@, elapsed);
        if budgets.len() == 0 {
            seq![]
        } else {
            seq![
                "total: no model attempts · "@ + model::fmt_duration_spec(elapsed) + " elapsed"@,
                "budgets: "@ + text::join_spec(budgets, " · "@),
            ]
        }
    } else {
        let budgets = budget_parts(limits, tokens_used(snapshot.models), total, elapsed);
        let lines = row_lines(rows, costs).push(total_line(snapshot, total));
        if budgets.len() == 0 {
            lines
        } else {
            lines.push("budgets: "@ + text::join_spec(budgets, " · "@))
        }
    }
}

fn budget_list(limits: &RunLimits, tokens: u64, cost: &str, elapsed_ms: u64) -> (r: Vec<String>)
    ensures
        text::views(r@) == budget_parts(*limits, tokens as nat, cost@, elapsed_ms as nat),
{
    let mut out: Vec<String> = Vec::new();
    match limits.max_tokens {
        Some(limit) => {
            out.push(
                text::cat4(
                    "tokens ",
                    model::fmt_tokens(tokens).as_str(),
                    "/",
                    model::fmt_tokens(limit).as_str(),
                ),
            );
        },
        None => {},
    }
    match &limits.max_cost {
        Some(limit) => {
            out.push(text::cat4("cost ", cost, "/", limit.as_str()));
        },
        None => {},
    }
    match limits.max_time_ms {
        Some(limit) => {
            out.push(
                text::cat4(
                    "time ",
                    model::fmt_duration(elapsed_ms).as_str(),
                    "/",
                    model::fmt_duration(limit).as_str(),
                ),
            );
        },
        None => {},
    }
    assert(text::views(out@) =~= budget_parts(*limits, tokens as nat, cost@, elapsed_ms as nat));
    out
}

fn total_text(snapshot: &UsageSnapshot, t: &UsageTotals, cost: &str) -> (r: String)
    requires
        t.sums(snapshot.models.entries@),
    ensures
        r@ == total_line(*snapshot, cost@),
{
    let mut out = text::cat5(
        "total: ",
        requests_part(t.requests, t.attempts).as_str(),
        " · ",
        tokens_part(t.prompt_tokens, t.completion_tokens).as_str(),
        " · ",
    );
    out.append(describe_cost(cost, t.unpriced_requests).as_str());
    out.append(" · ");
    out.append(model::fmt_duration(t.latency_ms).as_str());
    out.append(" provider time · ");
    out.append(model::fmt_duration(snapshot.elapsed_ms).as_str());
    out.append(" elapsed");
    let failed = if t.failures > 0 {
        text::cat3(" · ", numbers::decimal(t.failures).as_str(), " failed")
    } else {
        "".to_owned()
    };
    out.append(failed.as_str());
    let unreported = if t.unreported_requests > 0 {
        text::cat3(" · ", numbers::decimal(t.unreported_requests).as_str(), " without usage")
    } else {
        "".to_owned()
    };
    out.append(unreported.as_str());
    out
}

/// The report of a run: a line for each model, the totals, and the budgets.
pub fn report_lines(snapshot: &UsageSnapshot, limits: &RunLimits, costs: &CostTexts) -> (r: Vec<
    String,
>)
    requires
        totals_fit(snapshot.models),
        costs.models@.len() == snapshot.models.entries@.len(),
    ensures
        text::views(r@) == report_spec(
            *snapshot,
            *limits,
            text::views(costs.models@),
            costs.total@,
        ),
{
    let t = snapshot.totals();
    let mut lines: Vec<String> = Vec::new();
    if t.attempts == 0 {
        let budgets = budget_list(limits, 0, "$0.0000", snapshot.elapsed_ms);
        assert(text::views(budgets@).len() == budgets@.len());
        if budgets.len() > 0 {
            lines.push(
                text::cat3(
                    "total: no model attempts · ",
                    model::fmt_duration(snapshot.elapsed_ms).as_str(),
                    " elapsed",
                ),
            );
            lines.push(text::cat2("budgets: ", text::join(&budgets, " · ").as_str()));
        }
        assert(text::views(lines@) =~= report_spec(
            *snapshot,
            *limits,
            text::views(costs.models@),
            costs.total@,
        ));
        return lines;
    }
    let rows = &snapshot.models.entries;
    let ghost expected = row_lines(rows@, text::views(costs.models@));
    let mut i: usize = 0;
    while i < rows.len()
        invariant
            i <= rows@.len(),
            rows@.len() == costs.models@.len(),
            expected == row_lines(rows@, text::views(costs.models@)),
            lines@.len() == i,
            forall|k: int| 0 <= k < i ==> (#[trigger] lines@[k])@ == expected[k],
        decreases rows@.len() - i,
    {
        lines.push(model_line(rows[i].0.as_str(), &rows[i].1, costs.models[i].as_str()));
        i = i + 1;
    }
    assert(text::views(lines@) =~= expected);
    text::add_text(&mut lines, total_text(snapshot, &t, costs.total.as_str()));
    let used: u64 = used_tokens(&t);
    let budgets = budget_list(limits, used, costs.total.as_str(), snapshot.elapsed_ms);
    assert(text::views(budgets@).len() == budgets@.len());
    if budgets.len() > 0 {
        text::add_text(
            &mut lines,
            text::cat2("budgets: ", text::join(&budgets, " · ").as_str()),
        );
    }
    lines
}

} // verus!

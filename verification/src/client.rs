//! The model client: one completion tries the targets of a chain in turn, each
//! as often as retries allow, within the budgets of the run.

use vstd::prelude::*;

use crate::model;
use crate::model::{AdapterError, Delivery, NextAttempt, Usage};
use crate::text;
use crate::usage;
use crate::usage::{CostState, RunLimits, UsageSnapshot};

verus! {

/// An endpoint that can serve a request.
pub struct ModelTarget {
    /// The configured name of the model.
    pub label: String,
    /// The model's id at its provider.
    pub model: String,
    /// The name of the wire protocol.
    pub adapter: String,
    /// Whether requests leave the trusted local boundary.
    pub external: bool,
    /// Whether the model's prices are known.
    pub priced: bool,
    pub stream: bool,
    pub max_tokens: Option<u32>,
}

/// A chain of endpoints, tried in order.
pub struct ModelClient {
    pub targets: Vec<ModelTarget>,
    /// Retries of a failed request on each endpoint.
    pub retries: u32,
}

/// The labels of targets.
pub open spec fn labels_spec(targets: Seq<ModelTarget>) -> Seq<Seq<char>> {
    Seq::new(targets.len(), |i: int| targets[i].label@)
}

impl ModelClient {
    /// The labels of the chain, in order.
    pub fn target_labels(&self) -> (r: Vec<String>)
        ensures
            text::views(r@) == labels_spec(self.targets@),
    {
        let ghost all = labels_spec(self.targets@);
        let mut out: Vec<String> = Vec::new();
        let mut i: usize = 0;
        assert(text::views(out@) =~= all.take(0));
        while i < self.targets.len()
            invariant
                i <= self.targets@.len(),
                all == labels_spec(self.targets@),
                text::views(out@) == all.take(i as int),
            decreases self.targets@.len() - i,
        {
            text::add_text(&mut out, self.targets[i].label.clone());
            assert(all.take(i as int).push(all[i as int]) =~= all.take(i + 1));
            i = i + 1;
        }
        assert(all.take(all.len() as int) =~= all);
        out
    }
}

/// A completion under way.
pub struct Completion {
    /// The target that is tried, by its place in the chain.
    pub target: usize,
    /// Retries on it so far.
    pub attempt: u32,
    /// What of a reply was delivered, over all attempts.
    pub delivery: Delivery,
}

/// A request that may be sent.
#[derive(Debug, Clone, Copy, PartialEq, Eq, Structural)]
pub struct Attempt {
    /// The output allowance.
    pub max_tokens: Option<u32>,
    /// How long to wait for it.
    pub timeout_ms: Option<u64>,
}

/// What came of a request.
pub enum AttemptEvent {
    /// A reply, with the usage that it reported.
    Replied(Option<Usage>),
    Failed(AdapterError),
    /// The time of the run was used up.
    TimedOut,
}

/// What to do next.
pub enum ClientAction {
    /// Return the reply.
    Deliver,
    /// Return this error; nothing else is tried.
    Stop(String),
    /// Send the request again after this delay.
    Retry(u64),
    /// Send the request to the next target.
    Fallback,
    /// Return the last failure, under these words.
    GiveUp { context: String, source: String },
}

/// What to do next.
pub enum ActionView {
    Deliver,
    Stop(Seq<char>),
    Retry(nat),
    Fallback,
    GiveUp { context: Seq<char>, source: Seq<char> },
}

impl View for ClientAction {
    type V = ActionView;

    open spec fn view(&self) -> ActionView {
        match self {
            ClientAction::Deliver => ActionView::Deliver,
            ClientAction::Stop(s) => ActionView::Stop(s@),
            ClientAction::Retry(ms) => ActionView::Retry(*ms as nat),
            ClientAction::Fallback => ActionView::Fallback,
            ClientAction::GiveUp { context, source } => ActionView::GiveUp {
                context: context@,
                source: source@,
            },
        }
    }
}

/// What the ledger is told of a request: nothing for one that failed, else the
/// usage, if it was reported.
pub open spec fn response_spec(event: AttemptEvent) -> Option<Option<Usage>> {
    match event {
        AttemptEvent::Replied(usage) => Some(usage),
        _ => None,
    }
}

impl AttemptEvent {
    /// What the ledger is told of the request.
    pub fn response(&self) -> (r: Option<Option<Usage>>)
        ensures
            r == response_spec(*self),
    {
        match self {
            AttemptEvent::Replied(usage) => Some(*usage),
            _ => None,
        }
    }
}

/// Whether a failure is met by another try on the same target.
pub open spec fn retried(error: AdapterError, attempt: nat, retries: nat) -> bool {
    error.retryable && attempt < retries
}

/// The delay before another try.
pub open spec fn delay_spec(error: AdapterError, attempt: nat) -> nat {
    match error.retry_after_ms {
        Some(ms) => ms as nat,
        None => model::backoff_spec(attempt) as u64 as nat,
    }
}

/// Why a reply stops the run although it came: its usage is not known, or a
/// budget is exceeded by it.
pub open spec fn reply_fault(
    snapshot: UsageSnapshot,
    limits: RunLimits,
    cost: CostState,
    reported: bool,
) -> Option<Seq<char>> {
    if !reported && (limits.max_tokens is Some || limits.max_cost is Some) {
        Some(usage::UNREPORTED_TEXT@)
    } else {
        usage::exhausted(snapshot, limits, cost, true)
    }
}

/// What to do once an event came.
pub open spec fn action_spec(
    client: ModelClient,
    target: int,
    attempt: nat,
    snapshot: UsageSnapshot,
    limits: RunLimits,
    cost: CostState,
    event: AttemptEvent,
) -> ActionView {
    match event {
        AttemptEvent::Replied(usage) => match reply_fault(snapshot, limits, cost, usage is Some) {
            Some(words) => ActionView::Stop(words),
            None => ActionView::Deliver,
        },
        AttemptEvent::TimedOut => ActionView::Stop(
            "run time budget exhausted while waiting for model `"@ + client.targets@[target].label@
                + "`"@,
        ),
        AttemptEvent::Failed(error) => if retried(error, attempt, client.retries as nat) {
            ActionView::Retry(delay_spec(error, attempt))
        } else if target + 1 < client.targets@.len() {
            ActionView::Fallback
        } else {
            ActionView::GiveUp {
                context: model::chain_failed_spec(labels_spec(client.targets@)),
                source: error.source@,
            }
        },
    }
}

/// Where a completion stands after an event: its target and its retries.
pub open spec fn place_after(
    client: ModelClient,
    target: int,
    attempt: nat,
    event: AttemptEvent,
) -> (int, nat) {
    match event {
        AttemptEvent::Failed(error) => if retried(error, attempt, client.retries as nat) {
            (target, attempt + 1)
        } else if target + 1 < client.targets@.len() {
            (target + 1, 0)
        } else {
            (target, attempt)
        },
        _ => (target, attempt),
    }
}

/// Why a request may not be sent, if it may not: a budget is used up, or the
/// model has no prices under a cost budget, or no time is left.
pub open spec fn before_fault(
    target: ModelTarget,
    snapshot: UsageSnapshot,
    limits: RunLimits,
    cost: CostState,
    elapsed_ms: nat,
) -> Option<Seq<char>> {
    match usage::exhausted(snapshot, limits, cost, false) {
        Some(words) => Some(words),
        None => if limits.max_cost is Some && !target.priced {
            Some(usage::unpriced_text(target.label@))
        } else {
            match limits.max_time_ms {
                Some(limit) => if elapsed_ms < limit {
                    None
                } else {
                    Some(usage::time_exhausted(elapsed_ms, limit as nat))
                },
                None => None,
            }
        },
    }
}

/// The output allowance of a request: what the target has, cut to what is left
/// of a token budget.
pub open spec fn allowance(
    target: ModelTarget,
    snapshot: UsageSnapshot,
    limits: RunLimits,
) -> Option<u32> {
    match limits.max_tokens {
        None => target.max_tokens,
        Some(limit) => {
            let used = usage::tokens_used(snapshot.models);
            let left = if used <= limit {
                limit - used
            } else {
                0
            };
            let wanted = match target.max_tokens {
                Some(n) => n as int,
                None => u32::MAX as int,
            };
            Some(
                (if wanted <= left {
                    wanted
                } else {
                    left
                }) as u32,
            )
        },
    }
}

impl Completion {
    /// A completion that begins.
    pub fn new() -> (r: Completion)
        ensures
            r.target == 0,
            r.attempt == 0,
            r.delivery.cumulative == 0,
            r.delivery.emitted == 0,
    {
        Completion { target: 0, attempt: 0, delivery: Delivery::new() }
    }

    /// Whether the target is one of the chain.
    pub open spec fn wf(self, client: ModelClient) -> bool {
        self.target < client.targets@.len() && self.attempt <= client.retries
    }

    /// Prepare the next request, where the budgets allow one. `elapsed_ms` is
    /// the active time of the run.
    pub fn begin(
        &mut self,
        client: &ModelClient,
        snapshot: &UsageSnapshot,
        limits: &RunLimits,
        cost: &CostState,
        elapsed_ms: u64,
    ) -> (r: Result<Attempt, String>)
        requires
            old(self).wf(*client),
            usage::totals_fit(snapshot.models),
        ensures
            final(self).target == old(self).target,
            final(self).attempt == old(self).attempt,
            final(self).delivery.emitted == old(self).delivery.emitted,
            ({
                let target = client.targets@[old(self).target as int];
                let fault = before_fault(target, *snapshot, *limits, *cost, elapsed_ms as nat);
                match r {
                    Ok(attempt) => {
                        &&& fault is None
                        &&& final(self).delivery.cumulative == 0
                        &&& attempt.max_tokens == allowance(target, *snapshot, *limits)
                        &&& attempt.timeout_ms == (match limits.max_time_ms {
                            Some(limit) => Some((limit - elapsed_ms) as u64),
                            None => None,
                        })
                    },
                    Err(words) => fault == Some(words@),
                }
            }),
    {
        let target = &client.targets[self.target];
        match usage::check_before_request(
            snapshot,
            limits,
            cost,
            target.label.as_str(),
            target.priced,
        ) {
            Ok(()) => {},
            Err(words) => {
                return Err(words);
            },
        }
        let left = usage::remaining_tokens(snapshot, limits);
        let max_tokens = model::clamp_max_tokens(target.max_tokens, left);
        let timeout_ms = match usage::remaining_time(elapsed_ms, limits) {
            Ok(t) => t,
            Err(words) => {
                return Err(words);
            },
        };
        self.delivery.begin_attempt();
        Ok(Attempt { max_tokens, timeout_ms })
    }

    /// Take what came of a request. The ledger already counts it, and so does
    /// the cost.
    pub fn settle(
        &mut self,
        client: &ModelClient,
        snapshot: &UsageSnapshot,
        limits: &RunLimits,
        cost: &CostState,
        event: AttemptEvent,
    ) -> (r: ClientAction)
        requires
            old(self).wf(*client),
            usage::totals_fit(snapshot.models),
        ensures
            final(self).wf(*client),
            r@ == action_spec(
                *client,
                old(self).target as int,
                old(self).attempt as nat,
                *snapshot,
                *limits,
                *cost,
                event,
            ),
            (final(self).target as int, final(self).attempt as nat) == place_after(
                *client,
                old(self).target as int,
                old(self).attempt as nat,
                event,
            ),
            final(self).delivery == old(self).delivery,
    {
        match event {
            AttemptEvent::Replied(reported) => match usage::check_after_response(
                snapshot,
                limits,
                cost,
                reported.is_some(),
            ) {
                Ok(()) => ClientAction::Deliver,
                Err(words) => ClientAction::Stop(words),
            },
            AttemptEvent::TimedOut => ClientAction::Stop(
                text::cat3(
                    "run time budget exhausted while waiting for model `",
                    client.targets[self.target].label.as_str(),
                    "`",
                ),
            ),
            AttemptEvent::Failed(error) => match model::after_failure(
                client.targets.len(),
                client.retries,
                self.target,
                self.attempt,
                error.retryable,
                error.retry_after_ms,
            ) {
                NextAttempt::Retry { delay_ms, attempt } => {
                    self.attempt = attempt;
                    ClientAction::Retry(delay_ms)
                },
                NextAttempt::Fallback { target } => {
                    self.target = target;
                    self.attempt = 0;
                    ClientAction::Fallback
                },
                NextAttempt::GiveUp => {
                    let labels = client.target_labels();
                    ClientAction::GiveUp {
                        context: model::chain_failed(&labels),
                        source: error.source,
                    }
                },
            },
        }
    }
}

/// How many requests went before a place in the chain, at most.
pub open spec fn rank(client: ModelClient, target: int, attempt: nat) -> int {
    target * (client.retries + 1) + attempt
}

/// A completion ends: every request after a failure comes later in a count that
/// each target's tries bound, so that a chain is asked no more often than
/// retries allow on each of its targets.
pub proof fn law_a_completion_ends(
    client: ModelClient,
    target: int,
    attempt: nat,
    snapshot: UsageSnapshot,
    limits: RunLimits,
    cost: CostState,
    event: AttemptEvent,
)
    requires
        0 <= target < client.targets@.len(),
        attempt <= client.retries,
    ensures
        rank(client, target, attempt) < client.targets@.len() * (client.retries + 1),
        ({
            let action = action_spec(client, target, attempt, snapshot, limits, cost, event);
            let (t, a) = place_after(client, target, attempt, event);
            (action is Retry || action is Fallback) ==> rank(client, t, a) > rank(
                client,
                target,
                attempt,
            )
        }),
{
    let per = client.retries + 1;
    let n = client.targets@.len() as int;
    assert(target * per + attempt < n * per) by (nonlinear_arith)
        requires
            target + 1 <= n,
            attempt < per,
            0 <= attempt,
    ;
    assert((target + 1) * per > target * per + attempt) by (nonlinear_arith)
        requires
            attempt < per,
    ;
}

/// A budget that is used up stops every request, whichever target is next.
pub proof fn law_nothing_is_sent_over_budget(
    target: ModelTarget,
    snapshot: UsageSnapshot,
    limits: RunLimits,
    cost: CostState,
    elapsed_ms: nat,
)
    requires
        limits.max_tokens matches Some(limit) && usage::tokens_used(snapshot.models) >= limit,
    ensures
        before_fault(target, snapshot, limits, cost, elapsed_ms) is Some,
{
}

/// An allowance never exceeds what is left of a token budget.
pub proof fn law_allowances_keep_the_budget(
    target: ModelTarget,
    snapshot: UsageSnapshot,
    limits: RunLimits,
)
    requires
        limits.max_tokens is Some,
        usage::tokens_used(snapshot.models) <= limits.max_tokens->0,
    ensures
        allowance(target, snapshot, limits) is Some,
        usage::tokens_used(snapshot.models) + allowance(target, snapshot, limits)->0
            <= limits.max_tokens->0,
{
}

} // verus!

//! What holds of asking models: which ones, how often, and how much.

use vstd::prelude::*;
use vstd::string::*;

use crate::chain;
use crate::client;
use crate::config::Config;
use crate::model;
use crate::model::Usage;
use crate::numbers;
use crate::text;
use crate::usage;
use crate::usage::ModelUsage;

verus! {

/// The pause before a retry is half a second at first, doubles with each
/// attempt, and is never more than ten seconds.
pub proof fn law_pauses_double(attempt: nat)
    ensures
        model::backoff_spec(0) == 500,
        model::backoff_spec(attempt + 1) == if 2 * model::backoff_spec(attempt) < 10_000 {
            2 * model::backoff_spec(attempt)
        } else {
            10_000
        },
{
}

/// What is delivered of a fragment begins at the first character that starts
/// at or behind the place up to which it was delivered before: no place
/// between the two starts a character.
pub proof fn law_delivery_goes_on_at_a_character(bytes: Seq<u8>, at: int, j: int)
    requires
        0 <= at,
    ensures
        ({
            let cut = model::boundary_from(bytes, at);
            &&& cut >= at
            &&& cut < bytes.len() ==> vstd::utf8::is_char_boundary(bytes, cut)
            &&& at <= j < cut ==> j < bytes.len() && !vstd::utf8::is_char_boundary(bytes, j)
        }),
    decreases bytes.len() - at,
{
    if at < bytes.len() && !vstd::utf8::is_char_boundary(bytes, at) {
        law_delivery_goes_on_at_a_character(bytes, at + 1, j);
    }
}

/// What follows an attempt: a reply is delivered unless a budget was used up
/// by it; a failure that may pass is tried again on the same model while
/// retries are left, after the pause that the provider asked for or else the
/// usual one; any other failure moves on to the next model, from its first
/// attempt; and after the last model the failure is returned.
pub proof fn law_failures_are_retried_and_fall_back(
    c: client::ModelClient,
    target: int,
    attempt: nat,
    snapshot: usage::UsageSnapshot,
    limits: usage::RunLimits,
    cost: usage::CostState,
    error: model::AdapterError,
    used: Option<Usage>,
)
    requires
        0 <= target < c.targets@.len(),
        attempt <= c.retries,
    ensures
        ({
            let failed = client::AttemptEvent::Failed(error);
            let action = client::action_spec(c, target, attempt, snapshot, limits, cost, failed);
            let place = client::place_after(c, target, attempt, failed);
            let again = error.retryable && attempt < c.retries;
            &&& again ==> place == (target, attempt + 1) && (action matches
                client::ActionView::Retry(ms) && match error.retry_after_ms {
                Some(asked) => ms == asked,
                None => ms == model::backoff_spec(attempt),
            })
            &&& !again && target < c.targets@.len() - 1 ==> action is Fallback && place == (
                target + 1,
                0nat,
            )
            &&& !again && target == c.targets@.len() - 1 ==> (action matches
                client::ActionView::GiveUp { source, .. } && source == error.source@)
        }),
        ({
            let replied = client::AttemptEvent::Replied(used);
            let action = client::action_spec(c, target, attempt, snapshot, limits, cost, replied);
            let blind = used is None && (limits.max_tokens is Some || limits.max_cost is Some);
            &&& action is Deliver <==> !blind && usage::exhausted(
                snapshot,
                limits,
                cost,
                true,
            ) is None
            &&& action is Deliver || action is Stop
        }),
        client::action_spec(
            c,
            target,
            attempt,
            snapshot,
            limits,
            cost,
            client::AttemptEvent::TimedOut,
        ) is Stop,
{
    model::law_backoff_grows_and_caps(attempt);
}

/// A request is sent exactly where no budget is used up, a price is known
/// where a cost limit asks for one, and time is left.
pub proof fn law_requests_need_a_budget(
    target: client::ModelTarget,
    snapshot: usage::UsageSnapshot,
    limits: usage::RunLimits,
    cost: usage::CostState,
    elapsed_ms: nat,
)
    ensures
        client::before_fault(target, snapshot, limits, cost, elapsed_ms) is None <==> {
            &&& limits.max_tokens matches Some(limit) ==> usage::tokens_used(snapshot.models)
                < limit
            &&& limits.max_cost is Some ==> !cost.reached && target.priced
            &&& limits.max_time_ms matches Some(limit) ==> snapshot.elapsed_ms < limit
                && elapsed_ms < limit
        },
        usage::exhausted(snapshot, limits, cost, true) is None <==> {
            &&& limits.max_tokens matches Some(limit) ==> usage::tokens_used(snapshot.models)
                <= limit
            &&& limits.max_cost is Some ==> !cost.reached
            &&& limits.max_time_ms matches Some(limit) ==> snapshot.elapsed_ms < limit
        },
{
}

/// A model may say as much as it is configured to, and no more than what is
/// left of the tokens.
pub proof fn law_allowances_are_the_smaller_limit(
    target: client::ModelTarget,
    snapshot: usage::UsageSnapshot,
    limits: usage::RunLimits,
)
    ensures
        ({
            let allowed = client::allowance(target, snapshot, limits);
            let used = usage::tokens_used(snapshot.models);
            &&& limits.max_tokens is None ==> allowed == target.max_tokens
            &&& limits.max_tokens matches Some(limit) ==> (allowed matches Some(n) && n <= (
            if used <= limit {
                limit - used
            } else {
                0
            }) && (target.max_tokens matches Some(own) ==> n <= own) && (n == (if used <= limit {
                limit - used
            } else {
                0
            }) || (target.max_tokens matches Some(own) && n == own) || (target.max_tokens is None
                && n == u32::MAX)))
        }),
{
}

/// An attempt counts once, for its model: a failure as a failure, a reply as a
/// request with the tokens that it reported; time adds up, and data that went
/// outside is not forgotten.
pub proof fn law_attempts_are_counted(
    row: usage::RowView,
    adapter: Seq<char>,
    external: bool,
    elapsed_ms: nat,
    reported: Usage,
    priced: bool,
)
    requires
        row.latency_ms + elapsed_ms <= u64::MAX,
        row.prompt_tokens + reported.prompt_tokens <= u64::MAX,
        row.completion_tokens + reported.completion_tokens <= u64::MAX,
    ensures
        ({
            let failed = usage::attempted(row, adapter, external, elapsed_ms, None, priced);
            let silent = usage::attempted(row, adapter, external, elapsed_ms, Some(None), priced);
            let told = usage::attempted(
                row,
                adapter,
                external,
                elapsed_ms,
                Some(Some(reported)),
                priced,
            );
            &&& failed == (usage::RowView {
                adapter,
                external: row.external || external,
                attempts: row.attempts + 1,
                failures: row.failures + 1,
                latency_ms: row.latency_ms + elapsed_ms,
                ..row
            })
            &&& silent == (usage::RowView {
                adapter,
                external: row.external || external,
                attempts: row.attempts + 1,
                requests: row.requests + 1,
                unreported_requests: row.unreported_requests + 1,
                unpriced_requests: row.unpriced_requests + 1,
                latency_ms: row.latency_ms + elapsed_ms,
                ..row
            })
            &&& told == (usage::RowView {
                adapter,
                external: row.external || external,
                attempts: row.attempts + 1,
                requests: row.requests + 1,
                prompt_tokens: (row.prompt_tokens + reported.prompt_tokens) as nat,
                completion_tokens: (row.completion_tokens + reported.completion_tokens) as nat,
                unpriced_requests: row.unpriced_requests + if priced {
                    0nat
                } else {
                    1nat
                },
                latency_ms: row.latency_ms + elapsed_ms,
                ..row
            })
        }),
{
}

/// The total of a column is the sum over the models, and the tokens used are
/// those that went in and those that came out.
pub proof fn law_totals_add_up_the_models(
    rows: Seq<(String, ModelUsage)>,
    row: (String, ModelUsage),
    column: usage::Column,
    snapshot: usage::UsageSnapshot,
)
    ensures
        usage::column_sum(seq![], column) == 0,
        usage::column_sum(rows.push(row), column) == usage::column_sum(rows, column) + match column {
            usage::Column::Attempts => row.1.attempts as nat,
            usage::Column::Failures => row.1.failures as nat,
            usage::Column::Requests => row.1.requests as nat,
            usage::Column::PromptTokens => row.1.prompt_tokens as nat,
            usage::Column::CompletionTokens => row.1.completion_tokens as nat,
            usage::Column::Unreported => row.1.unreported_requests as nat,
            usage::Column::Unpriced => row.1.unpriced_requests as nat,
            usage::Column::Latency => row.1.latency_ms as nat,
        },
        ({
            let all = snapshot.models.entries@;
            let sum = usage::column_sum(all, usage::Column::PromptTokens) + usage::column_sum(
                all,
                usage::Column::CompletionTokens,
            );
            sum <= u64::MAX ==> usage::tokens_used(snapshot.models) == sum
        }),
{
    assert(rows.push(row).drop_last() =~= rows);
    assert(rows.push(row).last() == row);
}

/// A report has a line for each model, one for the total, and one for the
/// budgets where there are any; without attempts it is silent unless there are
/// budgets.
pub proof fn law_reports_have_a_line_for_each_model(
    snapshot: usage::UsageSnapshot,
    limits: usage::RunLimits,
    costs: Seq<Seq<char>>,
    total: Seq<char>,
    i: int,
)
    ensures
        ({
            let rows = snapshot.models.entries@;
            let report = usage::report_spec(snapshot, limits, costs, total);
            let limited = limits.max_tokens is Some || limits.max_cost is Some
                || limits.max_time_ms is Some;
            let tried = usage::column_sum(rows, usage::Column::Attempts) > 0;
            &&& tried ==> report.len() == rows.len() + if limited {
                2nat
            } else {
                1nat
            }
            &&& !tried && limited ==> report.len() == 2
            &&& !tried && !limited ==> report.len() == 0
            &&& tried && 0 <= i < rows.len() ==> report[i].take(rows[i].0@.len() as int)
                == rows[i].0@
        }),
{
    let rows = snapshot.models.entries@;
    let report = usage::report_spec(snapshot, limits, costs, total);
    let tried = usage::column_sum(rows, usage::Column::Attempts) > 0;
    if tried && 0 <= i < rows.len() {
        let label = rows[i].0@;
        let details = text::join_spec(usage::row_details(rows[i].1@, costs[i]), " · "@);
        assert(report[i] == label + ": "@ + details);
        lemma_begins(label, ": "@, details);
    }
}

proof fn lemma_begins(a: Seq<char>, b: Seq<char>, c: Seq<char>)
    ensures
        (a + b + c).take(a.len() as int) == a,
{
    assert((a + b + c).take(a.len() as int) =~= a);
}

/// Durations are told in milliseconds below a second, and in minutes and two
/// digits of seconds from a minute on; small counts of tokens as they are.
pub proof fn law_times_and_counts_are_told_plainly(millis: nat, tokens: nat)
    ensures
        millis < 1_000 ==> model::fmt_duration_spec(millis) == numbers::decimal_spec(millis) + seq![
            'm',
            's',
        ],
        millis >= 60_000 ==> {
            let minutes = numbers::decimal_spec(millis / 60_000);
            let s = model::fmt_duration_spec(millis);
            &&& s.len() == minutes.len() + 4
            &&& s.take(minutes.len() as int) == minutes
            &&& s[minutes.len() as int] == 'm'
            &&& s[(minutes.len() + 1) as int] as nat - '0' as nat == millis / 1_000 % 60 / 10
            &&& s[(minutes.len() + 2) as int] as nat - '0' as nat == millis / 1_000 % 60 % 10
            &&& s.last() == 's'
        },
        tokens < 1_000 ==> model::fmt_tokens_spec(tokens) == numbers::decimal_spec(tokens) + " tok"@,
{
    reveal_strlit("ms");
    reveal_strlit("m");
    reveal_strlit("s");
    assert("ms"@ =~= seq!['m', 's']);
    assert(millis / 1_000 / 60 == millis / 60_000);
    if millis >= 60_000 {
        let minutes = numbers::decimal_spec(millis / 60_000);
        let s = model::fmt_duration_spec(millis);
        assert(s.take(minutes.len() as int) =~= minutes);
    }
}

/// A chain is closed under falling back: every fallback of a model in it is in
/// it too, and every model behind the first is there because an earlier one
/// falls back to it.
pub proof fn law_chains_follow_every_fallback(c: Config, name: Seq<char>)
    requires
        chain::chain_spec(c, seq![name], seq![]) is Ok,
    ensures
        ({
            let all = chain::chain_spec(c, seq![name], seq![])->Ok_0;
            &&& forall|i: int, f: Seq<char>|
                0 <= i < all.len() && text::views(c.models.at(#[trigger] all[i]).fallback@).contains(
                    f,
                ) ==> #[trigger] all.contains(f)
            &&& forall|i: int|
                0 < i < all.len() ==> exists|j: int|
                    0 <= j < i && text::views(c.models.at(#[trigger] all[j]).fallback@).contains(
                        #[trigger] all[i],
                    )
        }),
{
    lemma_chain_closed(c, seq![name], seq![]);
    let all = chain::chain_spec(c, seq![name], seq![])->Ok_0;
    chain::law_chain_starts_with_its_model_and_repeats_none(c, name);
    assert forall|i: int| 0 < i < all.len() implies exists|j: int|
        0 <= j < i && text::views(c.models.at(#[trigger] all[j]).fallback@).contains(
            #[trigger] all[i],
        ) by {
        if seq![name].contains(all[i]) {
            assert(all[0] == all[i]);
            assert(false);
        }
    }
}

proof fn lemma_chain_closed(c: Config, queue: Seq<Seq<char>>, seen: Seq<Seq<char>>)
    requires
        chain::chain_spec(c, queue, seen) is Ok,
    ensures
        ({
            let all = chain::chain_spec(c, queue, seen)->Ok_0;
            &&& seen.len() <= all.len()
            &&& all.take(seen.len() as int) == seen
            &&& forall|f: Seq<char>| queue.contains(f) ==> #[trigger] all.contains(f)
            &&& forall|i: int, f: Seq<char>|
                seen.len() <= i < all.len() && text::views(
                    c.models.at(#[trigger] all[i]).fallback@,
                ).contains(f) ==> #[trigger] all.contains(f)
            &&& forall|i: int|
                #![trigger all[i]]
                seen.len() <= i < all.len() ==> queue.contains(all[i]) || exists|j: int|
                    seen.len() <= j < i && text::views(
                        c.models.at(#[trigger] all[j]).fallback@,
                    ).contains(all[i])
        }),
    decreases chain::models_left(c, seen), queue.len(),
{
    let all = chain::chain_spec(c, queue, seen)->Ok_0;
    if queue.len() == 0 {
        assert(all.take(seen.len() as int) =~= seen);
    } else {
        let name = queue[0];
        let rest = queue.skip(1);
        if seen.contains(name) {
            lemma_chain_closed(c, rest, seen);
            assert forall|f: Seq<char>| queue.contains(f) implies #[trigger] all.contains(f) by {
                if f == name {
                    let k = choose|k: int| 0 <= k < seen.len() && seen[k] == name;
                    assert(all[k] == all.take(seen.len() as int)[k]);
                } else {
                    let k = choose|k: int| 0 <= k < queue.len() && queue[k] == f;
                    assert(rest[k - 1] == f);
                    assert(rest.contains(f));
                }
            }
            assert forall|i: int|
                #![trigger all[i]]
                seen.len() <= i < all.len() implies queue.contains(all[i]) || exists|j: int|
                seen.len() <= j < i && text::views(
                    c.models.at(#[trigger] all[j]).fallback@,
                ).contains(all[i]) by {
                if rest.contains(all[i]) {
                    let k = choose|k: int| 0 <= k < rest.len() && rest[k] == all[i];
                    assert(queue[k + 1] == all[i]);
                }
            }
        } else {
            chain::lemma_visit_known(c, seen, name);
            let own = chain::fallbacks(c, name);
            let more = rest + own;
            let longer = seen.push(name);
            lemma_chain_closed(c, more, longer);
            let n = seen.len() as int;
            assert(all[n] == all.take(n + 1)[n]);
            assert(all[n] == name);
            assert(all.take(n) =~= seen) by {
                assert forall|k: int| 0 <= k < n implies all[k] == seen[k] by {
                    assert(all.take(n + 1)[k] == longer[k]);
                }
            }
            assert forall|f: Seq<char>| queue.contains(f) implies #[trigger] all.contains(f) by {
                if f != name {
                    let k = choose|k: int| 0 <= k < queue.len() && queue[k] == f;
                    assert(more[k - 1] == f);
                    assert(more.contains(f));
                }
            }
            assert forall|i: int, f: Seq<char>|
                n <= i < all.len() && text::views(
                    c.models.at(#[trigger] all[i]).fallback@,
                ).contains(f) implies #[trigger] all.contains(f) by {
                if i == n {
                    let k = choose|k: int| 0 <= k < own.len() && own[k] == f;
                    assert(more[rest.len() + k] == f);
                    assert(more.contains(f));
                }
            }
            assert forall|i: int|
                #![trigger all[i]]
                n <= i < all.len() implies queue.contains(all[i]) || exists|j: int|
                n <= j < i && text::views(c.models.at(#[trigger] all[j]).fallback@).contains(
                    all[i],
                ) by {
                if i == n {
                    assert(queue[0] == all[i]);
                } else if more.contains(all[i]) {
                    let k = choose|k: int| 0 <= k < more.len() && more[k] == all[i];
                    if k < rest.len() {
                        assert(queue[k + 1] == all[i]);
                    } else {
                        assert(own[k - rest.len()] == all[i]);
                        assert(text::views(c.models.at(all[n]).fallback@).contains(all[i]));
                    }
                }
            }
        }
    }
}

/// A chain fails only for a model or a provider that is not configured.
pub proof fn law_chains_name_what_is_missing(c: Config, name: Seq<char>)
    ensures
        !c.models.has_name(name) ==> chain::chain_spec(c, seq![name], seq![]) == Err::<
            Seq<Seq<char>>,
            chain::ChainFault,
        >(chain::ChainFault::UnknownModel(name)),
        c.models.has_name(name) && !c.providers.has_name(c.models.at(name).provider@)
            ==> chain::chain_spec(c, seq![name], seq![]) == Err::<
            Seq<Seq<char>>,
            chain::ChainFault,
        >(chain::ChainFault::UnknownProvider(c.models.at(name).provider@)),
{
}

} // verus!

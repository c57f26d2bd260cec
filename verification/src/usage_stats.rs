//! Token counts per model, over every round-trip of a process.

use vstd::prelude::*;
use vstd::string::*;

use crate::model;
use crate::numbers;
use crate::provider::Usage;
use crate::table::Table;
use crate::text;

verus! {

/// The totals of one model.
#[derive(Debug, Clone, Copy, PartialEq, Eq, Structural)]
pub struct ModelUsage {
    /// Round-trips that succeeded; the retries of one are not counted.
    pub requests: u64,
    pub prompt_tokens: u64,
    pub completion_tokens: u64,
}

/// The totals of each model, under its configured name.
pub struct Totals {
    pub models: Table<ModelUsage>,
}

/// The totals of a model, nothing where it was not used.
pub open spec fn row_of(models: Table<ModelUsage>, label: Seq<char>) -> ModelUsage {
    if models.has_name(label) {
        models.at(label)
    } else {
        ModelUsage { requests: 0, prompt_tokens: 0, completion_tokens: 0 }
    }
}

/// What a round-trip sent.
pub open spec fn sent(usage: Option<Usage>) -> u64 {
    match usage {
        Some(u) => u.prompt_tokens,
        None => 0,
    }
}

/// What a round-trip received.
pub open spec fn received(usage: Option<Usage>) -> u64 {
    match usage {
        Some(u) => u.completion_tokens,
        None => 0,
    }
}

/// Count a round-trip. A server that reports no tokens still counts.
pub fn record(totals: &mut Totals, label: &str, usage: Option<Usage>)
    requires
        old(totals).models.ordered(),
        ({
            let row = row_of(old(totals).models, label@);
            row.requests < u64::MAX && row.prompt_tokens + sent(usage) <= u64::MAX
                && row.completion_tokens + received(usage) <= u64::MAX
        }),
    ensures
        final(totals).models.ordered(),
        final(totals).models.has_name(label@),
        ({
            let row = row_of(old(totals).models, label@);
            final(totals).models.at(label@) == (ModelUsage {
                requests: (row.requests + 1) as u64,
                prompt_tokens: (row.prompt_tokens + sent(usage)) as u64,
                completion_tokens: (row.completion_tokens + received(usage)) as u64,
            })
        }),
        old(totals).models.same_but_for(final(totals).models, label@),
{
    let mut row = match totals.models.get(label) {
        Some(row) => *row,
        None => ModelUsage { requests: 0, prompt_tokens: 0, completion_tokens: 0 },
    };
    row.requests = row.requests + 1;
    match usage {
        Some(u) => {
            row.prompt_tokens = row.prompt_tokens + u.prompt_tokens;
            row.completion_tokens = row.completion_tokens + u.completion_tokens;
        },
        None => {},
    }
    totals.models.insert(label.to_owned(), row);
}

impl Totals {
    /// No round-trip was counted yet.
    pub fn new() -> (r: Totals)
        ensures
            r.models.ordered(),
            r.models.entries@.len() == 0,
    {
        Totals { models: Table::new() }
    }
}

/// The sum of the requests of rows.
pub open spec fn requests_sum(rows: Seq<(String, ModelUsage)>) -> nat
    decreases rows.len(),
{
    if rows.len() == 0 {
        0
    } else {
        requests_sum(rows.drop_last()) + rows.last().1.requests as nat
    }
}

/// The sum of what rows sent.
pub open spec fn sent_sum(rows: Seq<(String, ModelUsage)>) -> nat
    decreases rows.len(),
{
    if rows.len() == 0 {
        0
    } else {
        sent_sum(rows.drop_last()) + rows.last().1.prompt_tokens as nat
    }
}

/// The sum of what rows received.
pub open spec fn received_sum(rows: Seq<(String, ModelUsage)>) -> nat
    decreases rows.len(),
{
    if rows.len() == 0 {
        0
    } else {
        received_sum(rows.drop_last()) + rows.last().1.completion_tokens as nat
    }
}

/// The words for counts.
pub open spec fn describe_spec(requests: nat, prompt: nat, completion: nat) -> Seq<char> {
    numbers::decimal_spec(requests) + " request(s), "@ + model::fmt_tokens_spec(prompt) + " in + "@
        + model::fmt_tokens_spec(completion) + " out"@
}

/// The line of each model.
pub open spec fn model_lines(rows: Seq<(String, ModelUsage)>) -> Seq<Seq<char>> {
    Seq::new(
        rows.len(),
        |i: int|
            rows[i].0@ + ": "@ + describe_spec(
                rows[i].1.requests as nat,
                rows[i].1.prompt_tokens as nat,
                rows[i].1.completion_tokens as nat,
            ),
    )
}

/// The report: a line per model, and a total where there are several.
pub open spec fn report_spec(rows: Seq<(String, ModelUsage)>) -> Seq<Seq<char>> {
    if rows.len() > 1 {
        model_lines(rows).push(
            "total: "@ + describe_spec(requests_sum(rows), sent_sum(rows), received_sum(rows)),
        )
    } else {
        model_lines(rows)
    }
}

fn describe(usage: &ModelUsage) -> (r: String)
    ensures
        r@ == describe_spec(
            usage.requests as nat,
            usage.prompt_tokens as nat,
            usage.completion_tokens as nat,
        ),
{
    let requests = numbers::decimal(usage.requests);
    let prompt = model::fmt_tokens(usage.prompt_tokens);
    let completion = model::fmt_tokens(usage.completion_tokens);
    let mut r = text::cat5(
        requests.as_str(),
        " request(s), ",
        prompt.as_str(),
        " in + ",
        completion.as_str(),
    );
    r.append(" out");
    r
}

proof fn lemma_sums_grow(rows: Seq<(String, ModelUsage)>, n: int)
    requires
        0 <= n <= rows.len(),
    ensures
        requests_sum(rows.take(n)) <= requests_sum(rows),
        sent_sum(rows.take(n)) <= sent_sum(rows),
        received_sum(rows.take(n)) <= received_sum(rows),
    decreases rows.len() - n,
{
    if n == rows.len() {
        assert(rows.take(n) =~= rows);
    } else {
        assert(rows.take(n + 1).drop_last() =~= rows.take(n));
        lemma_sums_grow(rows, n + 1);
    }
}

/// The report: a line per model in the order of the names, and a total where
/// there are several. It is empty where no round-trip was counted.
pub fn report_lines(totals: &Totals) -> (r: Vec<String>)
    requires
        requests_sum(totals.models.entries@) <= u64::MAX,
        sent_sum(totals.models.entries@) <= u64::MAX,
        received_sum(totals.models.entries@) <= u64::MAX,
    ensures
        text::views(r@) == report_spec(totals.models.entries@),
{
    let rows = &totals.models.entries;
    let ghost all = rows@;
    let mut lines: Vec<String> = Vec::new();
    let mut sum = ModelUsage { requests: 0, prompt_tokens: 0, completion_tokens: 0 };
    let mut i: usize = 0;
    assert(text::views(lines@) =~= model_lines(all).take(0));
    while i < rows.len()
        invariant
            i <= rows@.len(),
            all == rows@,
            requests_sum(all) <= u64::MAX,
            sent_sum(all) <= u64::MAX,
            received_sum(all) <= u64::MAX,
            sum.requests == requests_sum(all.take(i as int)),
            sum.prompt_tokens == sent_sum(all.take(i as int)),
            sum.completion_tokens == received_sum(all.take(i as int)),
            text::views(lines@) == model_lines(all).take(i as int),
        decreases rows@.len() - i,
    {
        proof {
            assert(all.take(i + 1).drop_last() =~= all.take(i as int));
            lemma_sums_grow(all, i + 1);
        }
        let usage = &rows[i].1;
        sum.requests = sum.requests + usage.requests;
        sum.prompt_tokens = sum.prompt_tokens + usage.prompt_tokens;
        sum.completion_tokens = sum.completion_tokens + usage.completion_tokens;
        let described = describe(usage);
        text::add_text(&mut lines, text::cat3(rows[i].0.as_str(), ": ", described.as_str()));
        assert(model_lines(all).take(i as int).push(model_lines(all)[i as int]) =~= model_lines(
            all,
        ).take(i + 1));
        i = i + 1;
    }
    assert(all.take(all.len() as int) =~= all);
    assert(model_lines(all).take(all.len() as int) =~= model_lines(all));
    if rows.len() > 1 {
        let described = describe(&sum);
        text::add_text(&mut lines, text::cat2("total: ", described.as_str()));
    }
    lines
}

} // verus!

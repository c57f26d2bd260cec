//! What holds of logs whose tool results came in another order.

use vstd::prelude::*;

use crate::agent_loop;
use crate::loop_laws;
use crate::model;

verus! {

// ---------------------------------------------------------------------------
// Reordered logs
// ---------------------------------------------------------------------------

/// Whether an event belongs to a tool round: an intent or a result.
pub open spec fn in_round(e: agent_loop::EventView) -> bool {
    e is ToolStarted || e is ToolResult
}

/// Whether the events from one place up to another belong to one tool round.
pub open spec fn one_round(events: Seq<agent_loop::EventView>, from: int, to: int) -> bool {
    forall|m: int| from <= m < to ==> in_round(#[trigger] events[m])
}

/// Whether a log is another one with its results reordered: at each place
/// `i` it holds what the other holds at `order[i]`, only results have moved,
/// and none has left its round.
pub open spec fn reordered(
    a: Seq<agent_loop::EventView>,
    b: Seq<agent_loop::EventView>,
    order: Seq<int>,
) -> bool {
    &&& a.len() == b.len()
    &&& a.len() == order.len()
    &&& order.no_duplicates()
    &&& forall|i: int|
        0 <= i < a.len() ==> 0 <= #[trigger] order[i] < a.len() && b[i] == a[order[i]]
    &&& forall|i: int| 0 <= i < a.len() && !(a[i] is ToolResult) ==> #[trigger] order[i] == i
    &&& forall|i: int|
        0 <= i < a.len() ==> one_round(a, i, #[trigger] order[i]) && one_round(a, order[i], i)
}

/// What a log has come to before its event at a place.
pub open spec fn state_at(events: Seq<agent_loop::EventView>, i: int) -> agent_loop::LoopView {
    agent_loop::run_log(events.take(i))->Ok_0
}

/// Each result that a round got before a place is the one recorded.
spec fn recorded(
    events: Seq<agent_loop::EventView>,
    i: int,
    results: Seq<Option<Seq<char>>>,
) -> bool {
    forall|j: int|
        0 <= j < i && one_round(events, j, i) ==> (#[trigger] events[j] matches
            agent_loop::EventView::ToolResult { call_index, content } ==> call_index
            < results.len() && results[call_index as int] == Some(content))
}

/// Each recorded result is one that the round got before a place.
spec fn traced(
    events: Seq<agent_loop::EventView>,
    i: int,
    results: Seq<Option<Seq<char>>>,
) -> bool {
    forall|k: int|
        0 <= k < results.len() && #[trigger] results[k] is Some ==> exists|j: int|
            0 <= j < i && one_round(events, j, i) && #[trigger] events[j]
                == (agent_loop::EventView::ToolResult {
                call_index: k as nat,
                content: results[k]->0,
            })
}

/// How many calls have their result.
spec fn filled(results: Seq<Option<Seq<char>>>) -> nat
    decreases results.len(),
{
    if results.len() == 0 {
        0
    } else {
        filled(results.drop_last()) + (if results.last() is Some {
            1nat
        } else {
            0nat
        })
    }
}

proof fn lemma_filled_one_more(results: Seq<Option<Seq<char>>>, k: int, content: Seq<char>)
    requires
        0 <= k < results.len(),
        results[k] is None,
    ensures
        filled(results.update(k, Some(content))) == filled(results) + 1,
    decreases results.len(),
{
    let after = results.update(k, Some(content));
    if k == results.len() - 1 {
        assert(after.drop_last() =~= results.drop_last());
    } else {
        lemma_filled_one_more(results.drop_last(), k, content);
        assert(after.drop_last() =~= results.drop_last().update(k, Some(content)));
    }
}

proof fn lemma_filled_whole(results: Seq<Option<Seq<char>>>)
    ensures
        filled(results) <= results.len(),
        filled(results) == results.len() <==> (forall|i: int|
            0 <= i < results.len() ==> #[trigger] results[i] is Some),
    decreases results.len(),
{
    if results.len() > 0 {
        let shorter = results.drop_last();
        lemma_filled_whole(shorter);
        if filled(results) == results.len() {
            assert forall|i: int| 0 <= i < results.len() implies #[trigger] results[i] is Some by {
                if i < shorter.len() {
                    assert(shorter[i] is Some);
                }
            }
        }
        if forall|i: int| 0 <= i < results.len() ==> #[trigger] results[i] is Some {
            assert forall|i: int| 0 <= i < shorter.len() implies #[trigger] shorter[i] is Some by {
                assert(results[i] is Some);
            }
            assert(results[results.len() - 1] is Some);
        }
    }
}

/// Of two records the one may hold more than the other, and holds the same
/// where it does not hold more.
proof fn lemma_filled_part(more: Seq<Option<Seq<char>>>, less: Seq<Option<Seq<char>>>)
    requires
        more.len() == less.len(),
        forall|k: int|
            0 <= k < less.len() && #[trigger] less[k] is Some ==> more[k] == less[k],
    ensures
        filled(less) <= filled(more),
        filled(less) == filled(more) ==> less == more,
    decreases less.len(),
{
    if less.len() > 0 {
        let x = more.drop_last();
        let y = less.drop_last();
        assert forall|k: int| 0 <= k < y.len() && #[trigger] y[k] is Some implies x[k] == y[k] by {
            assert(less[k] is Some);
        }
        lemma_filled_part(x, y);
        assert(less[less.len() - 1] is Some ==> more.last() == less.last());
        if filled(less) == filled(more) {
            assert(less =~= y.push(less.last()));
            assert(more =~= x.push(more.last()));
        }
    } else {
        assert(less =~= more);
    }
}

// ---------------------------------------------------------------------------
// One log
// ---------------------------------------------------------------------------

proof fn lemma_log_step(events: Seq<agent_loop::EventView>, i: int)
    requires
        agent_loop::run_log(events) is Ok,
        0 <= i < events.len(),
    ensures
        agent_loop::run_log(events.take(i)) is Ok,
        agent_loop::run_log(events.take(i + 1)) is Ok,
        agent_loop::run_log(events.take(i + 1)) == agent_loop::step(
            state_at(events, i),
            i as nat,
            events[i],
        ),
{
    loop_laws::law_prefixes_replay(events, i);
    loop_laws::law_prefixes_replay(events, i + 1);
    assert(events.take(i + 1).drop_last() =~= events.take(i));
}

proof fn lemma_recorded(events: Seq<agent_loop::EventView>, i: int)
    requires
        agent_loop::run_log(events) is Ok,
        0 <= i <= events.len(),
    ensures
        agent_loop::run_log(events.take(i)) is Ok,
        state_at(events, i).well_formed(),
        state_at(events, i).finished is None ==> (state_at(events, i).pending matches Some(
            round,
        ) ==> recorded(events, i, round.results)),
    decreases i,
{
    if i == 0 {
        assert(events.take(0) =~= seq![]);
    } else {
        lemma_recorded(events, i - 1);
        lemma_log_step(events, i - 1);
        let before = state_at(events, i - 1);
        let after = state_at(events, i);
        let event = events[i - 1];
        if after.finished is None && after.pending is Some {
            let round = after.pending->0;
            assert forall|j: int|
                0 <= j < i && one_round(events, j, i) && #[trigger] events[j] is ToolResult implies (
            events[j] matches agent_loop::EventView::ToolResult { call_index, content }
                && call_index < round.results.len() && round.results[call_index as int] == Some(
                content,
            )) by {
                assert(in_round(events[i - 1]));
                let earlier = before.pending->0;
                if j < i - 1 {
                    assert(one_round(events, j, i - 1)) by {
                        assert forall|m: int| j <= m < i - 1 implies in_round(
                            #[trigger] events[m],
                        ) by {}
                    }
                    assert(recorded(events, i - 1, earlier.results));
                }
            }
        }
    }
}

/// The calls of a round and the conversation before it stay the same while
/// the round lasts.
proof fn lemma_same_calls(events: Seq<agent_loop::EventView>, i: int, j: int)
    requires
        agent_loop::run_log(events) is Ok,
        0 <= i <= j <= events.len(),
        one_round(events, i, j),
        state_at(events, j).pending is Some,
    ensures
        state_at(events, i).pending is Some,
        state_at(events, i).pending->0.calls == state_at(events, j).pending->0.calls,
        state_at(events, i).messages == state_at(events, j).messages,
    decreases j - i,
{
    if i < j {
        assert(in_round(events[j - 1]));
        lemma_log_step(events, j - 1);
        assert(one_round(events, i, j - 1)) by {
            assert forall|m: int| i <= m < j - 1 implies in_round(#[trigger] events[m]) by {}
        }
        lemma_same_calls(events, i, j - 1);
    }
}

/// Where a log has a result, its round waits for it.
proof fn lemma_result_awaited(events: Seq<agent_loop::EventView>, j: int)
    requires
        agent_loop::run_log(events) is Ok,
        0 <= j < events.len(),
        events[j] is ToolResult,
    ensures
        state_at(events, j).finished is None,
        state_at(events, j).pending is Some,
        events[j]->ToolResult_call_index < state_at(events, j).pending->0.calls.len(),
        state_at(events, j).pending->0.results[events[j]->ToolResult_call_index as int] is None,
        state_at(events, j).well_formed(),
{
    lemma_log_step(events, j);
    lemma_recorded(events, j);
}

/// A round gets one result for a call.
proof fn lemma_one_result(events: Seq<agent_loop::EventView>, i: int, j: int)
    requires
        agent_loop::run_log(events) is Ok,
        0 <= i < j < events.len(),
        one_round(events, i, j),
        events[i] is ToolResult,
        events[j] is ToolResult,
    ensures
        events[i]->ToolResult_call_index != events[j]->ToolResult_call_index,
{
    lemma_result_awaited(events, j);
    lemma_recorded(events, j);
}

// ---------------------------------------------------------------------------
// Two logs
// ---------------------------------------------------------------------------

/// Whether no round goes on at a place.
spec fn between_rounds(events: Seq<agent_loop::EventView>, i: int) -> bool {
    i == events.len() || !in_round(events[i])
}

/// Whether two states differ in nothing but which results a round has got.
spec fn alike(s: agent_loop::LoopView, t: agent_loop::LoopView) -> bool {
    &&& s.pending is Some == t.pending is Some
    &&& t == (agent_loop::LoopView { pending: t.pending, ..s })
    &&& s.pending matches Some(x) ==> (t.pending matches Some(y) && y
        == (agent_loop::RoundView { results: y.results, ..x }) && y.results.len()
        == x.results.len() && filled(x.results) == filled(y.results))
}

proof fn lemma_places_agree(
    a: Seq<agent_loop::EventView>,
    b: Seq<agent_loop::EventView>,
    order: Seq<int>,
)
    requires
        reordered(a, b, order),
    ensures
        forall|i: int|
            #![trigger a[i]]
            #![trigger b[i]]
            0 <= i < a.len() ==> a[i] == b[i] || (a[i] is ToolResult && b[i] is ToolResult),
{
    assert forall|i: int|
        #![trigger a[i]]
        #![trigger b[i]]
        0 <= i < a.len() implies a[i] == b[i] || (a[i] is ToolResult && b[i] is ToolResult) by {
        let h = order[i];
        assert(b[i] == a[h]);
        if !(a[h] is ToolResult) {
            assert(order[h] == h);
            assert(i == h);
        }
    }
}

proof fn lemma_rounds_agree(
    a: Seq<agent_loop::EventView>,
    b: Seq<agent_loop::EventView>,
    order: Seq<int>,
    from: int,
    to: int,
)
    requires
        reordered(a, b, order),
        0 <= from,
        to <= a.len(),
        one_round(b, from, to),
    ensures
        one_round(a, from, to),
{
    lemma_places_agree(a, b, order);
    assert forall|m: int| from <= m < to implies in_round(#[trigger] a[m]) by {
        assert(in_round(b[m]));
    }
}

proof fn lemma_same_results(
    a: Seq<agent_loop::EventView>,
    b: Seq<agent_loop::EventView>,
    order: Seq<int>,
    i: int,
    x: Seq<Option<Seq<char>>>,
    y: Seq<Option<Seq<char>>>,
)
    requires
        reordered(a, b, order),
        0 <= i <= a.len(),
        between_rounds(a, i),
        recorded(a, i, x),
        traced(b, i, y),
        x.len() == y.len(),
        filled(x) == filled(y),
    ensures
        x == y,
{
    assert forall|k: int| 0 <= k < y.len() && #[trigger] y[k] is Some implies x[k] == y[k] by {
        let result = agent_loop::EventView::ToolResult { call_index: k as nat, content: y[k]->0 };
        let j = choose|j: int| 0 <= j < i && one_round(b, j, i) && #[trigger] b[j] == result;
        let h = order[j];
        assert(a[h] == result);
        lemma_rounds_agree(a, b, order, j, i);
        assert(one_round(a, j, h) && one_round(a, h, j));
        if h >= i {
            assert(in_round(a[i]));
        }
        assert(one_round(a, h, i)) by {
            assert forall|m: int| h <= m < i implies in_round(#[trigger] a[m]) by {}
        }
    }
    lemma_filled_part(x, y);
}

/// A result in the reordered log is one that its round waits for.
proof fn lemma_moved_result_awaited(
    a: Seq<agent_loop::EventView>,
    b: Seq<agent_loop::EventView>,
    order: Seq<int>,
    i: int,
    y: Seq<Option<Seq<char>>>,
)
    requires
        reordered(a, b, order),
        agent_loop::run_log(a) is Ok,
        0 <= i < a.len(),
        a[i] is ToolResult,
        b[i] is ToolResult,
        traced(b, i, y),
        y.len() == state_at(a, i).pending->0.calls.len(),
    ensures
        b[i]->ToolResult_call_index < y.len(),
        y[b[i]->ToolResult_call_index as int] is None,
{
    let h = order[i];
    let k = b[i]->ToolResult_call_index;
    assert(b[i] == a[h]);
    assert(one_round(a, i, h) && one_round(a, h, i));
    lemma_result_awaited(a, i);
    lemma_result_awaited(a, h);
    if i <= h {
        lemma_same_calls(a, i, h);
    } else {
        lemma_same_calls(a, h, i);
    }
    if y[k as int] is Some {
        let result = agent_loop::EventView::ToolResult {
            call_index: k,
            content: y[k as int]->0,
        };
        let j = choose|j: int| 0 <= j < i && one_round(b, j, i) && #[trigger] b[j] == result;
        let g = order[j];
        assert(a[g] == result);
        lemma_rounds_agree(a, b, order, j, i);
        assert(one_round(a, j, g) && one_round(a, g, j));
        let (low, high) = if g < h {
            (g, h)
        } else {
            (h, g)
        };
        assert(one_round(a, low, high)) by {
            assert forall|m: int| low <= m < high implies in_round(#[trigger] a[m]) by {}
        }
        lemma_one_result(a, low, high);
    }
}

proof fn lemma_traced_further(
    events: Seq<agent_loop::EventView>,
    i: int,
    results: Seq<Option<Seq<char>>>,
)
    requires
        0 <= i < events.len(),
        in_round(events[i]),
        traced(events, i, results),
    ensures
        traced(events, i + 1, results),
{
    assert forall|k: int| 0 <= k < results.len() && #[trigger] results[k] is Some implies exists|
        j: int,
    |
        0 <= j < i + 1 && one_round(events, j, i + 1) && #[trigger] events[j]
            == (agent_loop::EventView::ToolResult {
            call_index: k as nat,
            content: results[k]->0,
        }) by {
        let result = agent_loop::EventView::ToolResult {
            call_index: k as nat,
            content: results[k]->0,
        };
        let j = choose|j: int|
            0 <= j < i && one_round(events, j, i) && #[trigger] events[j] == result;
        assert(one_round(events, j, i + 1)) by {
            assert forall|m: int| j <= m < i + 1 implies in_round(#[trigger] events[m]) by {}
        }
    }
}

proof fn lemma_traced_one_more(
    events: Seq<agent_loop::EventView>,
    i: int,
    results: Seq<Option<Seq<char>>>,
    k: nat,
    content: Seq<char>,
)
    requires
        0 <= i < events.len(),
        events[i] == (agent_loop::EventView::ToolResult { call_index: k, content }),
        k < results.len(),
        traced(events, i, results),
    ensures
        traced(events, i + 1, results.update(k as int, Some(content))),
{
    lemma_traced_further(events, i, results);
    let after = results.update(k as int, Some(content));
    assert forall|n: int| 0 <= n < after.len() && #[trigger] after[n] is Some implies exists|
        j: int,
    |
        0 <= j < i + 1 && one_round(events, j, i + 1) && #[trigger] events[j]
            == (agent_loop::EventView::ToolResult {
            call_index: n as nat,
            content: after[n]->0,
        }) by {
        if n == k {
            assert(one_round(events, i, i + 1));
            assert(events[i] == (agent_loop::EventView::ToolResult {
                call_index: n as nat,
                content: after[n]->0,
            }));
        } else {
            assert(results[n] is Some);
        }
    }
}

proof fn lemma_recorded_one_more(
    events: Seq<agent_loop::EventView>,
    i: int,
    results: Seq<Option<Seq<char>>>,
    k: nat,
    content: Seq<char>,
)
    requires
        0 <= i < events.len(),
        events[i] == (agent_loop::EventView::ToolResult { call_index: k, content }),
        k < results.len(),
        results[k as int] is None,
        recorded(events, i, results),
    ensures
        recorded(events, i + 1, results.update(k as int, Some(content))),
{
    let after = results.update(k as int, Some(content));
    assert forall|j: int|
        0 <= j < i + 1 && one_round(events, j, i + 1) && #[trigger] events[j] is ToolResult implies (
    events[j] matches agent_loop::EventView::ToolResult { call_index, content }
        && call_index < after.len() && after[call_index as int] == Some(content)) by {
        if j < i {
            assert(one_round(events, j, i)) by {
                assert forall|m: int| j <= m < i implies in_round(#[trigger] events[m]) by {}
            }
        }
    }
}

/// Two logs replay together over a result.
proof fn lemma_together_over_result(
    a: Seq<agent_loop::EventView>,
    b: Seq<agent_loop::EventView>,
    order: Seq<int>,
    p: int,
)
    requires
        reordered(a, b, order),
        agent_loop::run_log(a) is Ok,
        0 <= p < a.len(),
        a[p] is ToolResult,
        agent_loop::run_log(b.take(p)) is Ok,
        alike(state_at(a, p), state_at(b, p)),
        state_at(b, p).pending matches Some(round) ==> traced(b, p, round.results),
    ensures
        agent_loop::run_log(b.take(p + 1)) is Ok,
        alike(state_at(a, p + 1), state_at(b, p + 1)),
        state_at(b, p + 1).pending matches Some(round) ==> traced(b, p + 1, round.results),
        between_rounds(a, p + 1) ==> state_at(a, p + 1) == state_at(b, p + 1),
{
    let s = state_at(a, p);
    let t = state_at(b, p);
    lemma_log_step(a, p);
    lemma_recorded(a, p);
    lemma_result_awaited(a, p);
    lemma_places_agree(a, b, order);
    assert(b[p] is ToolResult);
    assert(b.take(p + 1).drop_last() =~= b.take(p));
    let x = s.pending->0;
    let y = t.pending->0;
    lemma_moved_result_awaited(a, b, order, p, y.results);
    let i = a[p]->ToolResult_call_index;
    let j = b[p]->ToolResult_call_index;
    let c = a[p]->ToolResult_content;
    let d = b[p]->ToolResult_content;
    let xs = x.results.update(i as int, Some(c));
    let ys = y.results.update(j as int, Some(d));
    lemma_filled_one_more(x.results, i as int, c);
    lemma_filled_one_more(y.results, j as int, d);
    lemma_recorded_one_more(a, p, x.results, i, c);
    lemma_traced_one_more(b, p, y.results, j, d);
    lemma_filled_whole(xs);
    lemma_filled_whole(ys);
    let filled_x = agent_loop::RoundView { results: xs, ..x };
    let filled_y = agent_loop::RoundView { results: ys, ..y };
    assert(filled_x.complete() == filled_y.complete());
    if filled_x.complete() && p + 1 < a.len() {
        lemma_log_step(a, p + 1);
        assert(state_at(a, p + 1).pending is None);
    }
    if between_rounds(a, p + 1) {
        lemma_same_results(a, b, order, p + 1, xs, ys);
    }
}

/// Two logs replay together, and are at one where no round goes on.
proof fn lemma_together(
    a: Seq<agent_loop::EventView>,
    b: Seq<agent_loop::EventView>,
    order: Seq<int>,
    i: int,
)
    requires
        reordered(a, b, order),
        agent_loop::run_log(a) is Ok,
        0 <= i <= a.len(),
    ensures
        agent_loop::run_log(a.take(i)) is Ok,
        agent_loop::run_log(b.take(i)) is Ok,
        alike(state_at(a, i), state_at(b, i)),
        state_at(b, i).finished is None ==> (state_at(b, i).pending matches Some(round)
            ==> traced(b, i, round.results)),
        between_rounds(a, i) ==> state_at(a, i) == state_at(b, i),
    decreases i,
{
    if i == 0 {
        assert(a.take(0) =~= seq![]);
        assert(b.take(0) =~= seq![]);
    } else {
        let p = i - 1;
        lemma_together(a, b, order, p);
        lemma_log_step(a, p);
        lemma_recorded(a, p);
        lemma_places_agree(a, b, order);
        assert(b.take(i).drop_last() =~= b.take(p));
        let s = state_at(a, p);
        let t = state_at(b, p);
        if a[p] is ToolResult {
            lemma_result_awaited(a, p);
            lemma_together_over_result(a, b, order, p);
        } else if a[p] is ToolStarted {
            let x = s.pending->0;
            let y = t.pending->0;
            lemma_traced_further(b, p, y.results);
            if between_rounds(a, i) {
                lemma_same_results(a, b, order, i, x.results, y.results);
            }
        } else {
            assert(s == t);
            assert(a[p] == b[p]);
        }
    }
}

/// The order in which the results of a round are logged is immaterial: a log
/// that differs in nothing else replays to the same state, the same
/// conversation, the same results of a round that is not complete, the same
/// end, turns and usage among them.
pub proof fn law_result_order_is_immaterial(
    a: Seq<agent_loop::EventView>,
    b: Seq<agent_loop::EventView>,
    order: Seq<int>,
)
    requires
        reordered(a, b, order),
        agent_loop::run_log(a) is Ok,
    ensures
        agent_loop::run_log(b) == agent_loop::run_log(a),
        agent_loop::replay_spec(b) == agent_loop::replay_spec(a),
        loop_laws::salvage_spec(b) == loop_laws::salvage_spec(a),
{
    let n = a.len() as int;
    lemma_together(a, b, order, n);
    assert(a.take(n) =~= a);
    assert(b.take(n) =~= b);
}

/// Whether a result for a call was logged between two places.
pub open spec fn result_logged(
    events: Seq<agent_loop::EventView>,
    from: int,
    to: int,
    call_index: nat,
    content: Seq<char>,
) -> bool {
    exists|j: int|
        from <= j < to && #[trigger] events[j] == (agent_loop::EventView::ToolResult {
            call_index,
            content,
        })
}

/// Once a turn's round is complete, the conversation goes on with one message
/// for each of the turn's calls, in the order of the calls, and each holds
/// the result that was logged for its call, wherever in the round that was.
pub proof fn law_results_stand_in_call_order(
    events: Seq<agent_loop::EventView>,
    turn: int,
    end: int,
)
    requires
        agent_loop::run_log(events) is Ok,
        0 <= turn < end <= events.len(),
        events[turn] is Assistant,
        one_round(events, turn + 1, end),
        state_at(events, end).pending is None,
    ensures
        ({
            let calls = events[turn]->Assistant_tool_calls;
            let before = state_at(events, turn + 1).messages;
            let after = state_at(events, end).messages;
            &&& after.len() == before.len() + calls.len()
            &&& after.take(before.len() as int) == before
            &&& forall|k: int|
                0 <= k < calls.len() ==> (after[before.len() + k] matches
                    model::MessageView::Tool { content, tool_call_id } && tool_call_id == (
                #[trigger] calls[k]).id && result_logged(events, turn + 1, end, k as nat, content))
        }),
{
    lemma_log_step(events, turn);
    lemma_recorded(events, turn);
    let calls = events[turn]->Assistant_tool_calls;
    let opened = state_at(events, turn + 1);
    let before = opened.messages;
    let after = state_at(events, end).messages;
    assert(opened.pending == Some(agent_loop::RoundView::fresh(calls)));
    let last = end - 1;
    assert(end > turn + 1);
    lemma_log_step(events, last);
    assert(in_round(events[last]));
    lemma_recorded(events, last);
    let round = state_at(events, last).pending->0;
    assert(one_round(events, turn + 1, last)) by {
        assert forall|m: int| turn + 1 <= m < last implies in_round(#[trigger] events[m]) by {}
    }
    lemma_same_calls(events, turn + 1, last);
    let same = Seq::new(events.len(), |i: int| i);
    assert(reordered(events, events, same));
    lemma_together(events, events, same, last);
    let i = events[last]->ToolResult_call_index;
    let c = events[last]->ToolResult_content;
    let full = round.results.update(i as int, Some(c));
    lemma_traced_one_more(events, last, round.results, i, c);
    assert(after == before + (agent_loop::RoundView { results: full, ..round }).answers());
    assert(after.take(before.len() as int) =~= before);
    assert forall|k: int| 0 <= k < calls.len() implies (after[before.len() + k] matches
        model::MessageView::Tool { content, tool_call_id } && tool_call_id == (
    #[trigger] calls[k]).id && result_logged(events, turn + 1, end, k as nat, content)) by {
        assert(full[k] is Some);
        let result = agent_loop::EventView::ToolResult {
            call_index: k as nat,
            content: full[k]->0,
        };
        let j = choose|j: int|
            0 <= j < end && one_round(events, j, end) && #[trigger] events[j] == result;
        if j <= turn {
            assert(in_round(events[turn]));
        }
    }
}

} // verus!

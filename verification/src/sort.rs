//! Sorting texts.

use vstd::prelude::*;

use crate::table;
use crate::text;

verus! {

/// `x` put into an ascending list, behind what does not stand after it.
pub open spec fn insert_spec(s: Seq<Seq<char>>, x: Seq<char>) -> Seq<Seq<char>>
    decreases s.len(),
{
    if s.len() == 0 {
        seq![x]
    } else if table::before(x, s.last()) {
        insert_spec(s.drop_last(), x).push(s.last())
    } else {
        s.push(x)
    }
}

/// The texts in ascending order.
pub open spec fn sorted_spec(s: Seq<Seq<char>>) -> Seq<Seq<char>>
    decreases s.len(),
{
    if s.len() == 0 {
        s
    } else {
        insert_spec(sorted_spec(s.drop_last()), s.last())
    }
}

/// Whether no text stands before an earlier one.
pub open spec fn ascending(s: Seq<Seq<char>>) -> bool {
    forall|i: int, j: int| 0 <= i < j < s.len() ==> !table::before(#[trigger] s[j], #[trigger] s[i])
}

proof fn lemma_insert(s: Seq<Seq<char>>, x: Seq<char>)
    requires
        ascending(s),
    ensures
        ascending(insert_spec(s, x)),
        insert_spec(s, x).to_multiset() == s.to_multiset().insert(x),
        insert_spec(s, x).len() == s.len() + 1,
        forall|i: int|
            0 <= i < insert_spec(s, x).len() ==> #[trigger] insert_spec(s, x)[i] == x || s.contains(
                insert_spec(s, x)[i],
            ),
    decreases s.len(),
{
    broadcast use vstd::seq_lib::group_to_multiset_ensures;

    if s.len() == 0 {
        assert(s =~= seq![]);
        assert(seq![x] =~= Seq::<Seq<char>>::empty().push(x));
    } else if table::before(x, s.last()) {
        let head = s.drop_last();
        lemma_insert(head, x);
        let inner = insert_spec(head, x);
        let out = inner.push(s.last());
        assert(s =~= head.push(s.last()));
        assert forall|i: int, j: int| 0 <= i < j < out.len() implies !table::before(
            #[trigger] out[j],
            #[trigger] out[i],
        ) by {
            if j == out.len() - 1 {
                assert(out[i] == inner[i]);
                if inner[i] == x {
                    if table::before(s.last(), x) {
                        table::lemma_before_transitive(x, s.last(), x);
                        table::lemma_before_irreflexive(x);
                    }
                } else {
                    let k = choose|k: int| 0 <= k < head.len() && head[k] == inner[i];
                    assert(s[k] == inner[i]);
                    assert(!table::before(s[s.len() - 1], s[k]));
                }
            } else {
                assert(out[i] == inner[i] && out[j] == inner[j]);
            }
        }
        assert forall|i: int| 0 <= i < out.len() implies #[trigger] out[i] == x || s.contains(
            out[i],
        ) by {
            if i < inner.len() {
                if inner[i] != x {
                    let k = choose|k: int| 0 <= k < head.len() && head[k] == inner[i];
                    assert(s[k] == out[i]);
                }
            } else {
                assert(out[i] == s[s.len() - 1]);
            }
        }
    } else {
        let out = s.push(x);
        assert forall|i: int, j: int| 0 <= i < j < out.len() implies !table::before(
            #[trigger] out[j],
            #[trigger] out[i],
        ) by {
            if j == out.len() - 1 {
                if table::before(x, s[i]) && i < s.len() - 1 {
                    table::lemma_before_total(s[i], s.last());
                    if table::before(s[i], s.last()) {
                        table::lemma_before_transitive(x, s[i], s.last());
                    } else if table::before(s.last(), s[i]) {
                        assert(!table::before(s[s.len() - 1], s[i]));
                    }
                }
            }
        }
        assert forall|i: int| 0 <= i < out.len() implies #[trigger] out[i] == x || s.contains(
            out[i],
        ) by {
            if i < s.len() {
                assert(s[i] == out[i]);
            }
        }
    }
}

/// Sorting keeps every text as often as it stood, and puts them in ascending
/// order.
pub proof fn law_sorting_orders_and_keeps(s: Seq<Seq<char>>)
    ensures
        ascending(sorted_spec(s)),
        sorted_spec(s).to_multiset() == s.to_multiset(),
        sorted_spec(s).len() == s.len(),
    decreases s.len(),
{
    broadcast use vstd::seq_lib::group_to_multiset_ensures;

    if s.len() > 0 {
        law_sorting_orders_and_keeps(s.drop_last());
        lemma_insert(sorted_spec(s.drop_last()), s.last());
        assert(s =~= s.drop_last().push(s.last()));
    }
}

fn insert_text(list: Vec<String>, item: String) -> (out: Vec<String>)
    ensures
        text::views(out@) == insert_spec(text::views(list@), item@),
{
    // The place is found from the end, then the tail is put back.
    let ghost all = text::views(list@);
    let ghost x = item@;
    let mut at: usize = list.len();
    assert(all.take(at as int) =~= all);
    assert(insert_spec(all, x) + all.skip(at as int) =~= insert_spec(all, x));
    while at > 0 && table::is_before(item.as_str(), list[at - 1].as_str())
        invariant
            at <= list@.len(),
            all == text::views(list@),
            x == item@,
            insert_spec(all, x) == insert_spec(all.take(at as int), x) + all.skip(at as int),
        decreases at,
    {
        let ghost upto = all.take(at as int);
        assert(upto.drop_last() =~= all.take(at - 1));
        assert(upto.last() == list@[at - 1]@);
        assert(insert_spec(all.take(at - 1), x).push(upto.last()) + all.skip(at as int)
            =~= insert_spec(all.take(at - 1), x) + all.skip(at - 1));
        at = at - 1;
    }
    let mut list = list;
    list.insert(at, item);
    proof {
        let upto = all.take(at as int);
        if at > 0 {
            assert(upto.last() == all[at - 1]);
        }
        assert(insert_spec(upto, x) =~= upto.push(x));
        assert(text::views(list@) =~= upto.push(x) + all.skip(at as int));
    }
    list
}

/// The texts in ascending order.
pub fn sort_texts(list: Vec<String>) -> (out: Vec<String>)
    ensures
        text::views(out@) == sorted_spec(text::views(list@)),
        out@.len() == list@.len(),
{
    let ghost all = text::views(list@);
    let mut out: Vec<String> = Vec::new();
    let mut i: usize = 0;
    assert(text::views(out@) =~= all.take(0));
    while i < list.len()
        invariant
            i <= list@.len(),
            all == text::views(list@),
            text::views(out@) == sorted_spec(all.take(i as int)),
        decreases list@.len() - i,
    {
        assert(all.take(i + 1).drop_last() =~= all.take(i as int));
        assert(all.take(i + 1).last() == list@[i as int]@);
        out = insert_text(out, list[i].clone());
        i = i + 1;
    }
    assert(all.take(list@.len() as int) =~= all);
    proof {
        law_sorting_orders_and_keeps(all);
    }
    assert(text::views(out@).len() == out@.len());
    out
}

} // verus!

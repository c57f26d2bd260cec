//! Things that have a name, and their order.

use vstd::prelude::*;

use crate::table;

verus! {

/// A thing with a name.
pub trait Named: Sized {
    /// The name.
    spec fn key(&self) -> Seq<char>;

    /// The name.
    fn name(&self) -> (r: &str)
        ensures
            r@ == self.key(),
    ;
}

/// A list in the order of the names, with one more thing put in its place:
/// in front of what bears the same name.
pub open spec fn placed<T: Named>(x: T, list: Seq<T>) -> Seq<T>
    decreases list.len(),
{
    if list.len() == 0 || !table::before(list[0].key(), x.key()) {
        seq![x] + list
    } else {
        seq![list[0]] + placed(x, list.skip(1))
    }
}

/// Things in the order of their names; those of one name stay in their order.
pub open spec fn by_name<T: Named>(list: Seq<T>) -> Seq<T>
    decreases list.len(),
{
    if list.len() == 0 {
        seq![]
    } else {
        placed(list[0], by_name(list.skip(1)))
    }
}

proof fn lemma_placed<T: Named>(x: T, list: Seq<T>, at: int)
    requires
        0 <= at <= list.len(),
        forall|k: int| 0 <= k < at ==> table::before((#[trigger] list[k]).key(), x.key()),
        at < list.len() ==> !table::before(list[at].key(), x.key()),
    ensures
        placed(x, list) == list.insert(at, x),
    decreases at,
{
    if at == 0 {
        assert(placed(x, list) =~= list.insert(0, x));
    } else {
        assert(table::before(list[0].key(), x.key()));
        lemma_placed(x, list.skip(1), at - 1);
        assert(placed(x, list) =~= list.insert(at, x));
    }
}

/// Put things in the order of their names.
pub fn sort_by_name<T: Named>(list: Vec<T>) -> (r: Vec<T>)
    ensures
        r@ == by_name(list@),
{
    let mut rest = list;
    let mut out: Vec<T> = Vec::new();
    let ghost all = rest@;
    assert(all.skip(all.len() as int) =~= seq![]);
    assert(out@ =~= by_name(all.skip(all.len() as int)));
    while rest.len() > 0
        invariant
            rest@.len() <= all.len(),
            rest@ == all.take(rest@.len() as int),
            out@ == by_name(all.skip(rest@.len() as int)),
        decreases rest@.len(),
    {
        let ghost n = rest@.len() as int;
        let next = rest.pop();
        match next {
            Some(x) => {
                assert(x == all[n - 1]);
                assert(rest@ =~= all.take(n - 1));
                assert(all.skip(n - 1)[0] == x);
                assert(all.skip(n - 1).skip(1) =~= all.skip(n));
                let mut at: usize = 0;
                while at < out.len() && table::is_before(out[at].name(), x.name())
                    invariant
                        at <= out@.len(),
                        forall|k: int|
                            0 <= k < at ==> table::before((#[trigger] out@[k]).key(), x.key()),
                    decreases out@.len() - at,
                {
                    at = at + 1;
                }
                proof {
                    lemma_placed(x, out@, at as int);
                }
                out.insert(at, x);
            },
            None => {},
        }
    }
    assert(all.skip(0) =~= all);
    out
}

/// Whether no name stands before an earlier one.
pub open spec fn ascending<T: Named>(list: Seq<T>) -> bool {
    forall|i: int, j: int|
        0 <= i < j < list.len() ==> !table::before(
            (#[trigger] list[j]).key(),
            (#[trigger] list[i]).key(),
        )
}

proof fn lemma_placed_members<T: Named>(x: T, list: Seq<T>)
    ensures
        forall|y: T| #[trigger] placed(x, list).contains(y) ==> y == x || list.contains(y),
    decreases list.len(),
{
    if !(list.len() == 0 || !table::before(list[0].key(), x.key())) {
        lemma_placed_members(x, list.skip(1));
        assert forall|y: T| #[trigger] placed(x, list).contains(y) implies y == x || list.contains(
            y,
        ) by {
            let all = placed(x, list);
            let k = choose|k: int| 0 <= k < all.len() && all[k] == y;
            if k == 0 {
                assert(list[0] == y);
            } else {
                let rest = placed(x, list.skip(1));
                assert(rest[k - 1] == y);
                assert(rest.contains(y));
                if y != x {
                    let j = choose|j: int| 0 <= j < list.skip(1).len() && list.skip(1)[j] == y;
                    assert(list[j + 1] == y);
                }
            }
        }
    } else {
        assert forall|y: T| #[trigger] placed(x, list).contains(y) implies y == x || list.contains(
            y,
        ) by {
            let all = placed(x, list);
            let k = choose|k: int| 0 <= k < all.len() && all[k] == y;
            if k > 0 {
                assert(list[k - 1] == y);
            }
        }
    }
}

proof fn lemma_not_after(a: Seq<char>, b: Seq<char>, c: Seq<char>)
    requires
        !table::before(b, a),
        !table::before(c, b),
    ensures
        !table::before(c, a),
{
    table::lemma_before_total(a, b);
    table::lemma_before_total(b, c);
    if table::before(c, a) {
        if a == b || b == c {
        } else {
            table::lemma_before_transitive(a, b, c);
            table::lemma_before_transitive(a, c, a);
            table::lemma_before_irreflexive(a);
        }
    }
}

proof fn lemma_before_not_after(a: Seq<char>, b: Seq<char>)
    requires
        table::before(a, b),
    ensures
        !table::before(b, a),
{
    if table::before(b, a) {
        table::lemma_before_transitive(a, b, a);
        table::lemma_before_irreflexive(a);
    }
}

proof fn lemma_placed_keeps<T: Named>(x: T, list: Seq<T>)
    requires
        ascending(list),
    ensures
        ascending(placed(x, list)),
        placed(x, list).to_multiset() == list.to_multiset().insert(x),
        placed(x, list).len() == list.len() + 1,
    decreases list.len(),
{
    broadcast use vstd::seq_lib::group_to_multiset_ensures;

    let all = placed(x, list);
    if list.len() == 0 || !table::before(list[0].key(), x.key()) {
        vstd::seq_lib::lemma_multiset_commutative(seq![x], list);
        assert(seq![x] =~= Seq::<T>::empty().push(x));
        assert(all.to_multiset() =~= list.to_multiset().insert(x));
        assert forall|i: int, j: int| 0 <= i < j < all.len() implies !table::before(
            (#[trigger] all[j]).key(),
            (#[trigger] all[i]).key(),
        ) by {
            assert(all[j] == list[j - 1]);
            if i == 0 {
                if j > 1 {
                    assert(!table::before(list[j - 1].key(), list[0].key()));
                    lemma_not_after(x.key(), list[0].key(), list[j - 1].key());
                }
            } else {
                assert(all[i] == list[i - 1]);
            }
        }
    } else {
        let tail = list.skip(1);
        assert(ascending(tail)) by {
            assert forall|i: int, j: int| 0 <= i < j < tail.len() implies !table::before(
                (#[trigger] tail[j]).key(),
                (#[trigger] tail[i]).key(),
            ) by {
                assert(tail[i] == list[i + 1] && tail[j] == list[j + 1]);
            }
        }
        lemma_placed_keeps(x, tail);
        let rest = placed(x, tail);
        lemma_placed_members(x, tail);
        lemma_before_not_after(list[0].key(), x.key());
        assert forall|i: int, j: int| 0 <= i < j < all.len() implies !table::before(
            (#[trigger] all[j]).key(),
            (#[trigger] all[i]).key(),
        ) by {
            assert(all[j] == rest[j - 1]);
            if i == 0 {
                let y = rest[j - 1];
                assert(rest.contains(y));
                if y != x {
                    let k = choose|k: int| 0 <= k < tail.len() && tail[k] == y;
                    assert(tail[k] == list[k + 1]);
                }
            } else {
                assert(all[i] == rest[i - 1]);
            }
        }
        vstd::seq_lib::lemma_multiset_commutative(seq![list[0]], rest);
        vstd::seq_lib::lemma_multiset_commutative(seq![list[0]], tail);
        assert(seq![list[0]] + tail =~= list);
        assert(all.to_multiset() =~= list.to_multiset().insert(x));
    }
}

/// Ordering by name keeps every thing, and puts no name before an earlier
/// one.
pub proof fn law_ordering_keeps_all<T: Named>(list: Seq<T>)
    ensures
        ascending(by_name(list)),
        by_name(list).to_multiset() == list.to_multiset(),
        by_name(list).len() == list.len(),
    decreases list.len(),
{
    broadcast use vstd::seq_lib::group_to_multiset_ensures;

    if list.len() > 0 {
        law_ordering_keeps_all(list.skip(1));
        lemma_placed_keeps(list[0], by_name(list.skip(1)));
        vstd::seq_lib::lemma_multiset_commutative(seq![list[0]], list.skip(1));
        assert(seq![list[0]] + list.skip(1) =~= list);
        assert(seq![list[0]] =~= Seq::<T>::empty().push(list[0]));
        assert(list.to_multiset() =~= list.skip(1).to_multiset().insert(list[0]));
    }
}

} // verus!

//! A table from names to values, kept in the order of its names.

use crate::text;
use vstd::prelude::*;

verus! {

/// Whether `a` stands before `b` in the order of their characters.
pub open spec fn before(a: Seq<char>, b: Seq<char>) -> bool
    decreases a.len(),
{
    if b.len() == 0 {
        false
    } else if a.len() == 0 {
        true
    } else if a[0] == b[0] {
        before(a.skip(1), b.skip(1))
    } else {
        a[0] < b[0]
    }
}

/// The order of texts is strict: nothing stands before itself.
pub proof fn lemma_before_irreflexive(a: Seq<char>)
    ensures
        !before(a, a),
    decreases a.len(),
{
    if a.len() > 0 {
        lemma_before_irreflexive(a.skip(1));
    }
}

/// The order of texts is transitive.
pub proof fn lemma_before_transitive(a: Seq<char>, b: Seq<char>, c: Seq<char>)
    requires
        before(a, b),
        before(b, c),
    ensures
        before(a, c),
    decreases a.len(),
{
    if a.len() > 0 && b.len() > 0 && c.len() > 0 && a[0] == b[0] && b[0] == c[0] {
        lemma_before_transitive(a.skip(1), b.skip(1), c.skip(1));
    }
}

/// Two different texts stand in one order or the other.
pub proof fn lemma_before_total(a: Seq<char>, b: Seq<char>)
    ensures
        before(a, b) || before(b, a) || a == b,
    decreases a.len(),
{
    if a.len() > 0 && b.len() > 0 && a[0] == b[0] {
        lemma_before_total(a.skip(1), b.skip(1));
        if a.skip(1) == b.skip(1) {
            assert(a =~= seq![a[0]] + a.skip(1));
            assert(b =~= seq![b[0]] + b.skip(1));
        }
    } else if a.len() == 0 && b.len() == 0 {
        assert(a =~= b);
    }
}

/// Whether `a` stands before `b` in the order of their characters.
pub fn is_before(a: &str, b: &str) -> (r: bool)
    ensures
        r == before(a@, b@),
{
    let x = text::chars(a);
    let y = text::chars(b);
    let mut i: usize = 0;
    assert(x@.skip(0) =~= x@);
    assert(y@.skip(0) =~= y@);
    loop
        invariant
            x@ == a@,
            y@ == b@,
            i <= x@.len(),
            i <= y@.len(),
            before(x@, y@) == before(x@.skip(i as int), y@.skip(i as int)),
        decreases x@.len() - i,
    {
        if i == y.len() {
            return false;
        }
        if i == x.len() {
            return true;
        }
        if x[i] != y[i] {
            return x[i] < y[i];
        }
        assert(x@.skip(i as int).skip(1) =~= x@.skip(i + 1));
        assert(y@.skip(i as int).skip(1) =~= y@.skip(i + 1));
        i = i + 1;
    }
}

/// A table from names to values.
pub struct Table<V> {
    /// The rows, in the order of their names.
    pub entries: Vec<(String, V)>,
}

impl<V> Table<V> {
    /// The names, row by row.
    pub open spec fn names(self) -> Seq<Seq<char>> {
        Seq::new(self.entries@.len(), |i: int| self.entries@[i].0@)
    }

    /// The table's invariant: the names ascend, so none occurs twice.
    pub open spec fn ordered(self) -> bool {
        forall|i: int, j: int|
            0 <= i < j < self.entries@.len() ==> before(
                #[trigger] self.entries@[i].0@,
                #[trigger] self.entries@[j].0@,
            )
    }

    /// The first row from `from` on that has the given name.
    pub open spec fn row_from(self, name: Seq<char>, from: int) -> Option<int>
        decreases self.entries@.len() - from,
    {
        if from < 0 || from >= self.entries@.len() {
            None
        } else if self.entries@[from].0@ == name {
            Some(from)
        } else {
            self.row_from(name, from + 1)
        }
    }

    /// The row that has the given name.
    pub open spec fn row(self, name: Seq<char>) -> Option<int> {
        self.row_from(name, 0)
    }

    /// Whether a row has the given name.
    pub open spec fn has_name(self, name: Seq<char>) -> bool {
        self.row(name) is Some
    }

    /// The value under a name that the table has.
    pub open spec fn at(self, name: Seq<char>) -> V {
        self.entries@[self.row(name)->0].1
    }

    /// Whether two tables agree on every name but the given one.
    pub open spec fn same_but_for(self, other: Table<V>, name: Seq<char>) -> bool {
        forall|n: Seq<char>|
            n != name ==> #[trigger] other.has_name(n) == self.has_name(n) && (self.has_name(n)
                ==> other.at(n) == self.at(n))
    }

    /// An empty table.
    pub fn new() -> (t: Table<V>)
        ensures
            t.entries@ == Seq::<(String, V)>::empty(),
            t.ordered(),
    {
        Table { entries: Vec::new() }
    }

    /// What `row_from` finds.
    pub proof fn lemma_row_from(self, name: Seq<char>, from: int)
        requires
            0 <= from,
        ensures
            match self.row_from(name, from) {
                Some(i) => from <= i < self.entries@.len() && self.entries@[i].0@ == name && forall|
                    j: int,
                |
                    from <= j < i ==> #[trigger] self.entries@[j].0@ != name,
                None => forall|j: int|
                    from <= j < self.entries@.len() ==> #[trigger] self.entries@[j].0@ != name,
            },
        decreases self.entries@.len() - from,
    {
        if from < self.entries@.len() && self.entries@[from].0@ != name {
            self.lemma_row_from(name, from + 1);
        }
    }

    /// The position of the row that has the given name.
    pub fn position(&self, name: &str) -> (r: Option<usize>)
        ensures
            match r {
                Some(i) => self.row(name@) == Some(i as int) && i < self.entries@.len(),
                None => self.row(name@) is None,
            },
    {
        let mut i: usize = 0;
        while i < self.entries.len()
            invariant
                i <= self.entries@.len(),
                self.row(name@) == self.row_from(name@, i as int),
            decreases self.entries@.len() - i,
        {
            if text::same(self.entries[i].0.as_str(), name) {
                return Some(i);
            }
            i = i + 1;
        }
        None
    }

    /// The value under a name.
    pub fn get(&self, name: &str) -> (r: Option<&V>)
        ensures
            match r {
                Some(v) => self.has_name(name@) && *v == self.at(name@),
                None => !self.has_name(name@),
            },
    {
        match self.position(name) {
            Some(i) => Some(&self.entries[i].1),
            None => None,
        }
    }

    /// Whether a row has the given name.
    pub fn contains(&self, name: &str) -> (r: bool)
        ensures
            r == self.has_name(name@),
    {
        self.position(name).is_some()
    }

    /// The first of these names, from a place on, that the table has.
    pub open spec fn first_named(self, names: Seq<Seq<char>>, from: int) -> Option<Seq<char>>
        decreases names.len() - from,
    {
        if from < 0 || from >= names.len() {
            None
        } else if self.has_name(names[from]) {
            Some(names[from])
        } else {
            self.first_named(names, from + 1)
        }
    }

    /// The first of these names that the table has.
    pub fn first_of(&self, names: &Vec<String>) -> (r: Option<String>)
        ensures
            match r {
                Some(name) => self.first_named(text::views(names@), 0) == Some(name@)
                    && self.has_name(name@),
                None => self.first_named(text::views(names@), 0) is None,
            },
    {
        let ghost all = text::views(names@);
        let mut i: usize = 0;
        while i < names.len()
            invariant
                i <= names@.len(),
                all == text::views(names@),
                self.first_named(all, 0) == self.first_named(all, i as int),
            decreases names@.len() - i,
        {
            assert(all[i as int] == names@[i as int]@);
            if self.contains(names[i].as_str()) {
                return Some(names[i].clone());
            }
            i = i + 1;
        }
        None
    }

    /// Put a value under a name: the row's value is replaced where the name
    /// is there, else a row is added at its place in the order.
    pub fn insert(&mut self, name: String, value: V)
        requires
            old(self).ordered(),
        ensures
            final(self).ordered(),
            final(self).has_name(name@),
            final(self).at(name@) == value,
            old(self).same_but_for(*final(self), name@),
            old(self).has_name(name@) ==> final(self).names() == old(self).names(),
            !old(self).has_name(name@) ==> final(self).entries@.len() == old(self).entries@.len()
                + 1,
    {
        let ghost before_table = *self;
        match self.position(name.as_str()) {
            Some(i) => {
                proof {
                    before_table.lemma_row_from(name@, 0);
                }
                let ghost kept = self.entries@[i as int].0;
                self.entries.remove(i);
                let ghost wanted = name@;
                self.entries.insert(i, (name, value));
                assert(self.entries@ =~= before_table.entries@.update(i as int, (name, value)));
                assert(self.names() =~= before_table.names());
                proof {
                    Self::lemma_same_names(before_table, *self, i as int);
                }
            },
            None => {
                let mut i: usize = 0;
                while i < self.entries.len() && is_before(self.entries[i].0.as_str(), name.as_str())
                    invariant
                        i <= self.entries@.len(),
                        *self == before_table,
                        forall|j: int|
                            0 <= j < i ==> before(#[trigger] self.entries@[j].0@, name@),
                    decreases self.entries@.len() - i,
                {
                    i = i + 1;
                }
                let ghost wanted = name@;
                self.entries.insert(i, (name, value));
                proof {
                    before_table.lemma_row_from(wanted, 0);
                    if i < before_table.entries@.len() {
                        lemma_before_total(before_table.entries@[i as int].0@, wanted);
                    }
                    Self::lemma_inserted(before_table, *self, i as int, (name, value));
                }
            },
        }
    }

    proof fn lemma_same_names(a: Table<V>, b: Table<V>, at: int)
        requires
            a.ordered(),
            0 <= at < a.entries@.len(),
            a.row(a.entries@[at].0@) == Some(at),
            a.names() == b.names(),
            b.entries@ == a.entries@.update(at, b.entries@[at]),
        ensures
            b.ordered(),
            b.row(a.entries@[at].0@) == Some(at),
            a.same_but_for(b, a.entries@[at].0@),
    {
        assert forall|i: int| 0 <= i < a.entries@.len() implies a.entries@[i].0@
            == b.entries@[i].0@ by {
            assert(a.names()[i] == b.names()[i]);
        }
        a.lemma_row_from(a.entries@[at].0@, 0);
        b.lemma_row_from(a.entries@[at].0@, 0);
        assert forall|n: Seq<char>| n != a.entries@[at].0@ implies #[trigger] b.has_name(n)
            == a.has_name(n) && (a.has_name(n) ==> b.at(n) == a.at(n)) by {
            a.lemma_row_from(n, 0);
            b.lemma_row_from(n, 0);
        }
    }

    proof fn lemma_inserted(a: Table<V>, b: Table<V>, at: int, row: (String, V))
        requires
            a.ordered(),
            0 <= at <= a.entries@.len(),
            b.entries@ == a.entries@.insert(at, row),
            a.row(row.0@) is None,
            forall|j: int| 0 <= j < at ==> before(#[trigger] a.entries@[j].0@, row.0@),
            at < a.entries@.len() ==> before(row.0@, a.entries@[at].0@),
        ensures
            b.ordered(),
            b.row(row.0@) == Some(at),
            a.same_but_for(b, row.0@),
    {
        let old_at = |j: int|
            if j < at {
                j
            } else {
                j - 1
            };
        assert forall|i: int, j: int| 0 <= i < j < b.entries@.len() implies before(
            #[trigger] b.entries@[i].0@,
            #[trigger] b.entries@[j].0@,
        ) by {
            if j == at {
                assert(b.entries@[i] == a.entries@[i]);
            } else if i == at {
                assert(b.entries@[j] == a.entries@[j - 1]);
                if j - 1 > at {
                    lemma_before_transitive(row.0@, a.entries@[at].0@, a.entries@[j - 1].0@);
                }
            } else {
                assert(b.entries@[i] == a.entries@[old_at(i)]);
                assert(b.entries@[j] == a.entries@[old_at(j)]);
            }
        }
        b.lemma_row_from(row.0@, 0);
        assert(b.entries@[at] == row);
        assert(b.entries@[at].0@ == row.0@);
        let m = b.row(row.0@)->0;
        if m != at {
            Self::lemma_unique(b, m, at);
        }
        assert forall|other: Seq<char>| other != row.0@ implies #[trigger] b.has_name(other)
            == a.has_name(other) && (a.has_name(other) ==> b.at(other) == a.at(other)) by {
            Self::lemma_inserted_other(a, b, at, row, other);
        }
        assert(a.same_but_for(b, row.0@));
    }

    proof fn lemma_inserted_other(
        a: Table<V>,
        b: Table<V>,
        at: int,
        row: (String, V),
        other: Seq<char>,
    )
        requires
            b.ordered(),
            0 <= at <= a.entries@.len(),
            b.entries@ == a.entries@.insert(at, row),
            other != row.0@,
        ensures
            b.has_name(other) == a.has_name(other),
            a.has_name(other) ==> b.at(other) == a.at(other),
    {
        a.lemma_row_from(other, 0);
        b.lemma_row_from(other, 0);
        if a.has_name(other) {
            let i = a.row(other)->0;
            let k = if i < at {
                i
            } else {
                i + 1
            };
            assert(b.entries@[k] == a.entries@[i]);
            assert(b.entries@[k].0@ == other);
            let m = b.row(other)->0;
            if m != k {
                Self::lemma_unique(b, m, k);
            }
        } else if b.has_name(other) {
            let m = b.row(other)->0;
            assert(m != at);
            if m < at {
                assert(a.entries@[m] == b.entries@[m]);
                assert(a.entries@[m].0@ == other);
            } else {
                assert(a.entries@[m - 1] == b.entries@[m]);
                assert(a.entries@[m - 1].0@ == other);
            }
        }
    }

    /// In an ordered table a name stands in one row at most.
    pub proof fn lemma_unique(t: Table<V>, i: int, j: int)
        requires
            t.ordered(),
            0 <= i < t.entries@.len(),
            0 <= j < t.entries@.len(),
            t.entries@[i].0@ == t.entries@[j].0@,
        ensures
            i == j,
    {
        lemma_before_irreflexive(t.entries@[i].0@);
    }
}

} // verus!

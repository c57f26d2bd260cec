//! The observable effects of tools.

use vstd::prelude::*;

verus! {

/// One observable effect of a tool.
#[derive(Debug, Clone, Copy, PartialEq, Eq, Structural)]
pub enum ToolEffect {
    FilesystemRead,
    FilesystemWrite,
    ProcessExecute,
    NetworkEgress,
    ExternalRead,
    ExternalMutation,
}

/// A compact set of the effects attached to a tool.
#[derive(Debug, Clone, Copy, PartialEq, Eq, Structural)]
pub struct ToolEffects(u16);

/// The place of an effect in the compact set.
pub open spec fn place(effect: ToolEffect) -> u16 {
    match effect {
        ToolEffect::FilesystemRead => 0,
        ToolEffect::FilesystemWrite => 1,
        ToolEffect::ProcessExecute => 2,
        ToolEffect::NetworkEgress => 3,
        ToolEffect::ExternalRead => 4,
        ToolEffect::ExternalMutation => 5,
    }
}

proof fn lemma_one_bit(a: u16, i: u16, j: u16)
    by (bit_vector)
    requires
        i < 6,
        j < 6,
    ensures
        ((a | (1u16 << i)) & (1u16 << j) != 0) == (i == j || a & (1u16 << j) != 0),
        ((1u16 << i) & (1u16 << j) != 0) == (i == j),
        0u16 & (1u16 << j) == 0,
{
}

proof fn lemma_either(a: u16, b: u16, m: u16)
    by (bit_vector)
    ensures
        ((a | b) & m != 0) == (a & m != 0 || b & m != 0),
{
}

proof fn lemma_places(a: u16, b: u16, i: u16)
    by (bit_vector)
    requires
        i < 6,
    ensures
        1u16 << i < 64,
        a < 64 && b < 64 ==> a | b < 64,
{
}

proof fn lemma_bits_decide(a: u16, b: u16)
    by (bit_vector)
    requires
        a < 64,
        b < 64,
        (a & (1u16 << 0u16) != 0) == (b & (1u16 << 0u16) != 0),
        (a & (1u16 << 1u16) != 0) == (b & (1u16 << 1u16) != 0),
        (a & (1u16 << 2u16) != 0) == (b & (1u16 << 2u16) != 0),
        (a & (1u16 << 3u16) != 0) == (b & (1u16 << 3u16) != 0),
        (a & (1u16 << 4u16) != 0) == (b & (1u16 << 4u16) != 0),
        (a & (1u16 << 5u16) != 0) == (b & (1u16 << 5u16) != 0),
    ensures
        a == b,
{
}

impl View for ToolEffects {
    type V = Set<ToolEffect>;

    closed spec fn view(&self) -> Set<ToolEffect> {
        Set::new(|e: ToolEffect| self.0 & (1u16 << place(e)) != 0)
    }
}

/// Whether a set of effects can change state or run local processes.
pub open spec fn mutating_spec(effects: Set<ToolEffect>) -> bool {
    effects.contains(ToolEffect::FilesystemWrite) || effects.contains(ToolEffect::ProcessExecute)
        || effects.contains(ToolEffect::ExternalMutation)
}

/// Whether one of the listed effects is in the set.
pub open spec fn meets(effects: Set<ToolEffect>, listed: Seq<ToolEffect>) -> bool {
    exists|i: int| 0 <= i < listed.len() && effects.contains(#[trigger] listed[i])
}

impl ToolEffects {
    /// The invariant: a value uses the places of effects and no others.
    #[verifier::type_invariant]
    pub closed spec fn valid(self) -> bool {
        self.0 < 64
    }

    /// The value without an effect.
    pub closed spec fn none_spec() -> ToolEffects {
        ToolEffects(0)
    }

    /// The value with the effects of either.
    pub closed spec fn union_spec(self, other: ToolEffects) -> ToolEffects {
        ToolEffects(self.0 | other.0)
    }

    fn bit(effect: ToolEffect) -> (r: u16)
        ensures
            r == 1u16 << place(effect),
    {
        proof {
            assert(1u16 << 0u16 == 1 && 1u16 << 1u16 == 2 && 1u16 << 2u16 == 4 && 1u16 << 3u16 == 8
                && 1u16 << 4u16 == 16 && 1u16 << 5u16 == 32) by (bit_vector);
        }
        match effect {
            ToolEffect::FilesystemRead => 1,
            ToolEffect::FilesystemWrite => 2,
            ToolEffect::ProcessExecute => 4,
            ToolEffect::NetworkEgress => 8,
            ToolEffect::ExternalRead => 16,
            ToolEffect::ExternalMutation => 32,
        }
    }

    /// No effect.
    pub fn none() -> (r: ToolEffects)
        ensures
            r.valid(),
            r == ToolEffects::none_spec(),
            r@ == Set::<ToolEffect>::empty(),
    {
        let r = ToolEffects(0);
        proof {
            assert forall|e: ToolEffect| !r@.contains(e) by {
                lemma_one_bit(0, 0, place(e));
            }
            assert(r@ =~= Set::empty());
        }
        r
    }

    /// The one effect given.
    pub fn one(effect: ToolEffect) -> (r: ToolEffects)
        ensures
            r.valid(),
            r@ == Set::<ToolEffect>::empty().insert(effect),
    {
        proof {
            lemma_places(0, 0, place(effect));
        }
        let r = ToolEffects(Self::bit(effect));
        proof {
            assert forall|e: ToolEffect| r@.contains(e) == (e == effect) by {
                lemma_one_bit(0, place(effect), place(e));
            }
            assert(r@ =~= Set::empty().insert(effect));
        }
        r
    }

    /// Add an effect.
    pub fn insert(&mut self, effect: ToolEffect)
        ensures
            final(self).valid(),
            final(self)@ == old(self)@.insert(effect),
    {
        let ghost before = *self;
        let bit: u16 = Self::bit(effect);
        proof {
            use_type_invariant(&*self);
            lemma_places(self.0, bit, place(effect));
        }
        self.0 = self.0 | bit;
        proof {
            let after = *self;
            assert forall|e: ToolEffect|
                #[trigger] after@.contains(e) == before@.insert(effect).contains(e) by {
                lemma_one_bit(before.0, place(effect), place(e));
            }
            assert(after@ =~= before@.insert(effect));
        }
    }

    /// The effects of either.
    pub fn union(self, other: ToolEffects) -> (r: ToolEffects)
        ensures
            r.valid(),
            r == self.union_spec(other),
            r@ == self@.union(other@),
    {
        proof {
            use_type_invariant(&self);
            use_type_invariant(&other);
            lemma_places(self.0, other.0, 0);
        }
        let r = ToolEffects(self.0 | other.0);
        proof {
            assert forall|e: ToolEffect|
                r@.contains(e) == (self@.contains(e) || other@.contains(e)) by {
                lemma_either(self.0, other.0, 1u16 << place(e));
            }
            assert(r@ =~= self@.union(other@));
        }
        r
    }

    /// Whether the effect is in the set.
    pub fn contains(self, effect: ToolEffect) -> (r: bool)
        ensures
            r == self@.contains(effect),
    {
        self.0 & Self::bit(effect) != 0
    }

    /// Whether one of the listed effects is in the set.
    pub fn intersects(self, effects: &[ToolEffect]) -> (r: bool)
        ensures
            r == meets(self@, effects@),
    {
        let mut i: usize = 0;
        while i < effects.len()
            invariant
                i <= effects@.len(),
                forall|j: int| 0 <= j < i ==> !self@.contains(#[trigger] effects@[j]),
            decreases effects@.len() - i,
        {
            if self.contains(effects[i]) {
                return true;
            }
            i = i + 1;
        }
        false
    }

    /// Effects that can change state or execute arbitrary local processes.
    pub fn mutating_or_process(self) -> (r: bool)
        ensures
            r == mutating_spec(self@),
    {
        self.contains(ToolEffect::FilesystemWrite) || self.contains(ToolEffect::ProcessExecute)
            || self.contains(ToolEffect::ExternalMutation)
    }

    /// Safe to expose through a read-only delegation boundary.
    pub fn read_only_safe(self) -> (r: bool)
        ensures
            r == !mutating_spec(self@),
    {
        !self.mutating_or_process()
    }

    /// Safe to dispatch beside other calls in the same tool round.
    pub fn parallel_safe(self) -> (r: bool)
        ensures
            r == !mutating_spec(self@),
    {
        !self.mutating_or_process()
    }
}

/// Equal sets of effects are equal values.
pub proof fn law_equal_sets_are_equal_values(a: ToolEffects, b: ToolEffects)
    requires
        a.valid(),
        b.valid(),
        a@ == b@,
    ensures
        a == b,
{
    assert forall|e: ToolEffect|
        (a.0 & (1u16 << #[trigger] place(e)) != 0) == (b.0 & (1u16 << place(e)) != 0) by {
        assert(a@.contains(e) == (a.0 & (1u16 << place(e)) != 0));
        assert(b@.contains(e) == (b.0 & (1u16 << place(e)) != 0));
    }
    assert(place(ToolEffect::FilesystemRead) == 0);
    assert(place(ToolEffect::FilesystemWrite) == 1);
    assert(place(ToolEffect::ProcessExecute) == 2);
    assert(place(ToolEffect::NetworkEgress) == 3);
    assert(place(ToolEffect::ExternalRead) == 4);
    assert(place(ToolEffect::ExternalMutation) == 5);
    lemma_bits_decide(a.0, b.0);
}

proof fn lemma_union(a: ToolEffects, b: ToolEffects)
    requires
        a.valid(),
        b.valid(),
    ensures
        a.union_spec(b).valid(),
        a.union_spec(b)@ == a@.union(b@),
{
    lemma_places(a.0, b.0, 0);
    assert forall|e: ToolEffect|
        a.union_spec(b)@.contains(e) == (a@.contains(e) || b@.contains(e)) by {
        lemma_either(a.0, b.0, 1u16 << place(e));
    }
    assert(a.union_spec(b)@ =~= a@.union(b@));
}

/// A union holds the effects of either and no others; it does not depend on
/// order or grouping, and neither the value itself nor no effect at all adds
/// anything.
pub proof fn law_unions_of_effects(a: ToolEffects, b: ToolEffects, c: ToolEffects)
    requires
        a.valid(),
        b.valid(),
        c.valid(),
    ensures
        forall|e: ToolEffect| #[trigger]
            a.union_spec(b)@.contains(e) == (a@.contains(e) || b@.contains(e)),
        a.union_spec(b) == b.union_spec(a),
        a.union_spec(b).union_spec(c) == a.union_spec(b.union_spec(c)),
        a.union_spec(a) == a,
        a.union_spec(ToolEffects::none_spec()) == a,
{
    let none = ToolEffects::none_spec();
    assert forall|e: ToolEffect| !none@.contains(e) by {
        lemma_one_bit(0, 0, place(e));
    }
    lemma_union(a, b);
    lemma_union(b, a);
    lemma_union(b, c);
    lemma_union(a.union_spec(b), c);
    lemma_union(a, b.union_spec(c));
    lemma_union(a, a);
    lemma_union(a, none);
    assert(a@.union(b@) =~= b@.union(a@));
    assert(a@.union(b@).union(c@) =~= a@.union(b@.union(c@)));
    assert(a@.union(a@) =~= a@);
    assert(a@.union(none@) =~= a@);
    law_equal_sets_are_equal_values(a.union_spec(b), b.union_spec(a));
    law_equal_sets_are_equal_values(
        a.union_spec(b).union_spec(c),
        a.union_spec(b.union_spec(c)),
    );
    law_equal_sets_are_equal_values(a.union_spec(a), a);
    law_equal_sets_are_equal_values(a.union_spec(none), a);
}

/// Whether a call needs approval: its context asks for it, and the tool
/// mutates, runs a process, or has one of the context's listed effects.
pub open spec fn approval_spec(
    context_requires: bool,
    additional: Seq<ToolEffect>,
    effects: Set<ToolEffect>,
) -> bool {
    context_requires && (mutating_spec(effects) || meets(effects, additional))
}

/// Whether a call needs approval.
pub fn approval_required(
    context_requires: bool,
    additional_effects: &[ToolEffect],
    tool_effects: ToolEffects,
) -> (r: bool)
    ensures
        r == approval_spec(context_requires, additional_effects@, tool_effects@),
{
    context_requires && (tool_effects.mutating_or_process() || tool_effects.intersects(
        additional_effects,
    ))
}

/// More effects never lift the need for approval.
pub proof fn law_approval_grows_with_effects(
    context_requires: bool,
    additional: Seq<ToolEffect>,
    less: Set<ToolEffect>,
    more: Set<ToolEffect>,
)
    requires
        less.subset_of(more),
        approval_spec(context_requires, additional, less),
    ensures
        approval_spec(context_requires, additional, more),
{
    if meets(less, additional) {
        let i = choose|i: int|
            0 <= i < additional.len() && less.contains(#[trigger] additional[i]);
        assert(more.contains(additional[i]));
    }
}

/// A tool that mutates or runs a process always needs approval in a context
/// that asks for it, whatever effects the context lists.
pub proof fn law_mutation_is_always_gated(additional: Seq<ToolEffect>, effects: Set<ToolEffect>)
    requires
        mutating_spec(effects),
    ensures
        approval_spec(true, additional, effects),
{
}

} // verus!

use vstd::prelude::*;

use crate::player::{Color, ColorCounts, ColorTotals};

verus! {

/// How many cylinders each player starts with in their personal bank.
pub const CYLINDER_BANK_SIZE: i8 = 10;

/// A pool of one player's fungible cylinders (tribes, spies or gifts): a
/// single non-negative counter.
#[derive(Clone, Copy)]
pub struct SingleCylinderSet {
    count: i8,
}

impl SingleCylinderSet {
    /// The number of cylinders held, as a mathematical integer.
    pub closed spec fn spec_count(self) -> int {
        self.count as int
    }

    /// A cylinder pool never holds a negative count.
    pub open spec fn wf(self) -> bool {
        self.spec_count() >= 0
    }

    /// A new, empty pool.
    pub fn new() -> (r: Self)
        ensures
            r.wf(),
            r.spec_count() == 0,
    {
        Self { count: 0 }
    }

    /// A freshly seeded personal bank of cylinders.
    pub fn new_bank() -> (r: Self)
        ensures
            r.wf(),
            r.spec_count() == CYLINDER_BANK_SIZE as int,
    {
        Self { count: CYLINDER_BANK_SIZE }
    }

    /// The number of cylinders in this pool.
    pub fn count(&self) -> (r: i8)
        ensures
            r == self.spec_count(),
    {
        self.count
    }

    /// Merge another pool into this one, consuming the source.
    pub fn add(&mut self, source: Self)
        requires
            old(self).wf(),
            source.wf(),
            old(self).spec_count() + source.spec_count() <= i8::MAX,
        ensures
            final(self).wf(),
            final(self).spec_count() == old(self).spec_count() + source.spec_count(),
    {
        self.count = self.count + source.count;
    }

    /// The pool holding the combined contents of two pools.
    pub fn merge(self, rhs: Self) -> (r: Self)
        requires
            self.wf(),
            rhs.wf(),
            self.spec_count() + rhs.spec_count() <= i8::MAX,
        ensures
            r.wf(),
            r.spec_count() == self.spec_count() + rhs.spec_count(),
    {
        Self { count: self.count + rhs.count }
    }
}

/// A pool of cylinders with a separate counter for every player color.
#[derive(Clone, Copy)]
pub struct CylinderSet {
    bank: ColorCounts,
}

impl View for CylinderSet {
    type V = ColorTotals;

    closed spec fn view(&self) -> ColorTotals {
        self.bank@
    }
}

impl CylinderSet {
    /// Every per-color count is non-negative.
    pub open spec fn wf(self) -> bool {
        self@.nonneg()
    }

    /// A new pool, empty for every color.
    pub fn new() -> (r: Self)
        ensures
            r.wf(),
            r@ == ColorTotals::zero(),
    {
        Self { bank: ColorCounts::zero() }
    }

    /// The number of cylinders held for one player color.
    pub fn count(&self, player: Color) -> (r: i8)
        ensures
            r == self@.get(player),
    {
        self.bank.get(player)
    }

    /// Add `n` cylinders of one player color to this pool.
    pub fn add_count(&mut self, player: Color, n: i8)
        requires
            old(self).wf(),
            n >= 0,
            old(self)@.get(player) + n <= i8::MAX,
        ensures
            final(self).wf(),
            final(self)@ == old(self)@.update(player, old(self)@.get(player) + n),
    {
        self.bank.add_to(player, n);
        proof {
            old(self)@.lemma_update_get(player, old(self)@.get(player) + n, Color::Red);
            old(self)@.lemma_update_get(player, old(self)@.get(player) + n, Color::Blue);
            old(self)@.lemma_update_get(player, old(self)@.get(player) + n, Color::Yellow);
            old(self)@.lemma_update_get(player, old(self)@.get(player) + n, Color::Black);
            old(self)@.lemma_update_get(player, old(self)@.get(player) + n, Color::Grey);
        }
    }

    /// Per-color sum of a whole collection of cylinder pools.
    pub fn sum(sets: &Vec<CylinderSet>) -> (r: ColorCounts)
        requires
            forall|i: int| 0 <= i < sets@.len() ==> (#[trigger] sets@[i]).wf(),
            forall|p: Color| sum_cylinder_totals(sets@).get(p) <= i8::MAX,
        ensures
            r@ == sum_cylinder_totals(sets@),
            r@.nonneg(),
    {
        let ghost all = sets@;
        let mut r = ColorCounts::zero();
        let mut i: usize = 0;
        while i < sets.len()
            invariant
                0 <= i <= all.len(),
                sets@ == all,
                forall|j: int| 0 <= j < all.len() ==> (#[trigger] all[j]).wf(),
                forall|p: Color| sum_cylinder_totals(all).get(p) <= i8::MAX,
                r@ == sum_cylinder_totals(all.take(i as int)),
                r@.nonneg(),
            decreases all.len() - i,
        {
            proof {
                lemma_sum_cylinder_prefix(all, i as int);
                lemma_sum_cylinder_nonneg_prefix(all, i as int);
            }
            let s = sets[i];
            r.add_counts(&s.bank);
            proof {
                assert(all.take(i + 1).drop_last() =~= all.take(i as int));
                assert(all.take(i + 1).last() == all[i as int]);
                assert(sum_cylinder_totals(all.take(i + 1)) == sum_cylinder_totals(
                    all.take(i as int),
                ).plus(all[i as int]@));
                assert(r@ =~= sum_cylinder_totals(all.take(i + 1)));
            }
            i = i + 1;
        }
        proof {
            assert(all.take(all.len() as int) =~= all);
        }
        r
    }
}

/// The per-color sum over a sequence of cylinder pools.
pub open spec fn sum_cylinder_totals(sets: Seq<CylinderSet>) -> ColorTotals
    decreases sets.len(),
{
    if sets.len() == 0 {
        ColorTotals::zero()
    } else {
        sum_cylinder_totals(sets.drop_last()).plus(sets.last()@)
    }
}

/// A collection of empty cylinder pools sums to zero everywhere.
pub proof fn lemma_sum_cylinder_zero(sets: Seq<CylinderSet>)
    requires
        forall|i: int| 0 <= i < sets.len() ==> (#[trigger] sets[i])@ == ColorTotals::zero(),
    ensures
        sum_cylinder_totals(sets) == ColorTotals::zero(),
    decreases sets.len(),
{
    if sets.len() > 0 {
        lemma_sum_cylinder_zero(sets.drop_last());
    }
}

proof fn lemma_sum_cylinder_prefix(sets: Seq<CylinderSet>, i: int)
    requires
        0 <= i < sets.len(),
        forall|j: int| 0 <= j < sets.len() ==> (#[trigger] sets[j]).wf(),
    ensures
        forall|p: Color|
            #[trigger] sum_cylinder_totals(sets.take(i)).get(p) + sets[i]@.get(p)
                <= sum_cylinder_totals(sets).get(p),
    decreases sets.len() - i,
{
    assert(sets.take(i + 1).drop_last() =~= sets.take(i));
    assert(sets.take(i + 1).last() == sets[i]);
    assert(sum_cylinder_totals(sets.take(i + 1)) == sum_cylinder_totals(sets.take(i)).plus(
        sets[i]@,
    ));
    if i + 1 == sets.len() {
        assert(sets.take(i + 1) =~= sets);
    } else {
        lemma_sum_cylinder_prefix(sets, i + 1);
        assert forall|p: Color|
            #[trigger] sum_cylinder_totals(sets.take(i)).get(p) + sets[i]@.get(p)
                <= sum_cylinder_totals(sets).get(p) by {
            assert(sum_cylinder_totals(sets.take(i + 1)).get(p) + sets[i + 1]@.get(p)
                <= sum_cylinder_totals(sets).get(p));
            assert(sets[i + 1].wf());
            assert(sets[i + 1]@.get(p) >= 0);
        }
    }
}

proof fn lemma_sum_cylinder_nonneg_prefix(sets: Seq<CylinderSet>, i: int)
    requires
        0 <= i <= sets.len(),
        forall|j: int| 0 <= j < sets.len() ==> (#[trigger] sets[j]).wf(),
    ensures
        sum_cylinder_totals(sets.take(i)).nonneg(),
    decreases i,
{
    if i > 0 {
        lemma_sum_cylinder_nonneg_prefix(sets, i - 1);
        assert(sets.take(i).drop_last() =~= sets.take(i - 1));
        assert(sets.take(i).last() == sets[i - 1]);
    } else {
        assert(sets.take(0) =~= Seq::<CylinderSet>::empty());
    }
}

} // verus!

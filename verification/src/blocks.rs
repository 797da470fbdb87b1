use vstd::prelude::*;

use crate::primitives::Coalition;

verus! {

/// How many blocks of each coalition the bank tray is seeded with.
pub const TRAY_SIZE: i8 = 12;

/// Per-coalition block counts, as mathematical integers: the model of a
/// [`BlockSet`].
pub struct Counts {
    pub britain: int,
    pub russia: int,
    pub afghanistan: int,
}

impl Counts {
    /// The count held for one coalition.
    pub open spec fn get(self, c: Coalition) -> int {
        match c {
            Coalition::Britain => self.britain,
            Coalition::Russia => self.russia,
            Coalition::Afghanistan => self.afghanistan,
        }
    }

    /// The sum of the counts over every coalition.
    pub open spec fn total(self) -> int {
        self.britain + self.russia + self.afghanistan
    }

    /// No category ever holds a negative count.
    pub open spec fn nonneg(self) -> bool {
        self.britain >= 0 && self.russia >= 0 && self.afghanistan >= 0
    }

    /// All counts zero.
    pub open spec fn zero() -> Counts {
        Counts { britain: 0, russia: 0, afghanistan: 0 }
    }

    /// A pool holding `n` blocks of coalition `c` and nothing else.
    pub open spec fn only(c: Coalition, n: int) -> Counts {
        Counts::zero().update(c, n)
    }

    /// The same counts, with the entry for `c` replaced by `n`.
    pub open spec fn update(self, c: Coalition, n: int) -> Counts {
        match c {
            Coalition::Britain => Counts { britain: n, ..self },
            Coalition::Russia => Counts { russia: n, ..self },
            Coalition::Afghanistan => Counts { afghanistan: n, ..self },
        }
    }

    /// Per-coalition sum of two pools.
    pub open spec fn plus(self, other: Counts) -> Counts {
        Counts {
            britain: self.britain + other.britain,
            russia: self.russia + other.russia,
            afghanistan: self.afghanistan + other.afghanistan,
        }
    }

    /// Per-coalition difference of two pools.
    pub open spec fn minus(self, other: Counts) -> Counts {
        Counts {
            britain: self.britain - other.britain,
            russia: self.russia - other.russia,
            afghanistan: self.afghanistan - other.afghanistan,
        }
    }
}

/// A pool of fungible military blocks, one non-negative counter per
/// coalition. Blocks move between pools (bank, map regions, map borders)
/// under strict conservation: no operation mints or destroys a block.
#[derive(Clone, Copy)]
pub struct BlockSet {
    britain: i8,
    russia: i8,
    afghanistan: i8,
}

impl View for BlockSet {
    type V = Counts;

    closed spec fn view(&self) -> Counts {
        Counts {
            britain: self.britain as int,
            russia: self.russia as int,
            afghanistan: self.afghanistan as int,
        }
    }
}

impl BlockSet {
    /// Every category count is non-negative.
    pub open spec fn wf(self) -> bool {
        self@.nonneg()
    }

    /// A zero-filled pool.
    pub fn empty() -> (r: Self)
        ensures
            r.wf(),
            r@ == Counts::zero(),
    {
        Self { britain: 0, russia: 0, afghanistan: 0 }
    }

    /// A freshly seeded bank tray, holding the fixed starting count for
    /// every coalition.
    pub fn new_tray() -> (r: Self)
        ensures
            r.wf(),
            forall|c: Coalition| r@.get(c) == TRAY_SIZE as int,
    {
        Self { britain: TRAY_SIZE, russia: TRAY_SIZE, afghanistan: TRAY_SIZE }
    }

    /// Merge another pool into this one by per-category addition, consuming
    /// the source so that no block is ever represented twice.
    pub fn add(&mut self, source: BlockSet)
        requires
            old(self).wf(),
            source.wf(),
            forall|c: Coalition| old(self)@.get(c) + source@.get(c) <= i8::MAX,
        ensures
            final(self)@ == old(self)@.plus(source@),
            final(self).wf(),
    {
        assert(old(self)@.get(Coalition::Britain) + source@.get(Coalition::Britain) <= i8::MAX);
        assert(old(self)@.get(Coalition::Russia) + source@.get(Coalition::Russia) <= i8::MAX);
        assert(old(self)@.get(Coalition::Afghanistan) + source@.get(Coalition::Afghanistan)
            <= i8::MAX);
        self.britain = self.britain + source.britain;
        self.russia = self.russia + source.russia;
        self.afghanistan = self.afghanistan + source.afghanistan;
    }

    /// Remove all blocks from this pool and return them as a new pool.
    pub fn take_all(&mut self) -> (taken: BlockSet)
        ensures
            taken@ == old(self)@,
            final(self)@ == Counts::zero(),
            old(self).wf() ==> taken.wf(),
            final(self).wf(),
    {
        let taken = *self;
        self.britain = 0;
        self.russia = 0;
        self.afghanistan = 0;
        taken
    }

    /// Take up to `count` blocks of the given coalition and return them: if
    /// fewer are held, all of them leave and that category ends empty.
    pub fn take_up_to(&mut self, count: i8, coalition: Coalition) -> (taken: BlockSet)
        requires
            old(self).wf(),
            count >= 0,
        ensures
            final(self).wf(),
            taken.wf(),
            taken@ == Counts::only(
                coalition,
                vstd::math::min(count as int, old(self)@.get(coalition)),
            ),
            final(self)@ == old(self)@.update(
                coalition,
                old(self)@.get(coalition) - taken@.get(coalition),
            ),
    {
        let held = self.count(coalition);
        let taken_count: i8 = if count > held {
            held
        } else {
            count
        };
        self.set_count(coalition, held - taken_count);
        let mut taken = Self::empty();
        taken.set_count(coalition, taken_count);
        taken
    }

    /// Read the count held for one coalition.
    pub fn count(&self, coalition: Coalition) -> (r: i8)
        ensures
            r == self@.get(coalition),
    {
        match coalition {
            Coalition::Britain => self.britain,
            Coalition::Russia => self.russia,
            Coalition::Afghanistan => self.afghanistan,
        }
    }

    /// Overwrite the count held for one coalition.
    fn set_count(&mut self, coalition: Coalition, n: i8)
        ensures
            final(self)@ == old(self)@.update(coalition, n as int),
    {
        match coalition {
            Coalition::Britain => self.britain = n,
            Coalition::Russia => self.russia = n,
            Coalition::Afghanistan => self.afghanistan = n,
        }
    }

    /// Per-category sum of a whole collection of pools.
    pub fn sum(sets: &Vec<BlockSet>) -> (r: BlockSet)
        requires
            forall|i: int| 0 <= i < sets@.len() ==> (#[trigger] sets@[i]).wf(),
            forall|c: Coalition| sum_counts(sets@).get(c) <= i8::MAX,
        ensures
            r@ == sum_counts(sets@),
            r.wf(),
    {
        let ghost all = sets@;
        let mut r = Self::empty();
        let mut i: usize = 0;
        while i < sets.len()
            invariant
                0 <= i <= all.len(),
                sets@ == all,
                forall|j: int| 0 <= j < all.len() ==> (#[trigger] all[j]).wf(),
                forall|c: Coalition| sum_counts(all).get(c) <= i8::MAX,
                r@ == sum_counts(all.take(i as int)),
                r.wf(),
            decreases all.len() - i,
        {
            proof {
                lemma_sum_counts_prefix(all, i as int);
                lemma_sum_counts_nonneg_prefix(all, i as int);
            }
            r.add(sets[i]);
            proof {
                assert(all.take(i + 1).drop_last() =~= all.take(i as int));
                assert(sum_counts(all.take(i + 1)) == sum_counts(all.take(i as int)).plus(
                    all[i as int]@,
                ));
            }
            i = i + 1;
        }
        proof {
            assert(all.take(all.len() as int) =~= all);
        }
        r
    }
}

/// The per-category sum over a sequence of pools.
pub open spec fn sum_counts(sets: Seq<BlockSet>) -> Counts
    decreases sets.len(),
{
    if sets.len() == 0 {
        Counts::zero()
    } else {
        sum_counts(sets.drop_last()).plus(sets.last()@)
    }
}

/// The model of one pool.
pub open spec fn view_fn() -> spec_fn(BlockSet) -> Counts {
    |b: BlockSet| b@
}

/// The models of a collection of pools.
pub open spec fn views_of(sets: Seq<BlockSet>) -> Seq<Counts> {
    sets.map_values(view_fn())
}

/// Summing pools and summing their models agree.
pub proof fn lemma_sum_counts_views(sets: Seq<BlockSet>, c: Coalition)
    ensures
        sum_counts(sets).get(c) == system_count(views_of(sets), c),
        views_of(sets).len() == sets.len(),
    decreases sets.len(),
{
    if sets.len() > 0 {
        lemma_sum_counts_views(sets.drop_last(), c);
        assert(views_of(sets).drop_last() =~= views_of(sets.drop_last()));
        assert(views_of(sets).last() == sets.last()@);
    }
}

/// Summing a concatenation sums each part.
pub proof fn lemma_sum_counts_append(a: Seq<BlockSet>, b: Seq<BlockSet>)
    ensures
        sum_counts(a + b) == sum_counts(a).plus(sum_counts(b)),
    decreases b.len(),
{
    if b.len() == 0 {
        assert(a + b =~= a);
    } else {
        lemma_sum_counts_append(a, b.drop_last());
        assert((a + b).drop_last() =~= a + b.drop_last());
        assert((a + b).last() == b.last());
    }
}

/// Summing well-formed pools never goes negative.
pub proof fn lemma_sum_counts_nonneg(sets: Seq<BlockSet>, c: Coalition)
    requires
        forall|i: int| 0 <= i < sets.len() ==> (#[trigger] sets[i]).wf(),
    ensures
        sum_counts(sets).get(c) >= 0,
    decreases sets.len(),
{
    if sets.len() > 0 {
        lemma_sum_counts_nonneg(sets.drop_last(), c);
        assert(sets.last().wf());
    }
}

/// A collection of empty pools sums to the empty pool.
pub proof fn lemma_sum_counts_zero(sets: Seq<BlockSet>)
    requires
        forall|i: int| 0 <= i < sets.len() ==> (#[trigger] sets[i])@ == Counts::zero(),
    ensures
        sum_counts(sets) == Counts::zero(),
    decreases sets.len(),
{
    if sets.len() > 0 {
        lemma_sum_counts_zero(sets.drop_last());
    }
}

/// One pool operation in a closed system of pools. Each operation only moves
/// blocks from a source pool to a distinct destination pool, mirroring the
/// executable operations: `Merge` is [`BlockSet::add`] of one pool into
/// another, `TakeUpTo` is [`BlockSet::take_up_to`] followed by merging the
/// extracted pool into its destination, and `TakeAll` is
/// [`BlockSet::take_all`] followed by the same merge.
pub enum PoolOp {
    /// Merge the entire contents of the source pool into the destination.
    Merge { src: int, dst: int },
    /// Take up to `count` blocks of `coalition` from the source and merge
    /// the extracted pool into the destination.
    TakeUpTo { src: int, dst: int, count: int, coalition: Coalition },
    /// Take every block of every coalition from the source and merge the
    /// extracted pool into the destination.
    TakeAll { src: int, dst: int },
}

/// Whether an operation names two distinct pools of the system and asks for
/// a non-negative amount.
pub open spec fn pool_op_valid(pools: Seq<Counts>, op: PoolOp) -> bool {
    match op {
        PoolOp::Merge { src, dst } => 0 <= src < pools.len() && 0 <= dst < pools.len() && src
            != dst,
        PoolOp::TakeUpTo { src, dst, count, coalition } => 0 <= src < pools.len() && 0 <= dst
            < pools.len() && src != dst && count >= 0,
        PoolOp::TakeAll { src, dst } => 0 <= src < pools.len() && 0 <= dst < pools.len() && src
            != dst,
    }
}

/// The pool of blocks that an operation moves out of its source.
pub open spec fn pool_op_moved(pools: Seq<Counts>, op: PoolOp) -> Counts {
    match op {
        PoolOp::Merge { src, dst } => pools[src],
        PoolOp::TakeUpTo { src, dst, count, coalition } => Counts::only(
            coalition,
            vstd::math::min(count, pools[src].get(coalition)),
        ),
        PoolOp::TakeAll { src, dst } => pools[src],
    }
}

/// Move `moved` blocks from pool `src` to pool `dst`.
pub open spec fn pool_transfer(pools: Seq<Counts>, src: int, dst: int, moved: Counts) -> Seq<
    Counts,
> {
    pools.update(src, pools[src].minus(moved)).update(dst, pools[dst].plus(moved))
}

/// Apply one operation to the system; an invalid operation changes nothing.
pub open spec fn apply_pool_op(pools: Seq<Counts>, op: PoolOp) -> Seq<Counts> {
    if !pool_op_valid(pools, op) {
        pools
    } else {
        match op {
            PoolOp::Merge { src, dst } => pool_transfer(pools, src, dst, pool_op_moved(pools, op)),
            PoolOp::TakeUpTo { src, dst, count, coalition } => pool_transfer(
                pools,
                src,
                dst,
                pool_op_moved(pools, op),
            ),
            PoolOp::TakeAll { src, dst } => pool_transfer(
                pools,
                src,
                dst,
                pool_op_moved(pools, op),
            ),
        }
    }
}

/// Apply a whole sequence of operations in order.
pub open spec fn apply_pool_ops(pools: Seq<Counts>, ops: Seq<PoolOp>) -> Seq<Counts>
    decreases ops.len(),
{
    if ops.len() == 0 {
        pools
    } else {
        apply_pool_ops(apply_pool_op(pools, ops[0]), ops.drop_first())
    }
}

/// The sum, over every pool of the system, of the count of one coalition.
pub open spec fn system_count(pools: Seq<Counts>, c: Coalition) -> int
    decreases pools.len(),
{
    if pools.len() == 0 {
        0
    } else {
        system_count(pools.drop_last(), c) + pools.last().get(c)
    }
}

/// Every pool of the system holds non-negative counts.
pub open spec fn system_nonneg(pools: Seq<Counts>) -> bool {
    forall|i: int| 0 <= i < pools.len() ==> (#[trigger] pools[i]).nonneg()
}

/// Replacing one pool changes a system count exactly by the difference at
/// that pool.
pub proof fn lemma_system_count_update(pools: Seq<Counts>, i: int, v: Counts, c: Coalition)
    requires
        0 <= i < pools.len(),
    ensures
        system_count(pools.update(i, v), c) == system_count(pools, c) - pools[i].get(c) + v.get(c),
    decreases pools.len(),
{
    let updated = pools.update(i, v);
    if i == pools.len() - 1 {
        assert(updated.drop_last() =~= pools.drop_last());
        assert(updated.last() == v);
    } else {
        assert(updated.drop_last() =~= pools.drop_last().update(i, v));
        assert(updated.last() == pools.last());
        lemma_system_count_update(pools.drop_last(), i, v, c);
    }
}

/// Conservation, one step: no single pool operation changes the system-wide
/// count of any coalition, hence neither the system-wide total.
pub proof fn lemma_pool_op_conserves(pools: Seq<Counts>, op: PoolOp, c: Coalition)
    ensures
        system_count(apply_pool_op(pools, op), c) == system_count(pools, c),
{
    if pool_op_valid(pools, op) {
        let moved = pool_op_moved(pools, op);
        match op {
            PoolOp::Merge { src, dst } => {
                lemma_pool_transfer_conserves(pools, src, dst, moved, c);
            },
            PoolOp::TakeUpTo { src, dst, count, coalition } => {
                lemma_pool_transfer_conserves(pools, src, dst, moved, c);
            },
            PoolOp::TakeAll { src, dst } => {
                lemma_pool_transfer_conserves(pools, src, dst, moved, c);
            },
        }
    }
}

proof fn lemma_pool_transfer_conserves(
    pools: Seq<Counts>,
    src: int,
    dst: int,
    moved: Counts,
    c: Coalition,
)
    requires
        0 <= src < pools.len(),
        0 <= dst < pools.len(),
        src != dst,
    ensures
        system_count(pool_transfer(pools, src, dst, moved), c) == system_count(pools, c),
{
    let mid = pools.update(src, pools[src].minus(moved));
    lemma_system_count_update(pools, src, pools[src].minus(moved), c);
    lemma_system_count_update(mid, dst, pools[dst].plus(moved), c);
    assert(mid[dst] == pools[dst]);
}

/// Conservation: for any sequence of pool operations restricted to merging,
/// bounded extraction and full extraction, the sum of the counts of each
/// coalition across every pool of the system is constant.
pub proof fn lemma_pool_ops_conserve(pools: Seq<Counts>, ops: Seq<PoolOp>, c: Coalition)
    ensures
        system_count(apply_pool_ops(pools, ops), c) == system_count(pools, c),
    decreases ops.len(),
{
    if ops.len() > 0 {
        lemma_pool_op_conserves(pools, ops[0], c);
        lemma_pool_ops_conserve(apply_pool_op(pools, ops[0]), ops.drop_first(), c);
    }
}

/// Non-negativity: no pool operation can drive any category of any pool
/// below zero.
pub proof fn lemma_pool_op_nonneg(pools: Seq<Counts>, op: PoolOp)
    requires
        system_nonneg(pools),
    ensures
        system_nonneg(apply_pool_op(pools, op)),
{
}

/// Non-negativity holds after any sequence of pool operations.
pub proof fn lemma_pool_ops_nonneg(pools: Seq<Counts>, ops: Seq<PoolOp>)
    requires
        system_nonneg(pools),
    ensures
        system_nonneg(apply_pool_ops(pools, ops)),
    decreases ops.len(),
{
    if ops.len() > 0 {
        lemma_pool_op_nonneg(pools, ops[0]);
        lemma_pool_ops_nonneg(apply_pool_op(pools, ops[0]), ops.drop_first());
    }
}

/// A prefix sum never exceeds the full sum when every pool is well formed.
proof fn lemma_sum_counts_prefix(sets: Seq<BlockSet>, i: int)
    requires
        0 <= i < sets.len(),
        forall|j: int| 0 <= j < sets.len() ==> (#[trigger] sets[j]).wf(),
    ensures
        forall|c: Coalition|
            #[trigger] sum_counts(sets.take(i)).get(c) + sets[i]@.get(c) <= sum_counts(sets).get(c),
    decreases sets.len() - i,
{
    assert(sets.take(i + 1).drop_last() =~= sets.take(i));
    assert(sets.take(i + 1).last() == sets[i]);
    assert(sum_counts(sets.take(i + 1)) == sum_counts(sets.take(i)).plus(sets[i]@));
    if i + 1 == sets.len() {
        assert(sets.take(i + 1) =~= sets);
    } else {
        lemma_sum_counts_prefix(sets, i + 1);
        assert forall|c: Coalition|
            #[trigger] sum_counts(sets.take(i)).get(c) + sets[i]@.get(c) <= sum_counts(
                sets,
            ).get(c) by {
            assert(sum_counts(sets.take(i + 1)).get(c) + sets[i + 1]@.get(c) <= sum_counts(
                sets,
            ).get(c));
            assert(sets[i + 1].wf());
            assert(sets[i + 1]@.get(c) >= 0);
        }
    }
}

/// The sum over well-formed pools is itself non-negative.
proof fn lemma_sum_counts_nonneg_prefix(sets: Seq<BlockSet>, i: int)
    requires
        0 <= i <= sets.len(),
        forall|j: int| 0 <= j < sets.len() ==> (#[trigger] sets[j]).wf(),
    ensures
        sum_counts(sets.take(i)).nonneg(),
    decreases i,
{
    if i > 0 {
        lemma_sum_counts_nonneg_prefix(sets, i - 1);
        assert(sets.take(i).drop_last() =~= sets.take(i - 1));
        assert(sets.take(i).last() == sets[i - 1]);
    } else {
        assert(sets.take(0) =~= Seq::<BlockSet>::empty());
    }
}

} // verus!

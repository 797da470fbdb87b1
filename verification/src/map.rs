use vstd::prelude::*;

use crate::blocks::{sum_counts, BlockSet, Counts};
use crate::cylinders::{sum_cylinder_totals, CylinderSet};
use crate::player::ColorTotals;
use crate::primitives::Coalition;

verus! {

/// One of the six regions of the map.
#[derive(Debug, Clone, Copy, PartialEq, Eq, Hash, Structural)]
pub enum Region {
    Transcaspia,
    Persia,
    Herat,
    Kabul,
    Kandahar,
    Punjab,
}

/// How many regions the map has.
pub const REGION_COUNT: usize = 6;

/// How many borders the map has.
pub const BORDER_COUNT: usize = 9;

/// The fixed position of a region in the map's region table.
pub open spec fn region_order(r: Region) -> int {
    match r {
        Region::Transcaspia => 0,
        Region::Persia => 1,
        Region::Herat => 2,
        Region::Kabul => 3,
        Region::Kandahar => 4,
        Region::Punjab => 5,
    }
}

/// The index of a region in the map's region table.
pub fn region_index(r: Region) -> (i: usize)
    ensures
        i == region_order(r),
        i < REGION_COUNT,
{
    match r {
        Region::Transcaspia => 0,
        Region::Persia => 1,
        Region::Herat => 2,
        Region::Kabul => 3,
        Region::Kandahar => 4,
        Region::Punjab => 5,
    }
}

/// A border between two distinct regions, stored in a canonical order so
/// that the same pair always compares equal.
#[derive(Debug, Clone, Copy, PartialEq, Eq, Hash, Structural)]
pub struct Border {
    front: Region,
    back: Region,
}

impl Border {
    /// The first region of the canonical pair.
    pub closed spec fn spec_front(self) -> Region {
        self.front
    }

    /// The second region of the canonical pair.
    pub closed spec fn spec_back(self) -> Region {
        self.back
    }

    /// The two regions are distinct and canonically ordered.
    pub open spec fn wf(self) -> bool {
        region_order(self.spec_front()) < region_order(self.spec_back())
    }

    /// Build the border between two distinct regions, whichever way round
    /// they are given.
    pub fn new(front: Region, back: Region) -> (r: Self)
        requires
            front != back,
        ensures
            r.wf(),
            (r.spec_front() == front && r.spec_back() == back) || (r.spec_front() == back
                && r.spec_back() == front),
    {
        if region_index(front) < region_index(back) {
            Self { front, back }
        } else {
            Self { front: back, back: front }
        }
    }

    /// The first region of the canonical pair.
    pub fn front(&self) -> (r: Region)
        ensures
            r == self.spec_front(),
    {
        self.front
    }

    /// The second region of the canonical pair.
    pub fn back(&self) -> (r: Region)
        ensures
            r == self.spec_back(),
    {
        self.back
    }

    /// Whether this border touches the given region.
    pub fn borders(&self, region: Region) -> (r: bool)
        ensures
            r == (self.spec_front() == region || self.spec_back() == region),
    {
        self.front == region || self.back == region
    }
}

/// What stands in a region: army blocks per coalition and tribe cylinders
/// per player.
#[derive(Clone, Copy)]
pub struct RegionOccupants {
    pub armies: BlockSet,
    pub tribes: CylinderSet,
}

/// What stands on a border: road blocks per coalition.
#[derive(Clone, Copy)]
pub struct BorderOccupants {
    pub roads: BlockSet,
}

/// The fixed list of borders of the map, in table order.
pub closed spec fn standard_borders() -> Seq<Border> {
    seq![
        Border { front: Region::Transcaspia, back: Region::Persia },
        Border { front: Region::Transcaspia, back: Region::Herat },
        Border { front: Region::Transcaspia, back: Region::Kabul },
        Border { front: Region::Persia, back: Region::Herat },
        Border { front: Region::Herat, back: Region::Kabul },
        Border { front: Region::Herat, back: Region::Kandahar },
        Border { front: Region::Kabul, back: Region::Kandahar },
        Border { front: Region::Kabul, back: Region::Punjab },
        Border { front: Region::Kandahar, back: Region::Punjab },
    ]
}

/// The map: every region's and border's occupants.
pub struct GameMap {
    regions: Vec<RegionOccupants>,
    borders: Vec<(Border, BorderOccupants)>,
}

impl GameMap {
    /// The army pools of the regions, in table order.
    pub closed spec fn spec_army_sets(self) -> Seq<BlockSet> {
        self.regions@.map_values(|ro: RegionOccupants| ro.armies)
    }

    /// The road pools of the borders, in table order.
    pub closed spec fn spec_road_sets(self) -> Seq<BlockSet> {
        self.borders@.map_values(|b: (Border, BorderOccupants)| b.1.roads)
    }

    /// The borders of the map, in table order.
    pub closed spec fn spec_border_list(self) -> Seq<Border> {
        self.borders@.map_values(|b: (Border, BorderOccupants)| b.0)
    }

    /// Every block pool of the map: armies first, then roads.
    pub open spec fn spec_block_sets(self) -> Seq<BlockSet> {
        self.spec_army_sets() + self.spec_road_sets()
    }

    /// The tribe pools of the regions, in table order.
    pub closed spec fn spec_tribe_sets(self) -> Seq<CylinderSet> {
        self.regions@.map_values(|ro: RegionOccupants| ro.tribes)
    }

    /// How many blocks of one coalition stand anywhere on the map.
    pub open spec fn spec_block_total(self, c: Coalition) -> int {
        sum_counts(self.spec_block_sets()).get(c)
    }

    /// The army pool of one region.
    pub closed spec fn spec_armies(self, r: Region) -> BlockSet {
        self.regions@[region_order(r)].armies
    }

    /// The tribe pool of one region.
    pub closed spec fn spec_tribes(self, r: Region) -> CylinderSet {
        self.regions@[region_order(r)].tribes
    }

    /// The map always has its six regions and nine canonical borders, and
    /// every pool on it is well formed.
    pub closed spec fn wf(self) -> bool {
        &&& self.regions@.len() == REGION_COUNT
        &&& self.borders@.len() == BORDER_COUNT
        &&& forall|i: int|
            0 <= i < self.regions@.len() ==> (#[trigger] self.regions@[i]).armies.wf()
                && self.regions@[i].tribes.wf()
        &&& forall|i: int|
            0 <= i < self.borders@.len() ==> (#[trigger] self.borders@[i]).1.roads.wf()
        &&& self.spec_border_list() == standard_borders()
    }

    /// The shape of a well-formed map: how the per-region spec views line
    /// up with the pool tables.
    pub proof fn lemma_shape(self, r: Region)
        requires
            self.wf(),
        ensures
            self.spec_army_sets().len() == REGION_COUNT,
            self.spec_road_sets().len() == BORDER_COUNT,
            self.spec_tribe_sets().len() == REGION_COUNT,
            self.spec_army_sets()[region_order(r)] == self.spec_armies(r),
            self.spec_tribe_sets()[region_order(r)] == self.spec_tribes(r),
            self.spec_armies(r).wf(),
            self.spec_tribes(r).wf(),
            forall|i: int|
                0 <= i < self.spec_army_sets().len() ==> (#[trigger] self.spec_army_sets()[i]).wf(),
            forall|i: int|
                0 <= i < self.spec_road_sets().len() ==> (#[trigger] self.spec_road_sets()[i]).wf(),
            forall|i: int|
                0 <= i < self.spec_tribe_sets().len() ==> (#[trigger] self.spec_tribe_sets()[i]).wf(),
    {
        assert forall|i: int|
            0 <= i < self.spec_army_sets().len() implies (#[trigger] self.spec_army_sets()[i]).wf()
            by {
            assert(self.spec_army_sets()[i] == self.regions@[i].armies);
        }
        assert forall|i: int|
            0 <= i < self.spec_road_sets().len() implies (#[trigger] self.spec_road_sets()[i]).wf()
            by {
            assert(self.spec_road_sets()[i] == self.borders@[i].1.roads);
        }
        assert forall|i: int|
            0 <= i < self.spec_tribe_sets().len() implies (
        #[trigger] self.spec_tribe_sets()[i]).wf() by {
            assert(self.spec_tribe_sets()[i] == self.regions@[i].tribes);
        }
    }

    /// A fresh map: all regions and borders empty.
    pub fn new() -> (r: Self)
        ensures
            r.wf(),
            forall|i: int|
                0 <= i < r.spec_block_sets().len() ==> (#[trigger] r.spec_block_sets()[i])@
                    == Counts::zero(),
            forall|i: int|
                0 <= i < r.spec_tribe_sets().len() ==> (#[trigger] r.spec_tribe_sets()[i])@
                    == ColorTotals::zero(),
            forall|c: Coalition| r.spec_block_total(c) == 0,
    {
        let mut regions: Vec<RegionOccupants> = Vec::new();
        let mut i: usize = 0;
        while i < REGION_COUNT
            invariant
                0 <= i <= REGION_COUNT,
                regions@.len() == i,
                forall|j: int|
                    0 <= j < i ==> (#[trigger] regions@[j]).armies@ == Counts::zero() && regions@[j].tribes@
                        == ColorTotals::zero(),
            decreases REGION_COUNT - i,
        {
            regions.push(RegionOccupants { armies: BlockSet::empty(), tribes: CylinderSet::new() });
            i = i + 1;
        }
        let mut borders: Vec<(Border, BorderOccupants)> = Vec::new();
        borders.push(
            (
                Border::new(Region::Transcaspia, Region::Persia),
                BorderOccupants { roads: BlockSet::empty() },
            ),
        );
        borders.push(
            (
                Border::new(Region::Transcaspia, Region::Herat),
                BorderOccupants { roads: BlockSet::empty() },
            ),
        );
        borders.push(
            (
                Border::new(Region::Transcaspia, Region::Kabul),
                BorderOccupants { roads: BlockSet::empty() },
            ),
        );
        borders.push(
            (
                Border::new(Region::Persia, Region::Herat),
                BorderOccupants { roads: BlockSet::empty() },
            ),
        );
        borders.push(
            (
                Border::new(Region::Herat, Region::Kabul),
                BorderOccupants { roads: BlockSet::empty() },
            ),
        );
        borders.push(
            (
                Border::new(Region::Herat, Region::Kandahar),
                BorderOccupants { roads: BlockSet::empty() },
            ),
        );
        borders.push(
            (
                Border::new(Region::Kabul, Region::Kandahar),
                BorderOccupants { roads: BlockSet::empty() },
            ),
        );
        borders.push(
            (
                Border::new(Region::Kabul, Region::Punjab),
                BorderOccupants { roads: BlockSet::empty() },
            ),
        );
        borders.push(
            (
                Border::new(Region::Kandahar, Region::Punjab),
                BorderOccupants { roads: BlockSet::empty() },
            ),
        );
        let r = GameMap { regions, borders };
        proof {
            assert(r.borders@.map_values(|b: (Border, BorderOccupants)| b.0) =~= standard_borders());
            assert forall|i2: int| 0 <= i2 < r.spec_block_sets().len() implies (
            #[trigger] r.spec_block_sets()[i2])@ == Counts::zero() by {
                if i2 < r.spec_army_sets().len() {
                    assert(r.spec_block_sets()[i2] == r.spec_army_sets()[i2]);
                } else {
                    assert(r.spec_block_sets()[i2] == r.spec_road_sets()[i2
                        - r.spec_army_sets().len()]);
                }
            }
            crate::blocks::lemma_sum_counts_zero(r.spec_block_sets());
        }
        r
    }

    /// The army pool standing in one region.
    pub fn armies(&self, region: Region) -> (r: BlockSet)
        requires
            self.wf(),
        ensures
            r == self.spec_armies(region),
    {
        self.regions[region_index(region)].armies
    }

    /// The tribe pool standing in one region.
    pub fn tribes(&self, region: Region) -> (r: CylinderSet)
        requires
            self.wf(),
        ensures
            r == self.spec_tribes(region),
    {
        self.regions[region_index(region)].tribes
    }

    /// Merge army blocks into one region's pool.
    pub fn add_armies(&mut self, region: Region, armies: BlockSet)
        requires
            old(self).wf(),
            armies.wf(),
            forall|c: Coalition|
                #[trigger] old(self).spec_armies(region)@.get(c) + armies@.get(c) <= i8::MAX,
        ensures
            final(self).wf(),
            final(self).spec_army_sets() == old(self).spec_army_sets().update(
                region_order(region),
                final(self).spec_armies(region),
            ),
            final(self).spec_armies(region)@ == old(self).spec_armies(region)@.plus(armies@),
            final(self).spec_tribe_sets() == old(self).spec_tribe_sets(),
            final(self).spec_road_sets() == old(self).spec_road_sets(),
            final(self).spec_border_list() == old(self).spec_border_list(),
    {
        let i = region_index(region);
        proof {
            assert(old(self).spec_armies(region) == old(self).regions@[i as int].armies);
            assert forall|c: Coalition|
                old(self).regions@[i as int].armies@.get(c) + armies@.get(c) <= i8::MAX by {
                assert(old(self).spec_armies(region)@.get(c) + armies@.get(c) <= i8::MAX);
            }
        }
        self.regions[i].armies.add(armies);
        proof {
            assert(final(self).spec_army_sets() =~= old(self).spec_army_sets().update(
                region_order(region),
                final(self).spec_armies(region),
            ));
            assert(final(self).spec_tribe_sets() =~= old(self).spec_tribe_sets());
            assert(final(self).spec_road_sets() =~= old(self).spec_road_sets());
            assert(final(self).spec_border_list() =~= old(self).spec_border_list());
        }
    }

    /// Merge tribe cylinders of one player into one region's pool.
    pub fn add_tribes(&mut self, region: Region, player: crate::player::Color, count: i8)
        requires
            old(self).wf(),
            count >= 0,
            old(self).spec_tribes(region)@.get(player) + count <= i8::MAX,
        ensures
            final(self).wf(),
            final(self).spec_tribe_sets() == old(self).spec_tribe_sets().update(
                region_order(region),
                final(self).spec_tribes(region),
            ),
            final(self).spec_tribes(region)@ == old(self).spec_tribes(region)@.update(
                player,
                old(self).spec_tribes(region)@.get(player) + count,
            ),
            final(self).spec_army_sets() == old(self).spec_army_sets(),
            final(self).spec_road_sets() == old(self).spec_road_sets(),
            final(self).spec_border_list() == old(self).spec_border_list(),
    {
        let i = region_index(region);
        self.regions[i].tribes.add_count(player, count);
        proof {
            assert(final(self).spec_tribe_sets() =~= old(self).spec_tribe_sets().update(
                region_order(region),
                final(self).spec_tribes(region),
            ));
            assert(final(self).spec_army_sets() =~= old(self).spec_army_sets());
            assert(final(self).spec_road_sets() =~= old(self).spec_road_sets());
            assert(final(self).spec_border_list() =~= old(self).spec_border_list());
        }
    }

    /// Merge road blocks into one border's pool.
    pub fn add_roads(&mut self, index: usize, roads: BlockSet)
        requires
            old(self).wf(),
            index < BORDER_COUNT,
            roads.wf(),
            forall|c: Coalition|
                #[trigger] old(self).spec_road_sets()[index as int]@.get(c) + roads@.get(c)
                    <= i8::MAX,
        ensures
            final(self).wf(),
            final(self).spec_road_sets() == old(self).spec_road_sets().update(
                index as int,
                final(self).spec_road_sets()[index as int],
            ),
            final(self).spec_road_sets()[index as int]@ == old(self).spec_road_sets()[index as int]@.plus(
                roads@,
            ),
            final(self).spec_army_sets() == old(self).spec_army_sets(),
            final(self).spec_tribe_sets() == old(self).spec_tribe_sets(),
            final(self).spec_border_list() == old(self).spec_border_list(),
    {
        proof {
            assert(old(self).spec_road_sets()[index as int] == old(self).borders@[index as int].1.roads);
            assert forall|c: Coalition|
                old(self).borders@[index as int].1.roads@.get(c) + roads@.get(c) <= i8::MAX by {
                assert(old(self).spec_road_sets()[index as int]@.get(c) + roads@.get(c)
                    <= i8::MAX);
            }
        }
        self.borders[index].1.roads.add(roads);
        proof {
            assert(final(self).spec_road_sets() =~= old(self).spec_road_sets().update(
                index as int,
                final(self).spec_road_sets()[index as int],
            ));
            assert(final(self).spec_army_sets() =~= old(self).spec_army_sets());
            assert(final(self).spec_tribe_sets() =~= old(self).spec_tribe_sets());
            assert(final(self).spec_border_list() =~= standard_borders());
        }
    }

    /// Count all the blocks on the map, region armies and border roads
    /// together.
    pub fn total_block_counts(&self) -> (r: BlockSet)
        requires
            self.wf(),
            forall|c: Coalition| #[trigger] self.spec_block_total(c) <= i8::MAX,
        ensures
            r@ == sum_counts(self.spec_block_sets()),
            r.wf(),
    {
        let mut sets: Vec<BlockSet> = Vec::new();
        let mut i: usize = 0;
        while i < self.regions.len()
            invariant
                0 <= i <= self.regions@.len(),
                sets@ =~= self.spec_army_sets().take(i as int),
            decreases self.regions@.len() - i,
        {
            sets.push(self.regions[i].armies);
            i = i + 1;
        }
        let mut j: usize = 0;
        while j < self.borders.len()
            invariant
                0 <= j <= self.borders@.len(),
                sets@ =~= self.spec_army_sets() + self.spec_road_sets().take(j as int),
            decreases self.borders@.len() - j,
        {
            sets.push(self.borders[j].1.roads);
            j = j + 1;
        }
        proof {
            assert(sets@ =~= self.spec_block_sets());
            assert forall|k: int| 0 <= k < sets@.len() implies (#[trigger] sets@[k]).wf() by {
                if k < self.spec_army_sets().len() {
                    assert(sets@[k] == self.regions@[k].armies);
                } else {
                    assert(sets@[k] == self.borders@[k - self.spec_army_sets().len()].1.roads);
                }
            }
            assert forall|c: Coalition| sum_counts(sets@).get(c) <= i8::MAX by {
                assert(self.spec_block_total(c) <= i8::MAX);
            }
        }
        BlockSet::sum(&sets)
    }

    /// Count all the tribes on the map, per player color.
    pub fn total_tribe_counts(&self) -> (r: crate::player::ColorCounts)
        requires
            self.wf(),
            forall|p: crate::player::Color|
                #[trigger] sum_cylinder_totals(self.spec_tribe_sets()).get(p) <= i8::MAX,
        ensures
            r@ == sum_cylinder_totals(self.spec_tribe_sets()),
            r@.nonneg(),
    {
        let mut sets: Vec<CylinderSet> = Vec::new();
        let mut i: usize = 0;
        while i < self.regions.len()
            invariant
                0 <= i <= self.regions@.len(),
                sets@ =~= self.spec_tribe_sets().take(i as int),
            decreases self.regions@.len() - i,
        {
            sets.push(self.regions[i].tribes);
            i = i + 1;
        }
        proof {
            assert(sets@ =~= self.spec_tribe_sets());
        }
        CylinderSet::sum(&sets)
    }

    /// Remove every block from every region and border, and return them
    /// all merged into a single pool, ready for the bank to absorb.
    pub fn clear_blocks(&mut self) -> (taken: BlockSet)
        requires
            old(self).wf(),
            forall|c: Coalition| #[trigger] old(self).spec_block_total(c) <= i8::MAX,
        ensures
            final(self).wf(),
            taken.wf(),
            taken@ == sum_counts(old(self).spec_block_sets()),
            forall|c: Coalition| #[trigger] final(self).spec_block_total(c) == 0,
            forall|i: int|
                0 <= i < final(self).spec_army_sets().len() ==> (#[trigger] final(self).spec_army_sets()[i])@
                    == Counts::zero(),
            forall|i: int|
                0 <= i < final(self).spec_road_sets().len() ==> (#[trigger] final(self).spec_road_sets()[i])@
                    == Counts::zero(),
            final(self).spec_army_sets().len() == old(self).spec_army_sets().len(),
            final(self).spec_road_sets().len() == old(self).spec_road_sets().len(),
            final(self).spec_tribe_sets() == old(self).spec_tribe_sets(),
            final(self).spec_border_list() == old(self).spec_border_list(),
    {
        let taken = self.total_block_counts();
        let ghost pre = *self;
        let mut regions: Vec<RegionOccupants> = Vec::new();
        let mut i: usize = 0;
        while i < self.regions.len()
            invariant
                0 <= i <= self.regions@.len(),
                *self == pre,
                regions@.len() == i,
                forall|j: int|
                    0 <= j < i ==> (#[trigger] regions@[j]).armies@ == Counts::zero() && regions@[j].tribes
                        == pre.regions@[j].tribes,
                forall|j: int| 0 <= j < i ==> (#[trigger] regions@[j]).tribes.wf(),
                pre == *old(self),
                pre.wf(),
            decreases self.regions@.len() - i,
        {
            proof {
                assert(pre.regions@[i as int].tribes.wf());
            }
            regions.push(
                RegionOccupants { armies: BlockSet::empty(), tribes: self.regions[i].tribes },
            );
            i = i + 1;
        }
        let mut borders: Vec<(Border, BorderOccupants)> = Vec::new();
        let mut j: usize = 0;
        while j < self.borders.len()
            invariant
                0 <= j <= self.borders@.len(),
                *self == pre,
                borders@.len() == j,
                forall|k: int|
                    0 <= k < j ==> (#[trigger] borders@[k]).1.roads@ == Counts::zero()
                        && borders@[k].0 == pre.borders@[k].0,
            decreases self.borders@.len() - j,
        {
            borders.push((self.borders[j].0, BorderOccupants { roads: BlockSet::empty() }));
            j = j + 1;
        }
        self.regions = regions;
        self.borders = borders;
        proof {
            assert(final(self).borders@.map_values(|b: (Border, BorderOccupants)| b.0)
                =~= standard_borders());
            assert forall|i2: int| 0 <= i2 < final(self).spec_block_sets().len() implies (
            #[trigger] final(self).spec_block_sets()[i2])@ == Counts::zero() by {
                if i2 < final(self).spec_army_sets().len() {
                    assert(final(self).spec_block_sets()[i2] == final(self).spec_army_sets()[i2]);
                } else {
                    assert(final(self).spec_block_sets()[i2] == final(self).spec_road_sets()[i2
                        - final(self).spec_army_sets().len()]);
                }
            }
            crate::blocks::lemma_sum_counts_zero(final(self).spec_block_sets());
            assert(final(self).spec_tribe_sets() =~= old(self).spec_tribe_sets());
        }
        taken
    }
}

} // verus!

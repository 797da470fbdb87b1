use vstd::prelude::*;

use crate::blocks::{
    lemma_sum_counts_append, lemma_sum_counts_nonneg, lemma_sum_counts_views,
    lemma_sum_counts_zero, lemma_system_count_update, sum_counts, system_count, views_of, BlockSet,
    Counts,
};
use crate::cards::Card;
use crate::cylinders::{sum_cylinder_totals, CylinderSet};
use crate::map::{region_order, Region, REGION_COUNT};
use crate::player::{self, Color, ColorCounts, Player, PlayerState};
use crate::primitives::Coalition;
use crate::score;

use super::{Effects, Game};

verus! {

/// The end-of-game signal: the winning player.
#[derive(Debug, Clone, Copy, PartialEq, Eq, Structural)]
pub struct GameOver {
    pub winner: Color,
}

/// How many dominance trigger cards rest in a discard pile.
pub open spec fn count_dominance(s: Seq<Card>) -> int
    decreases s.len(),
{
    if s.len() == 0 {
        0
    } else {
        count_dominance(s.drop_last()) + if s.last().spec_is_dominance() {
            1int
        } else {
            0int
        }
    }
}

fn count_dominance_cards(discard: &Vec<Card>) -> (n: usize)
    ensures
        n == count_dominance(discard@),
        n <= discard@.len(),
{
    let mut n: usize = 0;
    let mut i: usize = 0;
    while i < discard.len()
        invariant
            0 <= i <= discard@.len(),
            n == count_dominance(discard@.take(i as int)),
            n <= i,
        decreases discard@.len() - i,
    {
        proof {
            assert(discard@.take(i + 1).drop_last() =~= discard@.take(i as int));
            assert(discard@.take(i + 1).last() == discard@[i as int]);
        }
        if discard[i].is_dominance() {
            n = n + 1;
        }
        i = i + 1;
    }
    proof {
        assert(discard@.take(discard@.len() as int) =~= discard@);
    }
    n
}

/// How many more blocks the leading coalition needs than the runner-up to
/// achieve military dominance.
pub open spec fn spec_threshold(effects: Effects) -> int {
    if effects.conflict_fatigue {
        2
    } else {
        4
    }
}

/// The largest of three values.
pub open spec fn max3(x: int, y: int, z: int) -> int {
    if x >= y && x >= z {
        x
    } else if y >= z {
        y
    } else {
        z
    }
}

/// The smallest of three values.
pub open spec fn min3(x: int, y: int, z: int) -> int {
    if x <= y && x <= z {
        x
    } else if y <= z {
        y
    } else {
        z
    }
}

/// The middle of three values.
pub open spec fn mid3(x: int, y: int, z: int) -> int {
    x + y + z - max3(x, y, z) - min3(x, y, z)
}

/// The gap between the strongest coalition and the runner-up.
pub open spec fn spec_superiority(t: Counts) -> int {
    max3(t.britain, t.russia, t.afghanistan) - mid3(t.britain, t.russia, t.afghanistan)
}

/// The coalition holding the most blocks (the first in table order on a
/// tie, which never decides a dominance check: a tie has no superiority).
pub open spec fn spec_dominant(t: Counts) -> Coalition {
    if t.britain >= t.russia && t.britain >= t.afghanistan {
        Coalition::Britain
    } else if t.russia >= t.afghanistan {
        Coalition::Russia
    } else {
        Coalition::Afghanistan
    }
}

/// Decide a dominance check from the coalitions' block totals: the leader
/// dominates exactly when its lead over the runner-up reaches the
/// threshold, which conflict fatigue lowers from four to two.
pub fn check_dominance(totals: &BlockSet, conflict_fatigue: bool) -> (r: Option<Coalition>)
    requires
        totals.wf(),
    ensures
        ({
            let thr = if conflict_fatigue {
                2int
            } else {
                4int
            };
            &&& (r is Some <==> spec_superiority(totals@) >= thr)
            &&& (r matches Some(c) ==> c == spec_dominant(totals@) && forall|o: Coalition|
                o != c ==> totals@.get(c) >= #[trigger] totals@.get(o) + thr)
        }),
{
    let b = totals.count(Coalition::Britain);
    let ru = totals.count(Coalition::Russia);
    let a = totals.count(Coalition::Afghanistan);
    let dominant: Coalition;
    let top: i8;
    let second: i8;
    if b >= ru && b >= a {
        dominant = Coalition::Britain;
        top = b;
        second = if ru >= a {
            ru
        } else {
            a
        };
    } else if ru >= a {
        dominant = Coalition::Russia;
        top = ru;
        second = if b >= a {
            b
        } else {
            a
        };
    } else {
        dominant = Coalition::Afghanistan;
        top = a;
        second = if b >= ru {
            b
        } else {
            ru
        };
    }
    let threshold: i8 = if conflict_fatigue {
        2
    } else {
        4
    };
    if top - second >= threshold {
        Some(dominant)
    } else {
        None
    }
}

/// Place up to two reinforcement blocks of coalition `c` from the bank
/// onto region `r`: the bank can only give what it holds.
pub open spec fn reinforce_step(bank: Counts, armies: Seq<Counts>, r: Region, c: Coalition) -> (
    Counts,
    Seq<Counts>,
) {
    let amount = vstd::math::min(2, bank.get(c));
    let i = region_order(r);
    (
        bank.update(c, bank.get(c) - amount),
        armies.update(i, armies[i].update(c, armies[i].get(c) + amount)),
    )
}

/// Work through a whole list of reinforcement orders, in order.
pub open spec fn place_reinforcements(
    bank: Counts,
    armies: Seq<Counts>,
    list: Seq<(Region, Coalition)>,
) -> (Counts, Seq<Counts>)
    decreases list.len(),
{
    if list.len() == 0 {
        (bank, armies)
    } else {
        let step = reinforce_step(bank, armies, list[0].0, list[0].1);
        place_reinforcements(step.0, step.1, list.drop_first())
    }
}

/// Appending one order to a reinforcement list applies it last.
proof fn lemma_place_snoc(
    bank: Counts,
    armies: Seq<Counts>,
    list: Seq<(Region, Coalition)>,
    e: (Region, Coalition),
)
    ensures
        place_reinforcements(bank, armies, list.push(e)) == ({
            let mid = place_reinforcements(bank, armies, list);
            reinforce_step(mid.0, mid.1, e.0, e.1)
        }),
    decreases list.len(),
{
    if list.len() == 0 {
        assert(list.push(e)[0] == e);
        assert(list.push(e).drop_first() =~= Seq::<(Region, Coalition)>::empty());
        let step = reinforce_step(bank, armies, e.0, e.1);
        assert(place_reinforcements(step.0, step.1, list.push(e).drop_first()) == (
            step.0,
            step.1,
        ));
    } else {
        assert(list.push(e)[0] == list[0]);
        assert(list.push(e).drop_first() =~= list.drop_first().push(e));
        let step = reinforce_step(bank, armies, list[0].0, list[0].1);
        lemma_place_snoc(step.0, step.1, list.drop_first(), e);
        assert(place_reinforcements(bank, armies, list.push(e)) == place_reinforcements(
            step.0,
            step.1,
            list.drop_first().push(e),
        ));
        assert(place_reinforcements(bank, armies, list) == place_reinforcements(
            step.0,
            step.1,
            list.drop_first(),
        ));
    }
}

/// The sum over a system of all-zero pools is zero.
proof fn lemma_system_count_zeros(pools: Seq<Counts>, c: Coalition)
    requires
        forall|i: int| 0 <= i < pools.len() ==> (#[trigger] pools[i]) == Counts::zero(),
    ensures
        system_count(pools, c) == 0,
    decreases pools.len(),
{
    if pools.len() > 0 {
        lemma_system_count_zeros(pools.drop_last(), c);
    }
}

/// The sum over a system of non-negative pools is non-negative.
proof fn lemma_system_count_nonneg(pools: Seq<Counts>, c: Coalition)
    requires
        forall|i: int| 0 <= i < pools.len() ==> (#[trigger] pools[i]).nonneg(),
    ensures
        system_count(pools, c) >= 0,
    decreases pools.len(),
{
    if pools.len() > 0 {
        lemma_system_count_nonneg(pools.drop_last(), c);
    }
}

/// No single pool exceeds the system-wide sum when all are non-negative.
proof fn lemma_system_count_element(pools: Seq<Counts>, i: int, c: Coalition)
    requires
        0 <= i < pools.len(),
        forall|j: int| 0 <= j < pools.len() ==> (#[trigger] pools[j]).nonneg(),
    ensures
        pools[i].get(c) <= system_count(pools, c),
    decreases pools.len(),
{
    if i == pools.len() - 1 {
        lemma_system_count_nonneg(pools.drop_last(), c);
    } else {
        lemma_system_count_element(pools.drop_last(), i, c);
        assert(pools.drop_last()[i] == pools[i]);
        assert(pools.last().nonneg());
    }
}

/// Placing reinforcements moves blocks from the bank to the map and
/// nothing else: the combined count of every coalition is conserved, and
/// no pool goes negative.
proof fn lemma_place_properties(
    bank: Counts,
    armies: Seq<Counts>,
    list: Seq<(Region, Coalition)>,
    c: Coalition,
)
    requires
        bank.nonneg(),
        forall|i: int| 0 <= i < armies.len() ==> (#[trigger] armies[i]).nonneg(),
        armies.len() == REGION_COUNT,
    ensures
        ({
            let end = place_reinforcements(bank, armies, list);
            &&& end.0.get(c) + system_count(end.1, c) == bank.get(c) + system_count(armies, c)
            &&& end.0.nonneg()
            &&& forall|i: int| 0 <= i < end.1.len() ==> (#[trigger] end.1[i]).nonneg()
            &&& end.1.len() == REGION_COUNT
        }),
    decreases list.len(),
{
    if list.len() > 0 {
        let r = list[0].0;
        let cc = list[0].1;
        let i = region_order(r);
        let step = reinforce_step(bank, armies, r, cc);
        lemma_system_count_update(armies, i, armies[i].update(cc, armies[i].get(cc) + vstd::math::min(2, bank.get(cc))), c);
        lemma_place_properties(step.0, step.1, list.drop_first(), c);
    }
}

impl Game {
    /// The per-coalition block totals across the whole map.
    pub open spec fn spec_totals(self) -> Counts {
        sum_counts(self.map.spec_block_sets())
    }

    /// Whether the next dominance check is the game's final one: four
    /// trigger cards already rest in the discard pile.
    pub open spec fn spec_is_final_check(self) -> bool {
        count_dominance(self.discard@) == 4
    }

    /// Whether a dominance check resolves as a military dominance.
    pub open spec fn spec_branch_a(self) -> bool {
        spec_superiority(self.spec_totals()) >= spec_threshold(self.effects)
    }

    /// The coalition that dominates when one does.
    pub open spec fn spec_dominant_coalition(self) -> Coalition {
        spec_dominant(self.spec_totals())
    }

    /// The per-color totals of tribes standing on the map.
    pub open spec fn spec_tribe_totals(self) -> player::ColorTotals {
        sum_cylinder_totals(self.map.spec_tribe_sets())
    }

    /// The per-color totals of spies resting in every court.
    pub open spec fn spec_spy_totals(self) -> player::ColorTotals {
        sum_cylinder_totals(player::spec_spy_sets(self.players.spec_players()))
    }

    /// The points a dominance check awards to one player: under a military
    /// dominance, the dominant coalition's loyal players are ranked by
    /// influence against the block schedule; otherwise every player is
    /// ranked by tribes, spies and gifts against the cylinder schedule.
    /// The final check doubles either schedule.
    pub open spec fn spec_check_award(self, p: Color) -> int {
        if self.spec_branch_a() {
            score::seq_award(
                score::block_buckets(self.spec_is_final_check()),
                player::spec_influence_tallies(
                    self.players.spec_players(),
                    self.spec_dominant_coalition(),
                    self.effects,
                ),
                p,
            )
        } else {
            score::seq_award(
                score::cylinder_buckets(self.spec_is_final_check()),
                player::spec_cylinder_tallies(
                    self.players.spec_players(),
                    self.spec_tribe_totals(),
                    self.spec_spy_totals(),
                ),
                p,
            )
        }
    }

    /// The bank as reinforcement placement starts: under a military
    /// dominance every block on the map has just come home.
    pub open spec fn spec_start_bank(self) -> Counts {
        if self.spec_branch_a() {
            self.blocks@.plus(self.spec_totals())
        } else {
            self.blocks@
        }
    }

    /// The region armies as reinforcement placement starts.
    pub open spec fn spec_start_armies(self) -> Seq<Counts> {
        if self.spec_branch_a() {
            Seq::new(REGION_COUNT as nat, |i: int| Counts::zero())
        } else {
            views_of(self.map.spec_army_sets())
        }
    }

    /// The whole-game arithmetic bounds a dominance check needs.
    pub open spec fn dominance_check_ready(self) -> bool {
        &&& self.map.wf()
        &&& self.players.wf()
        &&& self.blocks.wf()
        &&& forall|c: Coalition|
            #[trigger] self.blocks@.get(c) + self.spec_totals().get(c) <= i8::MAX
        &&& forall|i: int|
            0 <= i < self.players.spec_players().len() ==> player::influence_bounds(
                (#[trigger] self.players.spec_players()[i]).state,
            )
        &&& forall|p: Color| #[trigger] self.spec_tribe_totals().get(p) <= i8::MAX
        &&& forall|p: Color| #[trigger] self.spec_spy_totals().get(p) <= i8::MAX
        &&& forall|i: int|
            0 <= i < self.players.spec_players().len() ==> (#[trigger] self.players.spec_players()[i]).state.gifts.spec_count()
                + self.spec_tribe_totals().get(self.players.spec_players()[i].color)
                + self.spec_spy_totals().get(self.players.spec_players()[i].color) <= i8::MAX
        &&& forall|i: int|
            0 <= i < self.players.spec_players().len() ==> (#[trigger] self.players.spec_players()[i]).state.score
                + 18 <= i8::MAX
    }

    /// Resolve a dominance check. Run this method *after* discarding the
    /// triggering dominance card, as it examines the discard pile to
    /// determine whether this is the final check.
    ///
    /// All its phases run as one unit of work: count the blocks on the
    /// map, decide the branch, score the right tallies with the right
    /// bucket schedule, add the awards to the cumulative scores, reset
    /// every event-card effect, and let each insurrection card place up to
    /// two reinforcement blocks from the bank on its region.
    /// Count the blocks, decide the branch, and compute every player's
    /// award; under a military dominance this also returns every map block
    /// to the bank. The scores are returned for the caller to apply.
    fn score_check(&mut self, final_check: bool, decision: Option<Coalition>, Ghost(g0): Ghost<
        Game,
    >) -> (scores: ColorCounts)
        requires
            g0.dominance_check_ready(),
            *old(self) == g0,
            final_check == g0.spec_is_final_check(),
            (decision is Some) == g0.spec_branch_a(),
            decision matches Some(c) ==> c == g0.spec_dominant_coalition(),
        ensures
            forall|p: Color| #[trigger] scores@.get(p) == g0.spec_check_award(p),
            scores@.nonneg(),
            forall|p: Color| #[trigger] scores@.get(p) <= 18,
            final(self).blocks@ == g0.spec_start_bank(),
            views_of(final(self).map.spec_army_sets()) == g0.spec_start_armies(),
            final(self).map.wf(),
            final(self).blocks.wf(),
            g0.spec_branch_a() ==> forall|i: int|
                0 <= i < final(self).map.spec_road_sets().len() ==> (#[trigger] final(self).map.spec_road_sets()[i])@
                    == Counts::zero(),
            !g0.spec_branch_a() ==> final(self).map.spec_road_sets() == g0.map.spec_road_sets(),
            final(self).map.spec_tribe_sets() == g0.map.spec_tribe_sets(),
            final(self).map.spec_border_list() == g0.map.spec_border_list(),
            final(self).players == g0.players,
            final(self).effects == g0.effects,
            final(self).discard == g0.discard,
            final(self).climate == g0.climate,
            final(self).market == g0.market,
            final(self).turn == g0.turn,
    {
        match decision {
            Some(dominant) => {
                // Military dominance: all map blocks go home, and the
                // dominant coalition's loyal players score for influence.
                proof {
                    assert forall|c: Coalition| #[trigger] g0.map.spec_block_total(c)
                        <= i8::MAX by {
                        assert(g0.blocks@.get(c) + g0.spec_totals().get(c) <= i8::MAX);
                        assert(g0.blocks@.get(c) >= 0);
                    }
                }
                let cleared = self.map.clear_blocks();
                proof {
                    assert forall|c: Coalition|
                        self.blocks@.get(c) + cleared@.get(c) <= i8::MAX by {
                        assert(g0.blocks@.get(c) + g0.spec_totals().get(c) <= i8::MAX);
                    }
                }
                self.blocks.add(cleared);
                proof {
                    assert(self.blocks@ == g0.spec_start_bank());
                    self.map.lemma_shape(Region::Transcaspia);
                    assert(views_of(self.map.spec_army_sets()) =~= g0.spec_start_armies());
                }
                let tallies = self.players.influence_tallies(dominant, &self.effects);
                score::compute_block_scores(&tallies, final_check)
            },
            None => {
                // No dominance: every player scores for tribes, spies and
                // gifts.
                proof {
                    assert forall|p: Color|
                        #[trigger] sum_cylinder_totals(self.map.spec_tribe_sets()).get(p)
                            <= i8::MAX by {
                        assert(g0.spec_tribe_totals().get(p) <= i8::MAX);
                    }
                }
                let tribes = self.map.total_tribe_counts();
                let spy_sets = self.players.spy_sets();
                proof {
                    assert forall|p: Color|
                        #[trigger] sum_cylinder_totals(spy_sets@).get(p) <= i8::MAX by {
                        assert(g0.spec_spy_totals().get(p) <= i8::MAX);
                    }
                }
                let spies = CylinderSet::sum(&spy_sets);
                let tallies = self.players.cylinder_tallies(&tribes, &spies);
                score::compute_cylinder_scores(&tallies, final_check)
            },
        }
    }

    /// Resolve a dominance check. Run this method *after* discarding the
    /// triggering dominance card, as it examines the discard pile to
    /// determine whether this is the final check.
    ///
    /// All its phases run as one unit of work: count the blocks on the
    /// map, decide the branch, score the right tallies with the right
    /// bucket schedule, add the awards to the cumulative scores, reset
    /// every event-card effect, and let each insurrection card place up to
    /// two reinforcement blocks from the bank on its region.
    #[verifier::rlimit(100)]
    pub fn resolve_dominance_check(&mut self) -> (r: Option<GameOver>)
        requires
            old(self).dominance_check_ready(),
        ensures
            r is None,
            final(self).map.wf(),
            final(self).players.wf(),
            final(self).blocks.wf(),
            final(self).effects == Effects::spec_default(),
            final(self).discard == old(self).discard,
            final(self).climate == old(self).climate,
            final(self).market == old(self).market,
            final(self).turn == old(self).turn,
            final(self).players.spec_players().len() == old(self).players.spec_players().len(),
            forall|i: int|
                0 <= i < old(self).players.spec_players().len() ==> {
                    let p0 = old(self).players.spec_players()[i];
                    (#[trigger] final(self).players.spec_players()[i]) == (Player {
                        state: PlayerState {
                            score: (p0.state.score + old(self).spec_check_award(p0.color)) as i8,
                            effects: player::Effects::spec_default(),
                            ..p0.state
                        },
                        ..p0
                    })
                },
            ({
                let end = place_reinforcements(
                    old(self).spec_start_bank(),
                    old(self).spec_start_armies(),
                    player::spec_insurrections(old(self).players.spec_players()),
                );
                &&& final(self).blocks@ == end.0
                &&& views_of(final(self).map.spec_army_sets()) == end.1
            }),
            old(self).spec_branch_a() ==> forall|i: int|
                0 <= i < final(self).map.spec_road_sets().len() ==> (#[trigger] final(self).map.spec_road_sets()[i])@
                    == Counts::zero(),
            !old(self).spec_branch_a() ==> final(self).map.spec_road_sets() == old(
                self,
            ).map.spec_road_sets(),
            final(self).map.spec_tribe_sets() == old(self).map.spec_tribe_sets(),
            final(self).map.spec_border_list() == old(self).map.spec_border_list(),
            forall|c: Coalition|
                #[trigger] final(self).blocks@.get(c) + final(self).map.spec_block_total(c) == old(
                    self,
                ).blocks@.get(c) + old(self).map.spec_block_total(c),
    {
        let ghost g0 = *self;
        // Is this the final dominance check? If so, it scores double.
        let dominance_count = count_dominance_cards(&self.discard);
        let final_check = dominance_count == 4;
        // Count the blocks on the map.
        proof {
            assert forall|c: Coalition| #[trigger] g0.map.spec_block_total(c) <= i8::MAX by {
                assert(g0.blocks@.get(c) + g0.spec_totals().get(c) <= i8::MAX);
                assert(g0.blocks@.get(c) >= 0);
            }
        }
        let totals = self.map.total_block_counts();
        let decision = check_dominance(&totals, self.effects.conflict_fatigue);
        let scores = self.score_check(final_check, decision, Ghost(g0));
        proof {
            assert forall|i: int|
                0 <= i < self.players.spec_players().len() implies (
            #[trigger] self.players.spec_players()[i]).state.score + scores@.get(
                self.players.spec_players()[i].color,
            ) <= i8::MAX by {
                assert(g0.players.spec_players()[i].state.score + 18 <= i8::MAX);
                assert(scores@.get(self.players.spec_players()[i].color) <= 18);
            }
        }
        // Add the awards to the cumulative scores.
        self.players.add_scores(&scores);
        let ghost ps_scored = self.players.spec_players();
        // Clear all transient effects, game-wide and per player.
        self.effects.clear();
        self.players.clear_all_effects();
        // Resolve insurrections: each such court card places up to two of
        // its owner's coalition blocks from the bank on its region.
        let ghost mid = *self;
        proof {
            let ps0 = g0.players.spec_players();
            let ps1 = mid.players.spec_players();
            assert forall|i: int| 0 <= i < ps1.len() implies (#[trigger] ps1[i]).state.court
                == ps0[i].state.court && ps1[i].state.loyalty == ps0[i].state.loyalty by {
                assert(ps_scored[i].state.court == ps0[i].state.court);
                assert(ps_scored[i].state.loyalty == ps0[i].state.loyalty);
            }
            lemma_insurrections_preserved(ps0, ps1);
            assert(mid.blocks@ == g0.spec_start_bank());
            assert(views_of(mid.map.spec_army_sets()) == g0.spec_start_armies());
            lemma_insurrection_start(g0, mid);
        }
        self.resolve_insurrections();
        proof {
            lemma_check_conservation(g0, mid, *self);
        }
        end_of_game_signal()
    }

    /// Work through every insurrection card in turn order: each places up
    /// to two blocks of its owner's coalition from the bank onto its
    /// region, or as many as the bank still holds.
    fn resolve_insurrections(&mut self)
        requires
            old(self).map.wf(),
            old(self).blocks.wf(),
            old(self).players.wf(),
            forall|c: Coalition|
                #[trigger] old(self).blocks@.get(c) + system_count(
                    views_of(old(self).map.spec_army_sets()),
                    c,
                ) <= i8::MAX,
        ensures
            final(self).map.wf(),
            final(self).blocks.wf(),
            ({
                let end = place_reinforcements(
                    old(self).blocks@,
                    views_of(old(self).map.spec_army_sets()),
                    player::spec_insurrections(old(self).players.spec_players()),
                );
                &&& final(self).blocks@ == end.0
                &&& views_of(final(self).map.spec_army_sets()) == end.1
            }),
            final(self).map.spec_road_sets() == old(self).map.spec_road_sets(),
            final(self).map.spec_tribe_sets() == old(self).map.spec_tribe_sets(),
            final(self).map.spec_border_list() == old(self).map.spec_border_list(),
            final(self).players == old(self).players,
            final(self).effects == old(self).effects,
            final(self).discard == old(self).discard,
            final(self).climate == old(self).climate,
            final(self).market == old(self).market,
            final(self).turn == old(self).turn,
    {
        let ghost mid = *self;
        let orders = self.players.collect_insurrections();
        let ghost start_bank = self.blocks@;
        let ghost start_armies = views_of(self.map.spec_army_sets());
        proof {
            self.map.lemma_shape(Region::Transcaspia);
            assert(start_armies.len() == REGION_COUNT);
            assert forall|i: int|
                0 <= i < start_armies.len() implies (#[trigger] start_armies[i]).nonneg() by {
                assert(start_armies[i] == self.map.spec_army_sets()[i]@);
                assert(self.map.spec_army_sets()[i].wf());
            }
            assert(start_bank.nonneg()) by {
                assert(self.blocks.wf());
            }
            assert(orders@.take(0) =~= Seq::<(Region, Coalition)>::empty());
        }
        let mut k: usize = 0;
        while k < orders.len()
            invariant
                0 <= k <= orders@.len(),
                self.map.wf(),
                self.blocks.wf(),
                (self.blocks@, views_of(self.map.spec_army_sets())) == place_reinforcements(
                    start_bank,
                    start_armies,
                    orders@.take(k as int),
                ),
                start_bank.nonneg(),
                forall|i: int|
                    0 <= i < start_armies.len() ==> (#[trigger] start_armies[i]).nonneg(),
                start_armies.len() == REGION_COUNT,
                forall|c: Coalition|
                    #[trigger] start_bank.get(c) + system_count(start_armies, c) <= i8::MAX,
                self.map.spec_tribe_sets() == mid.map.spec_tribe_sets(),
                self.map.spec_road_sets() == mid.map.spec_road_sets(),
                self.map.spec_border_list() == mid.map.spec_border_list(),
                self.players == mid.players,
                self.effects == mid.effects,
                self.discard == mid.discard,
                self.climate == mid.climate,
                self.market == mid.market,
                self.turn == mid.turn,
            decreases orders@.len() - k,
        {
            let ghost pre_bank = self.blocks@;
            let ghost pre_armies = views_of(self.map.spec_army_sets());
            proof {
                assert(orders@.take(k as int).push(orders@[k as int]) =~= orders@.take(k + 1));
                lemma_place_snoc(start_bank, start_armies, orders@.take(k as int), orders@[k as int]);
                lemma_place_properties(start_bank, start_armies, orders@.take(k as int), Coalition::Britain);
                lemma_place_properties(start_bank, start_armies, orders@.take(k as int), Coalition::Russia);
                lemma_place_properties(start_bank, start_armies, orders@.take(k as int), Coalition::Afghanistan);
            }
            let (region, coalition) = orders[k];
            let armies = self.blocks.take_up_to(2, coalition);
            proof {
                let i = region_order(region);
                assert(pre_armies[i] == self.map.spec_armies(region)@) by {
                    self.map.lemma_shape(region);
                }
                assert forall|c: Coalition|
                    #[trigger] self.map.spec_armies(region)@.get(c) + armies@.get(c)
                        <= i8::MAX by {
                    lemma_place_properties(start_bank, start_armies, orders@.take(k as int), c);
                    lemma_system_count_element(pre_armies, i, c);
                    lemma_system_count_nonneg(pre_armies, c);
                }
            }
            self.map.add_armies(region, armies);
            proof {
                let i = region_order(region);
                assert(views_of(self.map.spec_army_sets()) =~= pre_armies.update(
                    i,
                    self.map.spec_armies(region)@,
                )) by {
                    self.map.lemma_shape(region);
                }
                let step = reinforce_step(pre_bank, pre_armies, region, coalition);
                assert(self.blocks@ == step.0);
                assert(self.map.spec_armies(region)@ == pre_armies[i].update(
                    coalition,
                    pre_armies[i].get(coalition) + vstd::math::min(2, pre_bank.get(coalition)),
                ));
                assert((self.blocks@, views_of(self.map.spec_army_sets()))
                    == place_reinforcements(start_bank, start_armies, orders@.take(k + 1)));
            }
            k = k + 1;
        }
        proof {
            assert(orders@.take(orders@.len() as int) =~= orders@);
        }
    }
}


/// A run of updates that leaves every court and loyalty alone leaves the
/// reinforcement orders alone.
proof fn lemma_insurrections_preserved(ps0: Seq<Player>, ps1: Seq<Player>)
    requires
        ps1.len() == ps0.len(),
        forall|i: int|
            0 <= i < ps1.len() ==> (#[trigger] ps1[i]).state.court == ps0[i].state.court && (
            ps1[i]).state.loyalty == ps0[i].state.loyalty,
    ensures
        player::spec_insurrections(ps1) == player::spec_insurrections(ps0),
{
    assert(ps1.map_values(player::player_insurrections()) =~= ps0.map_values(
        player::player_insurrections(),
    )) by {
        assert forall|i: int|
            0 <= i < ps1.len() implies ps1.map_values(player::player_insurrections())[i]
            == ps0.map_values(player::player_insurrections())[i] by {
            assert(ps1[i].state.court == ps0[i].state.court);
            assert(ps1[i].state.loyalty == ps0[i].state.loyalty);
        }
    }
}

/// After the scoring phase, the bank and the map armies fit the
/// reinforcement fold's arithmetic bounds.
proof fn lemma_insurrection_start(g0: Game, mid: Game)
    requires
        g0.dominance_check_ready(),
        mid.map.wf(),
        mid.blocks@ == g0.spec_start_bank(),
        views_of(mid.map.spec_army_sets()) == g0.spec_start_armies(),
    ensures
        forall|c: Coalition|
            #[trigger] mid.blocks@.get(c) + system_count(
                views_of(mid.map.spec_army_sets()),
                c,
            ) <= i8::MAX,
{
    assert forall|c: Coalition|
        #[trigger] mid.blocks@.get(c) + system_count(
            views_of(mid.map.spec_army_sets()),
            c,
        ) <= i8::MAX by {
        assert(g0.blocks@.get(c) + g0.spec_totals().get(c) <= i8::MAX);
        if g0.spec_branch_a() {
            assert(mid.blocks@ == g0.blocks@.plus(g0.spec_totals()));
            assert forall|i: int|
                0 <= i < views_of(mid.map.spec_army_sets()).len() implies (#[trigger] views_of(
                mid.map.spec_army_sets(),
            )[i]) == Counts::zero() by {}
            lemma_system_count_zeros(views_of(mid.map.spec_army_sets()), c);
        } else {
            assert(mid.blocks@ == g0.blocks@);
            lemma_sum_counts_views(g0.map.spec_army_sets(), c);
            lemma_sum_counts_append(g0.map.spec_army_sets(), g0.map.spec_road_sets());
            g0.map.lemma_shape(Region::Transcaspia);
            lemma_sum_counts_nonneg(g0.map.spec_road_sets(), c);
            assert(sum_counts(g0.map.spec_army_sets()).get(c) <= g0.spec_totals().get(c));
        }
    }
}

/// A dominance check conserves blocks: whatever moved between the bank and
/// the map, the combined count of every coalition is unchanged, and the
/// roads end empty exactly when a military dominance cleared the map.
proof fn lemma_check_conservation(g0: Game, mid: Game, fin: Game)
    requires
        g0.dominance_check_ready(),
        mid.map.wf(),
        mid.blocks.wf(),
        mid.blocks@ == g0.spec_start_bank(),
        views_of(mid.map.spec_army_sets()) == g0.spec_start_armies(),
        g0.spec_branch_a() ==> forall|i: int|
            0 <= i < mid.map.spec_road_sets().len() ==> (#[trigger] mid.map.spec_road_sets()[i])@
                == Counts::zero(),
        !g0.spec_branch_a() ==> mid.map.spec_road_sets() == g0.map.spec_road_sets(),
        ({
            let end = place_reinforcements(
                g0.spec_start_bank(),
                g0.spec_start_armies(),
                player::spec_insurrections(g0.players.spec_players()),
            );
            &&& fin.blocks@ == end.0
            &&& views_of(fin.map.spec_army_sets()) == end.1
        }),
        fin.map.spec_road_sets() == mid.map.spec_road_sets(),
    ensures
        forall|c: Coalition|
            #[trigger] fin.blocks@.get(c) + fin.map.spec_block_total(c) == g0.blocks@.get(c)
                + g0.map.spec_block_total(c),
        g0.spec_branch_a() ==> forall|i: int|
            0 <= i < fin.map.spec_road_sets().len() ==> (#[trigger] fin.map.spec_road_sets()[i])@
                == Counts::zero(),
        !g0.spec_branch_a() ==> fin.map.spec_road_sets() == g0.map.spec_road_sets(),
{
    let start_bank = g0.spec_start_bank();
    let start_armies = g0.spec_start_armies();
    let list = player::spec_insurrections(g0.players.spec_players());
    assert forall|c: Coalition|
        #[trigger] fin.blocks@.get(c) + fin.map.spec_block_total(c) == g0.blocks@.get(c)
            + g0.map.spec_block_total(c) by {
        assert(start_bank.nonneg()) by {
            assert(mid.blocks.wf());
        }
        assert forall|i: int|
            0 <= i < start_armies.len() implies (#[trigger] start_armies[i]).nonneg() by {
            mid.map.lemma_shape(Region::Transcaspia);
            assert(start_armies[i] == mid.map.spec_army_sets()[i]@);
            assert(mid.map.spec_army_sets()[i].wf());
        }
        assert(start_armies.len() == REGION_COUNT) by {
            mid.map.lemma_shape(Region::Transcaspia);
        }
        lemma_place_properties(start_bank, start_armies, list, c);
        lemma_sum_counts_views(fin.map.spec_army_sets(), c);
        lemma_sum_counts_append(fin.map.spec_army_sets(), fin.map.spec_road_sets());
        if g0.spec_branch_a() {
            lemma_sum_counts_zero(fin.map.spec_road_sets());
            assert forall|i: int|
                0 <= i < start_armies.len() implies (#[trigger] start_armies[i])
                == Counts::zero() by {
                mid.map.lemma_shape(Region::Transcaspia);
                assert(start_armies[i] == mid.map.spec_army_sets()[i]@);
            }
            lemma_system_count_zeros(start_armies, c);
            assert(start_bank.get(c) == g0.blocks@.get(c) + g0.spec_totals().get(c));
        } else {
            lemma_sum_counts_views(g0.map.spec_army_sets(), c);
            lemma_sum_counts_append(g0.map.spec_army_sets(), g0.map.spec_road_sets());
            assert(fin.map.spec_road_sets() == g0.map.spec_road_sets());
        }
        assert(g0.map.spec_block_total(c) == g0.spec_totals().get(c));
    }
}

/// The signal this engine reports when a dominance check ends the game.
/// The printed rules leave open whether the final check should name the
/// highest scorer as winner when no coalition dominates; as implemented,
/// no check names a winner, and this one function owns that decision.
fn end_of_game_signal() -> (r: Option<GameOver>)
    ensures
        r is None,
{
    None
}

} // verus!

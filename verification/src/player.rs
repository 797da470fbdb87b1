use std::collections::VecDeque;

use vstd::prelude::*;

use crate::cards::court;
use crate::cylinders::{CylinderSet, SingleCylinderSet, CYLINDER_BANK_SIZE};
use crate::game;
use crate::primitives::{Coalition, Suit};
use crate::rupees::RupeeSet;

verus! {

/// A player color.
#[derive(Debug, Clone, Copy, PartialEq, Eq, Hash, Structural)]
pub enum Color {
    Red,
    Blue,
    Yellow,
    Black,
    Grey,
}

/// Per-color integer totals: the model of a [`ColorCounts`].
pub struct ColorTotals {
    pub red: int,
    pub blue: int,
    pub yellow: int,
    pub black: int,
    pub grey: int,
}

impl ColorTotals {
    /// The total held for one player color.
    pub open spec fn get(self, p: Color) -> int {
        match p {
            Color::Red => self.red,
            Color::Blue => self.blue,
            Color::Yellow => self.yellow,
            Color::Black => self.black,
            Color::Grey => self.grey,
        }
    }

    /// All totals zero.
    pub open spec fn zero() -> ColorTotals {
        ColorTotals { red: 0, blue: 0, yellow: 0, black: 0, grey: 0 }
    }

    /// The same totals, with the entry for `p` replaced by `n`.
    pub open spec fn update(self, p: Color, n: int) -> ColorTotals {
        match p {
            Color::Red => ColorTotals { red: n, ..self },
            Color::Blue => ColorTotals { blue: n, ..self },
            Color::Yellow => ColorTotals { yellow: n, ..self },
            Color::Black => ColorTotals { black: n, ..self },
            Color::Grey => ColorTotals { grey: n, ..self },
        }
    }

    /// Per-color sum of two totals.
    pub open spec fn plus(self, other: ColorTotals) -> ColorTotals {
        ColorTotals {
            red: self.red + other.red,
            blue: self.blue + other.blue,
            yellow: self.yellow + other.yellow,
            black: self.black + other.black,
            grey: self.grey + other.grey,
        }
    }

    /// Reading back an updated entry gives the new value; every other
    /// entry is untouched.
    pub proof fn lemma_update_get(self, p: Color, n: int, q: Color)
        ensures
            self.update(p, n).get(q) == if q == p {
                n
            } else {
                self.get(q)
            },
    {
    }

    /// Every total is non-negative.
    pub open spec fn nonneg(self) -> bool {
        self.red >= 0 && self.blue >= 0 && self.yellow >= 0 && self.black >= 0 && self.grey >= 0
    }
}

/// A small counter for every player color.
#[derive(Clone, Copy)]
pub struct ColorCounts {
    red: i8,
    blue: i8,
    yellow: i8,
    black: i8,
    grey: i8,
}

impl View for ColorCounts {
    type V = ColorTotals;

    closed spec fn view(&self) -> ColorTotals {
        ColorTotals {
            red: self.red as int,
            blue: self.blue as int,
            yellow: self.yellow as int,
            black: self.black as int,
            grey: self.grey as int,
        }
    }
}

impl ColorCounts {
    /// A counter holding zero for every color.
    pub fn zero() -> (r: Self)
        ensures
            r@ == ColorTotals::zero(),
    {
        Self { red: 0, blue: 0, yellow: 0, black: 0, grey: 0 }
    }

    /// Read the count for one color.
    pub fn get(&self, p: Color) -> (r: i8)
        ensures
            r == self@.get(p),
    {
        match p {
            Color::Red => self.red,
            Color::Blue => self.blue,
            Color::Yellow => self.yellow,
            Color::Black => self.black,
            Color::Grey => self.grey,
        }
    }

    /// Overwrite the count for one color.
    pub fn set(&mut self, p: Color, n: i8)
        ensures
            final(self)@ == old(self)@.update(p, n as int),
    {
        match p {
            Color::Red => self.red = n,
            Color::Blue => self.blue = n,
            Color::Yellow => self.yellow = n,
            Color::Black => self.black = n,
            Color::Grey => self.grey = n,
        }
    }

    /// Add another counter to this one, color by color.
    pub fn add_counts(&mut self, other: &ColorCounts)
        requires
            forall|p: Color|
                i8::MIN <= #[trigger] old(self)@.get(p) + other@.get(p) <= i8::MAX,
        ensures
            final(self)@ == old(self)@.plus(other@),
    {
        assert(old(self)@.get(Color::Red) + other@.get(Color::Red) <= i8::MAX);
        assert(old(self)@.get(Color::Blue) + other@.get(Color::Blue) <= i8::MAX);
        assert(old(self)@.get(Color::Yellow) + other@.get(Color::Yellow) <= i8::MAX);
        assert(old(self)@.get(Color::Black) + other@.get(Color::Black) <= i8::MAX);
        assert(old(self)@.get(Color::Grey) + other@.get(Color::Grey) <= i8::MAX);
        assert(old(self)@.get(Color::Red) + other@.get(Color::Red) >= i8::MIN);
        assert(old(self)@.get(Color::Blue) + other@.get(Color::Blue) >= i8::MIN);
        assert(old(self)@.get(Color::Yellow) + other@.get(Color::Yellow) >= i8::MIN);
        assert(old(self)@.get(Color::Black) + other@.get(Color::Black) >= i8::MIN);
        assert(old(self)@.get(Color::Grey) + other@.get(Color::Grey) >= i8::MIN);
        self.red = self.red + other.red;
        self.blue = self.blue + other.blue;
        self.yellow = self.yellow + other.yellow;
        self.black = self.black + other.black;
        self.grey = self.grey + other.grey;
    }

    /// Add `n` to the count for one color.
    pub fn add_to(&mut self, p: Color, n: i8)
        requires
            i8::MIN <= old(self)@.get(p) + n <= i8::MAX,
        ensures
            final(self)@ == old(self)@.update(p, old(self)@.get(p) + n),
    {
        let held = self.get(p);
        self.set(p, held + n);
    }
}

/// A card in a player's court.
#[derive(Clone, Copy)]
pub struct CourtCard {
    /// Details about the card itself
    pub card: court::Card,
    /// The spies on the card
    pub spies: CylinderSet,
    /// Has the card been used for an action this turn
    pub tapped: bool,
}

impl CourtCard {
    /// The card resting in this court position.
    pub open spec fn spec_card(self) -> court::Card {
        self.card
    }

    /// Put a card into a court: no spies on it, untapped.
    pub fn new(card: court::Card) -> (r: Self)
        ensures
            r.spec_card() == card,
            r.spies@ == ColorTotals::zero(),
            !r.tapped,
    {
        Self { card, spies: CylinderSet::new(), tapped: false }
    }

    /// The card resting in this court position.
    pub fn card(&self) -> (r: &court::Card)
        ensures
            *r == self.spec_card(),
    {
        &self.card
    }
}

/// Which side of the tableau to play a card on.
#[derive(Debug, Clone, Copy, PartialEq, Eq, Structural)]
pub enum Side {
    Left,
    Right,
}

/// The worth in stars of a run of court cards, counting only one suit.
pub open spec fn star_sum(cards: Seq<CourtCard>, suit: Suit) -> int
    decreases cards.len(),
{
    if cards.len() == 0 {
        0
    } else {
        star_sum(cards.drop_last(), suit) + if cards.last().spec_card().spec_data().suit == suit {
            cards.last().spec_card().spec_data().rank.spec_value()
        } else {
            0
        }
    }
}

/// A player's court: their played cards, in tableau order.
pub struct Court {
    pub cards: VecDeque<CourtCard>,
}

impl Court {
    /// A court with no cards.
    pub fn new() -> (r: Self)
        ensures
            r.cards@.len() == 0,
    {
        Court { cards: VecDeque::new() }
    }

    /// The number of stars of a given suit in this court.
    pub fn star_count(&self, suit: Suit) -> (r: i8)
        requires
            3 * self.cards@.len() <= i8::MAX,
        ensures
            r == star_sum(self.cards@, suit),
    {
        let mut r: i8 = 0;
        let mut i: usize = 0;
        while i < self.cards.len()
            invariant
                0 <= i <= self.cards@.len(),
                3 * self.cards@.len() <= i8::MAX,
                r == star_sum(self.cards@.take(i as int), suit),
                0 <= r <= 3 * i,
            decreases self.cards@.len() - i,
        {
            proof {
                assert(self.cards@.take(i + 1).drop_last() =~= self.cards@.take(i as int));
                assert(self.cards@.take(i + 1).last() == self.cards@[i as int]);
            }
            let card = &self.cards[i];
            if card.card().data().suit == suit {
                r = r + card.card().data().rank.value();
            }
            i = i + 1;
        }
        proof {
            assert(self.cards@.take(self.cards@.len() as int) =~= self.cards@);
        }
        r
    }
}

/// A hand of court cards.
pub struct Hand {
    pub cards: Vec<court::Card>,
}

impl Hand {
    /// An empty hand.
    pub fn new() -> (r: Self)
        ensures
            r.cards@.len() == 0,
    {
        Hand { cards: Vec::new() }
    }
}

/// Permanent modifiers that can affect a player, triggered by event cards.
/// All of these are reset after a dominance check.
#[derive(Debug, Clone, Copy, PartialEq, Eq, Structural)]
pub struct Effects {
    /// May ignore bribes
    pub courtly_manners: bool,
    /// Gifts are worth an extra influence
    pub kohinoor: bool,
    /// Patriots do not count for influence
    pub rumor: bool,
    /// Your tribes may move and battle
    pub nationalism: bool,
    /// Build twice as many blocks
    pub nation_building: bool,
    /// Military cards are always favored
    pub new_tactics: bool,
}

impl Effects {
    /// Every modifier inactive.
    pub open spec fn spec_default() -> Effects {
        Effects {
            courtly_manners: false,
            kohinoor: false,
            rumor: false,
            nationalism: false,
            nation_building: false,
            new_tactics: false,
        }
    }

    /// Fresh modifiers: every one inactive.
    pub fn new() -> (r: Self)
        ensures
            r == Effects::spec_default(),
    {
        Effects {
            courtly_manners: false,
            kohinoor: false,
            rumor: false,
            nationalism: false,
            nation_building: false,
            new_tactics: false,
        }
    }

    /// Reset every modifier to inactive.
    pub fn clear(&mut self)
        ensures
            *final(self) == Effects::spec_default(),
    {
        *self = Effects::new();
    }
}

/// How many cards of a hand carry a patriot marker.
pub open spec fn patriot_count(cards: Seq<court::Card>) -> int
    decreases cards.len(),
{
    if cards.len() == 0 {
        0
    } else {
        patriot_count(cards.drop_last()) + if cards.last().spec_data().patriot is Some {
            1int
        } else {
            0int
        }
    }
}

/// All of the state for a single player.
pub struct PlayerState {
    /// The player's court cards, in order
    pub court: Court,
    /// The player's hand of cards
    pub hand: Hand,
    /// The player's bank of unused cylinders
    pub bank: SingleCylinderSet,
    /// The player's purchased gifts
    pub gifts: SingleCylinderSet,
    /// The set of cards claimed as prizes
    pub prizes: Hand,
    /// The player's available spending money
    pub rupees: RupeeSet,
    /// The player's coalition
    pub loyalty: Coalition,
    /// Any persistent event cards affecting the player
    pub effects: Effects,
    /// The player's score
    pub score: i8,
}

/// A player's influence with their faction: one base point, plus patriots
/// held in hand (unless nullified by a rumor), plus gifts (doubled by the
/// Koh-i-Noor, worthless under an embarrassment of riches), plus prizes.
pub open spec fn spec_influence(st: PlayerState, game_effects: game::Effects) -> int {
    (if st.effects.rumor {
        0int
    } else {
        patriot_count(st.hand.cards@)
    }) + (if game_effects.embarrassment_of_riches {
        0int
    } else {
        st.gifts.spec_count() * (if st.effects.kohinoor {
            2int
        } else {
            1int
        })
    }) + st.prizes.cards@.len() + 1
}

/// The bounds under which an influence value fits the machine arithmetic.
pub open spec fn influence_bounds(st: PlayerState) -> bool {
    &&& st.hand.cards@.len() <= 30
    &&& st.prizes.cards@.len() <= 30
    &&& st.gifts.wf()
    &&& st.gifts.spec_count() <= 15
}

/// A player's state at the start of a game.
pub open spec fn spec_fresh_state(st: PlayerState, loyalty: Coalition) -> bool {
    &&& st.court.cards@.len() == 0
    &&& st.hand.cards@.len() == 0
    &&& st.bank.spec_count() == CYLINDER_BANK_SIZE as int
    &&& st.gifts.spec_count() == 0
    &&& st.prizes.cards@.len() == 0
    &&& st.rupees.spec_count() == 4
    &&& st.loyalty == loyalty
    &&& st.effects == Effects::spec_default()
    &&& st.score == 0
}

impl PlayerState {
    /// Create a new player state, suitable for the start of a game.
    /// Includes 10 cylinders and 4 rupees.
    pub fn new(loyalty: Coalition) -> (r: Self)
        ensures
            spec_fresh_state(r, loyalty),
            r.state_wf(),
    {
        Self {
            court: Court::new(),
            hand: Hand::new(),
            bank: SingleCylinderSet::new_bank(),
            gifts: SingleCylinderSet::new(),
            prizes: Hand::new(),
            rupees: RupeeSet::new(4),
            loyalty,
            effects: Effects::new(),
            score: 0,
        }
    }

    /// The pools a player owns never hold negative counts.
    pub open spec fn state_wf(self) -> bool {
        &&& self.bank.wf()
        &&& self.gifts.wf()
        &&& self.rupees.wf()
        &&& forall|i: int|
            0 <= i < self.court.cards@.len() ==> (#[trigger] self.court.cards@[i]).spies.wf()
    }

    /// The number of stars in a given suit.
    pub fn star_count(&self, suit: Suit) -> (r: i8)
        requires
            3 * self.court.cards@.len() <= i8::MAX,
        ensures
            r == star_sum(self.court.cards@, suit),
    {
        self.court.star_count(suit)
    }

    /// The max court size this player can have, based on the number of
    /// political stars.
    pub fn court_size(&self) -> (r: i8)
        requires
            3 * self.court.cards@.len() + 3 <= i8::MAX,
        ensures
            r == star_sum(self.court.cards@, Suit::Political) + 3,
    {
        proof {
            lemma_star_sum_bounds(self.court.cards@, Suit::Political);
        }
        self.star_count(Suit::Political) + 3
    }

    /// The max hand size this player can have, based on the number of
    /// intelligence stars.
    pub fn hand_size(&self) -> (r: i8)
        requires
            3 * self.court.cards@.len() + 2 <= i8::MAX,
        ensures
            r == star_sum(self.court.cards@, Suit::Intelligence) + 2,
    {
        proof {
            lemma_star_sum_bounds(self.court.cards@, Suit::Intelligence);
        }
        self.star_count(Suit::Intelligence) + 2
    }

    /// Add some cylinders back to the bank.
    pub fn discard_cylinders(&mut self, cylinders: SingleCylinderSet)
        requires
            old(self).bank.wf(),
            cylinders.wf(),
            old(self).bank.spec_count() + cylinders.spec_count() <= i8::MAX,
        ensures
            final(self).bank.spec_count() == old(self).bank.spec_count() + cylinders.spec_count(),
            final(self).bank.wf(),
            *final(self) == (PlayerState { bank: final(self).bank, ..*old(self) }),
    {
        self.bank.add(cylinders);
    }

    /// Find how much influence the player has with their current faction.
    pub fn influence(&self, game_effects: &game::Effects) -> (r: i8)
        requires
            influence_bounds(*self),
        ensures
            r == spec_influence(*self, *game_effects),
            1 <= r <= 91,
    {
        let patriots: i8 = if self.effects.rumor {
            0
        } else {
            let mut n: i8 = 0;
            let mut i: usize = 0;
            while i < self.hand.cards.len()
                invariant
                    0 <= i <= self.hand.cards@.len(),
                    self.hand.cards@.len() <= 30,
                    n == patriot_count(self.hand.cards@.take(i as int)),
                    0 <= n <= i,
                decreases self.hand.cards@.len() - i,
            {
                proof {
                    assert(self.hand.cards@.take(i + 1).drop_last() =~= self.hand.cards@.take(
                        i as int,
                    ));
                    assert(self.hand.cards@.take(i + 1).last() == self.hand.cards@[i as int]);
                }
                if self.hand.cards[i].data().patriot.is_some() {
                    n = n + 1;
                }
                i = i + 1;
            }
            proof {
                assert(self.hand.cards@.take(self.hand.cards@.len() as int)
                    =~= self.hand.cards@);
            }
            n
        };
        let gifts: i8 = if game_effects.embarrassment_of_riches {
            0
        } else {
            let base = self.gifts.count();
            if self.effects.kohinoor {
                base * 2
            } else {
                base
            }
        };
        let prizes: i8 = self.prizes.cards.len() as i8;
        patriots + gifts + prizes + 1
    }
}

/// Star sums are bounded by three per card.
pub proof fn lemma_star_sum_bounds(cards: Seq<CourtCard>, suit: Suit)
    ensures
        0 <= star_sum(cards, suit) <= 3 * cards.len(),
    decreases cards.len(),
{
    if cards.len() > 0 {
        lemma_star_sum_bounds(cards.drop_last(), suit);
    }
}

/// A player: their full state, their color and their name.
pub struct Player {
    pub state: PlayerState,
    pub color: Color,
    pub name: String,
}

/// What it takes to seat a player at the table.
pub struct PlayerInit {
    pub color: Color,
    pub loyalty: Coalition,
    pub name: String,
}

/// The construction-time error of seating two players with the same color.
#[derive(Debug, Clone, Copy, PartialEq, Eq, Structural)]
pub struct DuplicateColor(pub Color);

/// No two players share a color.
pub open spec fn colors_distinct(players: Seq<Player>) -> bool {
    forall|i: int, j: int|
        0 <= i < j < players.len() ==> (#[trigger] players[i]).color != (#[trigger] players[j]).color
}

/// No two player inits share a color.
pub open spec fn init_colors_distinct(inits: Seq<PlayerInit>) -> bool {
    forall|i: int, j: int|
        0 <= i < j < inits.len() ==> (#[trigger] inits[i]).color != (#[trigger] inits[j]).color
}

/// The set of players currently playing a game, in turn order.
pub struct PlayerSet {
    players: Vec<Player>,
}

impl PlayerSet {
    /// The players, in turn order.
    pub closed spec fn spec_players(self) -> Seq<Player> {
        self.players@
    }

    /// Every color seats at most one player, which also caps the table at
    /// five seats, and every player's pools are well formed.
    pub open spec fn wf(self) -> bool {
        &&& colors_distinct(self.spec_players())
        &&& self.spec_players().len() <= 5
        &&& forall|i: int|
            0 <= i < self.spec_players().len() ==> (#[trigger] self.spec_players()[i]).state.state_wf()
    }

    /// Seat the given players, failing on the first color that appears
    /// twice; every seated player starts with a fresh state.
    pub fn new(inits: Vec<PlayerInit>) -> (r: Result<PlayerSet, DuplicateColor>)
        ensures
            r is Ok <==> init_colors_distinct(inits@),
            r matches Ok(set) ==> {
                &&& set.wf()
                &&& set.spec_players().len() == inits@.len()
                &&& forall|i: int|
                    0 <= i < inits@.len() ==> {
                        &&& (#[trigger] set.spec_players()[i]).color == inits@[i].color
                        &&& set.spec_players()[i].name == inits@[i].name
                        &&& spec_fresh_state(set.spec_players()[i].state, inits@[i].loyalty)
                    }
            },
            r matches Err(e) ==> exists|j: int|
                0 <= j < inits@.len() && #[trigger] init_colors_distinct(inits@.take(j)) && (
                exists|i: int| 0 <= i < j && (#[trigger] inits@[i]).color == inits@[j].color)
                && e.0 == inits@[j].color,
    {
        let mut seen = ColorCounts::zero();
        let mut players: Vec<Player> = Vec::new();
        let mut i: usize = 0;
        let n = inits.len();
        while i < n
            invariant
                0 <= i <= n,
                n == inits@.len(),
                players@.len() == i,
                i <= 5,
                init_colors_distinct(inits@.take(i as int)),
                forall|p: Color|
                    (#[trigger] seen@.get(p)) == if exists|k: int|
                        0 <= k < i && (#[trigger] inits@[k]).color == p {
                        1int
                    } else {
                        0int
                    },
                forall|k: int|
                    0 <= k < i ==> {
                        &&& (#[trigger] players@[k]).color == inits@[k].color
                        &&& players@[k].name == inits@[k].name
                        &&& spec_fresh_state(players@[k].state, inits@[k].loyalty)
                        &&& players@[k].state.state_wf()
                    },
            decreases n - i,
        {
            let color = inits[i].color;
            if seen.get(color) > 0 {
                proof {
                    let k = choose|k: int| 0 <= k < i && (#[trigger] inits@[k]).color == color;
                    assert(inits@[k].color == inits@[i as int].color);
                    assert(!init_colors_distinct(inits@)) by {
                        assert(0 <= k < i as int);
                        assert((inits@[k]).color == (inits@[i as int]).color);
                    }
                    assert(exists|j: int|
                        0 <= j < inits@.len() && #[trigger] init_colors_distinct(inits@.take(j))
                            && (exists|i2: int|
                            0 <= i2 < j && (#[trigger] inits@[i2]).color == inits@[j].color)
                            && color == inits@[j].color) by {
                        assert(init_colors_distinct(inits@.take(i as int)));
                        assert(0 <= k < i as int && inits@[k].color == inits@[i as int].color);
                    }
                }
                return Err(DuplicateColor(color));
            }
            let ghost seen0 = seen@;
            proof {
                assert forall|a: int| 0 <= a < i implies (#[trigger] inits@[a]).color != color by {
                    if inits@[a].color == color {
                        assert(seen0.get(color) == 1);
                    }
                }
            }
            seen.set(color, 1);
            proof {
                assert forall|p: Color| (#[trigger] seen@.get(p)) == if exists|k: int|
                    0 <= k < i + 1 && (#[trigger] inits@[k]).color == p {
                    1int
                } else {
                    0int
                } by {
                    seen0.lemma_update_get(color, 1, p);
                    if p == color {
                        assert(inits@[i as int].color == p);
                    } else {
                        if exists|k: int| 0 <= k < i + 1 && (#[trigger] inits@[k]).color == p {
                            let k = choose|k: int|
                                0 <= k < i + 1 && (#[trigger] inits@[k]).color == p;
                            assert(k < i);
                            assert(exists|k2: int|
                                0 <= k2 < i && (#[trigger] inits@[k2]).color == p);
                        } else {
                            if exists|k2: int| 0 <= k2 < i && (#[trigger] inits@[k2]).color == p {
                                let k2 = choose|k2: int|
                                    0 <= k2 < i && (#[trigger] inits@[k2]).color == p;
                                assert(0 <= k2 < i + 1 && inits@[k2].color == p);
                            }
                        }
                    }
                }
            }
            let state = PlayerState::new(inits[i].loyalty);
            let name = inits[i].name.clone();
            players.push(Player { state, color, name });
            proof {
                assert(inits@.take(i + 1).drop_last() =~= inits@.take(i as int));
                assert forall|a: int, b: int| 0 <= a < b < i + 1 implies (#[trigger] inits@.take(
                    i + 1,
                )[a]).color != (#[trigger] inits@.take(i + 1)[b]).color by {
                    assert(inits@.take(i + 1)[a] == inits@[a]);
                    assert(inits@.take(i + 1)[b] == inits@[b]);
                    if b == i as int {
                        assert(inits@[a].color != color);
                    }
                }
                // five colors at most can have been seen
                assert(i + 1 <= 5) by {
                    if i + 1 > 5 {
                        lemma_five_colors(inits@.take(i + 1));
                    }
                }
            }
            i = i + 1;
        }
        proof {
            assert(inits@.take(inits@.len() as int) =~= inits@);
        }
        Ok(PlayerSet { players })
    }

    /// The players, in turn order.
    pub fn players(&self) -> (r: &Vec<Player>)
        ensures
            r@ == self.spec_players(),
    {
        &self.players
    }

    /// One player, by seat position.
    pub fn player(&self, i: usize) -> (r: &Player)
        requires
            i < self.spec_players().len(),
        ensures
            *r == self.spec_players()[i as int],
    {
        &self.players[i]
    }

    /// Exclusive access to one player, by seat position.
    pub fn player_mut(&mut self, i: usize) -> (r: &mut Player)
        requires
            i < old(self).spec_players().len(),
        ensures
            *r == old(self).spec_players()[i as int],
            final(self).spec_players() == old(self).spec_players().update(i as int, *final(r)),
    {
        &mut self.players[i]
    }

    /// Add an already-computed award to every player's cumulative score.
    pub fn add_scores(&mut self, scores: &ColorCounts)
        requires
            old(self).wf(),
            scores@.nonneg(),
            forall|i: int|
                0 <= i < old(self).spec_players().len() ==> (#[trigger] old(
                    self,
                ).spec_players()[i]).state.score + scores@.get(
                    old(self).spec_players()[i].color,
                ) <= i8::MAX,
        ensures
            final(self).wf(),
            final(self).spec_players().len() == old(self).spec_players().len(),
            forall|i: int|
                0 <= i < old(self).spec_players().len() ==> {
                    let p0 = old(self).spec_players()[i];
                    (#[trigger] final(self).spec_players()[i]) == Player {
                        state: PlayerState {
                            score: (p0.state.score + scores@.get(p0.color)) as i8,
                            ..p0.state
                        },
                        ..p0
                    }
                },
    {
        let ghost before = self.players@;
        let n = self.players.len();
        let mut i: usize = 0;
        while i < n
            invariant
                0 <= i <= n,
                n == before.len(),
                self.players@.len() == n,
                colors_distinct(before),
                scores@.nonneg(),
                forall|k: int|
                    0 <= k < n ==> (#[trigger] before[k]).state.score + scores@.get(
                        before[k].color,
                    ) <= i8::MAX,
                forall|k: int|
                    0 <= k < n ==> (#[trigger] before[k]).state.state_wf(),
                forall|k: int|
                    i <= k < n ==> (#[trigger] self.players@[k]) == before[k],
                forall|k: int|
                    0 <= k < i ==> {
                        let p0 = before[k];
                        (#[trigger] self.players@[k]) == Player {
                            state: PlayerState {
                                score: (p0.state.score + scores@.get(p0.color)) as i8,
                                ..p0.state
                            },
                            ..p0
                        }
                    },
            decreases n - i,
        {
            let color = self.players[i].color;
            let bonus = scores.get(color);
            let p = &mut self.players[i];
            p.state.score = p.state.score + bonus;
            i = i + 1;
        }
        proof {
            assert forall|a: int, b: int|
                0 <= a < b < self.spec_players().len() implies (#[trigger] self.spec_players()[a]).color
                != (#[trigger] self.spec_players()[b]).color by {
                assert(before[a].color != before[b].color);
            }
        }
    }

    /// Reset every player's event modifiers to inactive.
    pub fn clear_all_effects(&mut self)
        requires
            old(self).wf(),
        ensures
            final(self).wf(),
            final(self).spec_players().len() == old(self).spec_players().len(),
            forall|i: int|
                0 <= i < old(self).spec_players().len() ==> {
                    let p0 = old(self).spec_players()[i];
                    (#[trigger] final(self).spec_players()[i]) == Player {
                        state: PlayerState { effects: Effects::spec_default(), ..p0.state },
                        ..p0
                    }
                },
    {
        let ghost before = self.players@;
        let n = self.players.len();
        let mut i: usize = 0;
        while i < n
            invariant
                0 <= i <= n,
                n == before.len(),
                self.players@.len() == n,
                colors_distinct(before),
                forall|k: int|
                    0 <= k < n ==> (#[trigger] before[k]).state.state_wf(),
                forall|k: int|
                    i <= k < n ==> (#[trigger] self.players@[k]) == before[k],
                forall|k: int|
                    0 <= k < i ==> {
                        let p0 = before[k];
                        (#[trigger] self.players@[k]) == Player {
                            state: PlayerState { effects: Effects::spec_default(), ..p0.state },
                            ..p0
                        }
                    },
            decreases n - i,
        {
            let p = &mut self.players[i];
            p.state.effects.clear();
            i = i + 1;
        }
        proof {
            assert forall|a: int, b: int|
                0 <= a < b < self.spec_players().len() implies (#[trigger] self.spec_players()[a]).color
                != (#[trigger] self.spec_players()[b]).color by {
                assert(before[a].color != before[b].color);
            }
        }
    }
}

/// The test for a player loyal to the given coalition.
pub open spec fn loyal_to(dom: Coalition) -> spec_fn(Player) -> bool {
    |p: Player| p.state.loyalty == dom
}

/// The scoring-engine entry of a player under the influence measure.
pub open spec fn influence_entry(eff: game::Effects) -> spec_fn(Player) -> (Color, i8) {
    |p: Player| (p.color, spec_influence(p.state, eff) as i8)
}

/// The tallies handed to the scoring engine on a successful dominance:
/// the players loyal to the dominant coalition, each with their influence.
pub open spec fn spec_influence_tallies(
    players: Seq<Player>,
    dom: Coalition,
    eff: game::Effects,
) -> Seq<(Color, i8)> {
    players.filter(loyal_to(dom)).map_values(influence_entry(eff))
}

/// The scoring-engine entry of a player under the cylinder measure: map
/// tribes loyal to them, spies in courts, and purchased gifts.
pub open spec fn cylinder_entry(tribes: ColorTotals, spies: ColorTotals) -> spec_fn(Player) -> (
    Color,
    i8,
) {
    |p: Player|
        (
            p.color,
            (p.state.gifts.spec_count() + tribes.get(p.color) + spies.get(p.color)) as i8,
        )
}

/// The tallies handed to the scoring engine when no coalition dominates:
/// every player, with tribes, spies and gifts added up.
pub open spec fn spec_cylinder_tallies(
    players: Seq<Player>,
    tribes: ColorTotals,
    spies: ColorTotals,
) -> Seq<(Color, i8)> {
    players.map_values(cylinder_entry(tribes, spies))
}

/// The spies resting on one court card.
pub open spec fn spy_of() -> spec_fn(CourtCard) -> CylinderSet {
    |c: CourtCard| c.spies
}

/// The spy pools of one player's court, in order.
pub open spec fn player_spies() -> spec_fn(Player) -> Seq<CylinderSet> {
    |p: Player| p.state.court.cards@.map_values(spy_of())
}

/// Every spy pool across every player's court, in table order.
pub open spec fn spec_spy_sets(players: Seq<Player>) -> Seq<CylinderSet> {
    players.map_values(player_spies()).flatten()
}

/// The test for a court card with the insurrection ability.
pub open spec fn has_insurrection() -> spec_fn(CourtCard) -> bool {
    |c: CourtCard|
        c.spec_card().spec_data().ability == Some(crate::cards::court::SpecialAbility::Insurrection)
}

/// The reinforcement order of one insurrection card: its region, and its
/// owner's coalition.
pub open spec fn insurrection_entry(loyalty: Coalition) -> spec_fn(CourtCard) -> (
    crate::map::Region,
    Coalition,
) {
    |c: CourtCard| (c.spec_card().spec_data().region, loyalty)
}

/// One player's reinforcement orders, in court order.
pub open spec fn player_insurrections() -> spec_fn(Player) -> Seq<(crate::map::Region, Coalition)> {
    |p: Player|
        p.state.court.cards@.filter(has_insurrection()).map_values(
            insurrection_entry(p.state.loyalty),
        )
}

/// Every reinforcement order across every player's court, player by player
/// in turn order, each court front to back.
pub open spec fn spec_insurrections(players: Seq<Player>) -> Seq<(crate::map::Region, Coalition)> {
    players.map_values(player_insurrections()).flatten()
}

impl PlayerSet {
    /// Collect the influence tallies of the players loyal to the dominant
    /// coalition.
    pub fn influence_tallies(&self, dom: Coalition, eff: &game::Effects) -> (r: Vec<(Color, i8)>)
        requires
            self.wf(),
            forall|i: int|
                0 <= i < self.spec_players().len() ==> influence_bounds(
                    (#[trigger] self.spec_players()[i]).state,
                ),
        ensures
            r@ == spec_influence_tallies(self.spec_players(), dom, *eff),
            crate::score::players_unique(r@),
            r@.len() <= self.spec_players().len(),
    {
        let ghost ps = self.spec_players();
        let players = self.players();
        let mut r: Vec<(Color, i8)> = Vec::new();
        let mut i: usize = 0;
        proof {
            reveal(Seq::filter);
            assert(ps.take(0) =~= Seq::<Player>::empty());
            assert(r@ =~= spec_influence_tallies(ps.take(0), dom, *eff));
            assert forall|a: int, b: int| 0 <= a < b < ps.len() implies (#[trigger] ps[a]).color
                != (#[trigger] ps[b]).color by {
                assert(self.spec_players()[a] == ps[a]);
                assert(self.spec_players()[b] == ps[b]);
            }
        }
        while i < players.len()
            invariant
                0 <= i <= ps.len(),
                players@ == ps,
                ps == self.spec_players(),
                self.wf(),
                forall|k: int|
                    0 <= k < ps.len() ==> influence_bounds((#[trigger] ps[k]).state),
                r@ == spec_influence_tallies(ps.take(i as int), dom, *eff),
                r@.len() <= i,
                forall|k: int|
                    0 <= k < r@.len() ==> exists|j: int|
                        0 <= j < i && (#[trigger] r@[k]).0 == ps[j].color,
                crate::score::players_unique(r@),
                colors_distinct(ps),
            decreases ps.len() - i,
        {
            let ghost r0 = r@;
            proof {
                reveal(Seq::filter);
                assert(ps.take(i + 1).drop_last() =~= ps.take(i as int));
                assert(ps.take(i + 1).last() == ps[i as int]);
            }
            if players[i].state.loyalty == dom {
                let color = players[i].color;
                let inf = players[i].state.influence(eff);
                r.push((color, inf));
                proof {
                    assert(ps.take(i + 1).filter(loyal_to(dom)) =~= ps.take(i as int).filter(
                        loyal_to(dom),
                    ).push(ps[i as int]));
                    assert(r@ =~= spec_influence_tallies(ps.take(i + 1), dom, *eff));
                    assert forall|k: int| 0 <= k < r@.len() implies exists|j: int|
                        0 <= j < i + 1 && (#[trigger] r@[k]).0 == ps[j].color by {
                        if k < r0.len() {
                            let j = choose|j: int|
                                0 <= j < i && (#[trigger] r0[k]).0 == ps[j].color;
                            assert(0 <= j < i + 1 && r@[k].0 == ps[j].color);
                        } else {
                            assert(r@[k].0 == ps[i as int].color);
                        }
                    }
                    assert forall|a: int, b: int| 0 <= a < b < r@.len() implies (
                    #[trigger] r@[a]).0 != (#[trigger] r@[b]).0 by {
                        if b == r@.len() - 1 {
                            let j = choose|j: int|
                                0 <= j < i && (#[trigger] r0[a]).0 == ps[j].color;
                            assert(ps[j].color != ps[i as int].color);
                        }
                    }
                }
            } else {
                proof {
                    assert(ps.take(i + 1).filter(loyal_to(dom)) =~= ps.take(i as int).filter(
                        loyal_to(dom),
                    ));
                    assert(r@ =~= spec_influence_tallies(ps.take(i + 1), dom, *eff));
                }
            }
            i = i + 1;
        }
        proof {
            assert(ps.take(ps.len() as int) =~= ps);
        }
        r
    }

    /// Collect every player's cylinder tally: gifts purchased, tribes on
    /// the map and spies in courts.
    pub fn cylinder_tallies(&self, tribes: &ColorCounts, spies: &ColorCounts) -> (r: Vec<
        (Color, i8),
    >)
        requires
            self.wf(),
            tribes@.nonneg(),
            spies@.nonneg(),
            forall|i: int|
                0 <= i < self.spec_players().len() ==> 0 <= (#[trigger] self.spec_players()[i]).state.gifts.spec_count()
                    + tribes@.get(self.spec_players()[i].color) + spies@.get(
                    self.spec_players()[i].color,
                ) <= i8::MAX,
        ensures
            r@ == spec_cylinder_tallies(self.spec_players(), tribes@, spies@),
            crate::score::players_unique(r@),
            r@.len() == self.spec_players().len(),
    {
        let ghost ps = self.spec_players();
        let players = self.players();
        let mut r: Vec<(Color, i8)> = Vec::new();
        let mut i: usize = 0;
        while i < players.len()
            invariant
                0 <= i <= ps.len(),
                players@ == ps,
                ps == self.spec_players(),
                self.wf(),
                tribes@.nonneg(),
                spies@.nonneg(),
                forall|k: int|
                    0 <= k < ps.len() ==> 0 <= (#[trigger] ps[k]).state.gifts.spec_count()
                        + tribes@.get(ps[k].color) + spies@.get(ps[k].color) <= i8::MAX,
                r@.len() == i,
                forall|k: int|
                    0 <= k < i ==> (#[trigger] r@[k]) == cylinder_entry(tribes@, spies@)(ps[k]),
            decreases ps.len() - i,
        {
            let p = &players[i];
            proof {
                assert(self.spec_players()[i as int] == ps[i as int]);
                assert(*p == ps[i as int]);
                assert(self.spec_players()[i as int].state.state_wf());
                assert(0 <= ps[i as int].state.gifts.spec_count() + tribes@.get(
                    ps[i as int].color,
                ) + spies@.get(ps[i as int].color) <= i8::MAX);
            }
            let gifts = p.state.gifts.count();
            let t = tribes.get(p.color);
            let s = spies.get(p.color);
            r.push((p.color, gifts + t + s));
            i = i + 1;
        }
        proof {
            assert(r@ =~= spec_cylinder_tallies(ps, tribes@, spies@));
            assert forall|a: int, b: int| 0 <= a < b < r@.len() implies (#[trigger] r@[a]).0 != (
            #[trigger] r@[b]).0 by {
                assert(self.spec_players()[a] == ps[a]);
                assert(self.spec_players()[b] == ps[b]);
                assert(ps[a].color != ps[b].color);
            }
        }
        r
    }

    /// Collect every spy pool across every player's court.
    pub fn spy_sets(&self) -> (r: Vec<CylinderSet>)
        requires
            self.wf(),
        ensures
            r@ == spec_spy_sets(self.spec_players()),
            forall|i: int| 0 <= i < r@.len() ==> (#[trigger] r@[i]).wf(),
    {
        let ghost ps = self.spec_players();
        let players = self.players();
        let mut r: Vec<CylinderSet> = Vec::new();
        let mut i: usize = 0;
        proof {
            broadcast use vstd::seq_lib::group_seq_properties;

            assert(ps.take(0).map_values(player_spies()) =~= Seq::<Seq<CylinderSet>>::empty());
            assert(r@ =~= spec_spy_sets(ps.take(0)));
        }
        while i < players.len()
            invariant
                0 <= i <= ps.len(),
                players@ == ps,
                ps == self.spec_players(),
                self.wf(),
                r@ == spec_spy_sets(ps.take(i as int)),
                forall|k: int| 0 <= k < r@.len() ==> (#[trigger] r@[k]).wf(),
            decreases ps.len() - i,
        {
            let ghost outer0 = r@;
            let court = &players[i].state.court;
            let ghost inner = court.cards@.map_values(spy_of());
            let mut j: usize = 0;
            while j < court.cards.len()
                invariant
                    0 <= j <= court.cards@.len(),
                    inner == court.cards@.map_values(spy_of()),
                    players[i as int].state.court == *court,
                    0 <= i < ps.len(),
                    players@ == ps,
                    ps == self.spec_players(),
                    self.wf(),
                    r@ == outer0 + inner.take(j as int),
                    forall|k: int| 0 <= k < r@.len() ==> (#[trigger] r@[k]).wf(),
                decreases court.cards@.len() - j,
            {
                r.push(court.cards[j].spies);
                proof {
                    assert(r@ =~= outer0 + inner.take(j + 1));
                    assert(self.spec_players()[i as int] == ps[i as int]);
                    assert(self.spec_players()[i as int].state.state_wf());
                    assert(court.cards@[j as int].spies.wf());
                }
                j = j + 1;
            }
            proof {
                broadcast use vstd::seq_lib::group_seq_properties;

                assert(inner.take(inner.len() as int) =~= inner);
                assert(ps.take(i + 1).map_values(player_spies()) =~= ps.take(i as int).map_values(
                    player_spies(),
                ).push(inner));
                Seq::lemma_flatten_push(ps.take(i as int).map_values(player_spies()), inner);
                assert(r@ =~= spec_spy_sets(ps.take(i + 1)));
            }
            i = i + 1;
        }
        proof {
            assert(ps.take(ps.len() as int) =~= ps);
        }
        r
    }

    /// Collect every reinforcement order: each court card with the
    /// insurrection ability names its region and its owner's coalition.
    pub fn collect_insurrections(&self) -> (r: Vec<(crate::map::Region, Coalition)>)
        requires
            self.wf(),
        ensures
            r@ == spec_insurrections(self.spec_players()),
    {
        let ghost ps = self.spec_players();
        let players = self.players();
        let mut r: Vec<(crate::map::Region, Coalition)> = Vec::new();
        let mut i: usize = 0;
        proof {
            assert(ps.take(0).map_values(player_insurrections()) =~= Seq::<
                Seq<(crate::map::Region, Coalition)>,
            >::empty());
            assert(r@ =~= spec_insurrections(ps.take(0)));
        }
        while i < players.len()
            invariant
                0 <= i <= ps.len(),
                players@ == ps,
                ps == self.spec_players(),
                self.wf(),
                r@ == spec_insurrections(ps.take(i as int)),
            decreases ps.len() - i,
        {
            let ghost outer0 = r@;
            let p = &players[i];
            let court = &p.state.court;
            let ghost inner = court.cards@.filter(has_insurrection()).map_values(
                insurrection_entry(p.state.loyalty),
            );
            let mut j: usize = 0;
            proof {
                reveal(Seq::filter);
                assert(court.cards@.take(0) =~= Seq::<CourtCard>::empty());
            }
            let mut found: Vec<(crate::map::Region, Coalition)> = Vec::new();
            while j < court.cards.len()
                invariant
                    0 <= j <= court.cards@.len(),
                    *p == ps[i as int],
                    0 <= i < ps.len(),
                    players@ == ps,
                    ps == self.spec_players(),
                    self.wf(),
                    found@ == court.cards@.take(j as int).filter(has_insurrection()).map_values(
                        insurrection_entry(p.state.loyalty),
                    ),
                decreases court.cards@.len() - j,
            {
                proof {
                    reveal(Seq::filter);
                    assert(court.cards@.take(j + 1).drop_last() =~= court.cards@.take(j as int));
                    assert(court.cards@.take(j + 1).last() == court.cards@[j as int]);
                }
                let card = &court.cards[j];
                let is_insurrection = match card.card().data().ability {
                    Some(crate::cards::court::SpecialAbility::Insurrection) => true,
                    _ => false,
                };
                if is_insurrection {
                    found.push((card.card().data().region, p.state.loyalty));
                    proof {
                        assert(found@ =~= court.cards@.take(j + 1).filter(
                            has_insurrection(),
                        ).map_values(insurrection_entry(p.state.loyalty)));
                    }
                } else {
                    proof {
                        assert(found@ =~= court.cards@.take(j + 1).filter(
                            has_insurrection(),
                        ).map_values(insurrection_entry(p.state.loyalty)));
                    }
                }
                j = j + 1;
            }
            let mut k: usize = 0;
            proof {
                assert(court.cards@.take(court.cards@.len() as int) =~= court.cards@);
                assert(found@ == inner);
            }
            while k < found.len()
                invariant
                    0 <= k <= found@.len(),
                    r@ == outer0 + found@.take(k as int),
                decreases found@.len() - k,
            {
                r.push(found[k]);
                proof {
                    assert(r@ =~= outer0 + found@.take(k + 1));
                }
                k = k + 1;
            }
            proof {
                assert(found@.take(found@.len() as int) =~= found@);
                assert(ps.take(i + 1).map_values(player_insurrections()) =~= ps.take(
                    i as int,
                ).map_values(player_insurrections()).push(inner));
                Seq::lemma_flatten_push(ps.take(i as int).map_values(player_insurrections()), inner);
                assert(r@ =~= spec_insurrections(ps.take(i + 1)));
            }
            i = i + 1;
        }
        proof {
            assert(ps.take(ps.len() as int) =~= ps);
        }
        r
    }
}

/// The prize cards one player holds.
pub open spec fn prize_cards_of() -> spec_fn(Player) -> Seq<court::Card> {
    |p: Player| p.state.prizes.cards@
}

/// Every prize card across every player, in turn order.
pub open spec fn spec_prize_cards(players: Seq<Player>) -> Seq<court::Card> {
    players.map_values(prize_cards_of()).flatten()
}

impl PlayerSet {
    /// Take every prize card away from every player, in turn order.
    pub fn drain_prizes(&mut self) -> (r: Vec<court::Card>)
        requires
            old(self).wf(),
        ensures
            final(self).wf(),
            r@ == spec_prize_cards(old(self).spec_players()),
            final(self).spec_players().len() == old(self).spec_players().len(),
            forall|i: int|
                0 <= i < old(self).spec_players().len() ==> {
                    let p0 = old(self).spec_players()[i];
                    &&& (#[trigger] final(self).spec_players()[i]) == (Player {
                        state: PlayerState {
                            prizes: final(self).spec_players()[i].state.prizes,
                            ..p0.state
                        },
                        ..p0
                    })
                    &&& final(self).spec_players()[i].state.prizes.cards@.len() == 0
                },
    {
        let ghost before = self.players@;
        let mut r: Vec<court::Card> = Vec::new();
        let n = self.players.len();
        let mut i: usize = 0;
        proof {
            assert(before.take(0).map_values(prize_cards_of()) =~= Seq::<
                Seq<court::Card>,
            >::empty());
            assert(r@ =~= spec_prize_cards(before.take(0)));
        }
        while i < n
            invariant
                0 <= i <= n,
                n == before.len(),
                self.players@ == before,
                r@ == spec_prize_cards(before.take(i as int)),
            decreases n - i,
        {
            let ghost outer0 = r@;
            let prizes = &self.players[i].state.prizes;
            let mut j: usize = 0;
            while j < prizes.cards.len()
                invariant
                    0 <= j <= prizes.cards@.len(),
                    *prizes == before[i as int].state.prizes,
                    0 <= i < before.len(),
                    self.players@ == before,
                    r@ == outer0 + prizes.cards@.take(j as int),
                decreases prizes.cards@.len() - j,
            {
                r.push(prizes.cards[j]);
                proof {
                    assert(r@ =~= outer0 + prizes.cards@.take(j + 1));
                }
                j = j + 1;
            }
            proof {
                assert(before[i as int].state.prizes.cards@.take(
                    before[i as int].state.prizes.cards@.len() as int,
                ) =~= before[i as int].state.prizes.cards@);
                assert(before.take(i + 1).map_values(prize_cards_of()) =~= before.take(
                    i as int,
                ).map_values(prize_cards_of()).push(before[i as int].state.prizes.cards@));
                Seq::lemma_flatten_push(
                    before.take(i as int).map_values(prize_cards_of()),
                    before[i as int].state.prizes.cards@,
                );
                assert(r@ =~= spec_prize_cards(before.take(i + 1)));
            }
            i = i + 1;
        }
        proof {
            assert(before.take(before.len() as int) =~= before);
        }
        let mut k: usize = 0;
        while k < n
            invariant
                0 <= k <= n,
                n == before.len(),
                self.players@.len() == n,
                forall|a: int| k <= a < n ==> (#[trigger] self.players@[a]) == before[a],
                forall|a: int|
                    0 <= a < k ==> {
                        &&& (#[trigger] self.players@[a]) == (Player {
                            state: PlayerState {
                                prizes: self.players@[a].state.prizes,
                                ..before[a].state
                            },
                            ..before[a]
                        })
                        &&& self.players@[a].state.prizes.cards@.len() == 0
                    },
            decreases n - k,
        {
            let p = &mut self.players[k];
            p.state.prizes = Hand::new();
            k = k + 1;
        }
        proof {
            assert forall|a: int, b: int|
                0 <= a < b < self.players@.len() implies (#[trigger] self.players@[a]).color != (
            #[trigger] self.players@[b]).color by {
                assert(before[a].color != before[b].color);
            }
            assert forall|a: int|
                0 <= a < self.players@.len() implies (
            #[trigger] self.players@[a]).state.state_wf() by {
                assert(before[a].state.state_wf());
            }
        }
        r
    }
}

/// More than five seated players would need two with one color.
proof fn lemma_five_colors(players: Seq<PlayerInit>)
    requires
        players.len() > 5,
    ensures
        !init_colors_distinct(players),
{
    if init_colors_distinct(players) {
        let c0 = players[0].color;
        let c1 = players[1].color;
        let c2 = players[2].color;
        let c3 = players[3].color;
        let c4 = players[4].color;
        let c5 = players[5].color;
        assert(false);
    }
}

} // verus!

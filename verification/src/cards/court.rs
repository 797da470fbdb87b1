use vstd::prelude::*;

use crate::map::Region;
use crate::primitives::{Coalition, Suit};

verus! {

/// The rank of a court card.
#[derive(Debug, Clone, Copy, PartialEq, Eq, Structural)]
pub enum Rank {
    One,
    Two,
    Three,
}

impl Rank {
    /// The numeric worth of this rank.
    pub open spec fn spec_value(self) -> int {
        match self {
            Rank::One => 1,
            Rank::Two => 2,
            Rank::Three => 3,
        }
    }

    /// The numeric worth of this rank.
    pub fn value(&self) -> (r: i8)
        ensures
            r == self.spec_value(),
    {
        match self {
            Rank::One => 1,
            Rank::Two => 2,
            Rank::Three => 3,
        }
    }
}

/// What placing a card in a court puts into play.
#[derive(Debug, Clone, Copy)]
pub struct Impact {
    pub armies: i8,
    pub roads: i8,
    pub spies: i8,
    pub tribes: i8,
    pub leverage: bool,
    pub favor: Option<Suit>,
}

/// Which of the six card-driven actions a card offers.
#[derive(Debug, Clone, Copy)]
pub struct ActionSet {
    pub tax: bool,
    pub gift: bool,
    pub build: bool,
    pub movement: bool,
    pub betray: bool,
    pub battle: bool,
}

impl ActionSet {
    /// How many actions this set offers.
    pub open spec fn spec_count(self) -> int {
        (if self.tax {
            1int
        } else {
            0int
        }) + (if self.gift {
            1int
        } else {
            0int
        }) + (if self.build {
            1int
        } else {
            0int
        }) + (if self.movement {
            1int
        } else {
            0int
        }) + (if self.betray {
            1int
        } else {
            0int
        }) + (if self.battle {
            1int
        } else {
            0int
        })
    }

    /// How many actions this set offers.
    pub fn count(&self) -> (r: usize)
        ensures
            r == self.spec_count(),
    {
        let mut r: usize = 0;
        if self.tax {
            r = r + 1;
        }
        if self.gift {
            r = r + 1;
        }
        if self.build {
            r = r + 1;
        }
        if self.movement {
            r = r + 1;
        }
        if self.betray {
            r = r + 1;
        }
        if self.battle {
            r = r + 1;
        }
        r
    }

    /// Whether this set offers the given action.
    pub open spec fn spec_has(self, action: CardAction) -> bool {
        match action {
            CardAction::Tax => self.tax,
            CardAction::Gift => self.gift,
            CardAction::Build => self.build,
            CardAction::Move => self.movement,
            CardAction::Betray => self.betray,
            CardAction::Battle => self.battle,
        }
    }

    /// Whether this set offers the given action.
    pub fn has(&self, action: CardAction) -> (r: bool)
        ensures
            r == self.spec_has(action),
    {
        match action {
            CardAction::Tax => self.tax,
            CardAction::Gift => self.gift,
            CardAction::Build => self.build,
            CardAction::Move => self.movement,
            CardAction::Betray => self.betray,
            CardAction::Battle => self.battle,
        }
    }
}

/// The six card-driven actions.
#[derive(Debug, Clone, Copy, PartialEq, Eq, Structural)]
pub enum CardAction {
    Tax,
    Gift,
    Build,
    Move,
    Betray,
    Battle,
}

/// Special abilities that a card can have. These are global passives that
/// aren't affected by spies on the card.
#[derive(Debug, Clone, Copy, PartialEq, Eq, Structural)]
pub enum SpecialAbility {
    /// Cards that share a region are adjacent for spy movement
    StrangeBedfellows,
    /// Don't pay for cards sharing this coalition
    CoalitionInfluence,
    /// This card is always considered favored
    SavvyOperator,
    /// This card is always considered favored
    Irregulars,
    /// Tribes in this region can't be attacked
    Citadel,
    /// Don't pay bribes when playing cards
    CharismaticCourtiers,
    /// Spies killed in battle return to this card
    SafeHouse,
    /// After you take the build action, place one additional block
    Infrastructure,
    /// Your political cards cannot be betrayed
    Bodyguards,
    /// Don't pay for cards sharing this region
    RegionInfluence,
    /// At the start of your turn, place a spy on any card matching this
    /// region
    Blackmail,
    /// Your spies cannot be removed in battles with other spies
    IndispensableAdvisors,
    /// After resolving a dominance check, place two armies in this region
    Insurrection,
    /// Do not pay bribes when taking hostage actions
    CivilServiceReforms,
    /// Tax as though you rule every region
    ClaimOfAncientLineage,
    /// Your armies may move without a road
    IndianSupplies,
    /// Spies move double distance
    WellConnected,
}

/// The printed attributes of a court card.
#[derive(Debug, Clone, Copy)]
pub struct CardData {
    pub name: &'static str,
    pub rank: Rank,
    pub suit: Suit,
    pub region: Region,
    pub patriot: Option<Coalition>,
    pub prize: Option<Coalition>,
    pub impact: Impact,
    pub actions: ActionSet,
    pub ability: Option<SpecialAbility>,
}

/// A court card.
#[derive(Debug, Clone, Copy)]
pub struct Card {
    pub(crate) data: CardData,
}

impl Card {
    /// The printed attributes of this card.
    pub closed spec fn spec_data(self) -> CardData {
        self.data
    }

    /// Wrap printed card attributes as a card.
    pub fn new(data: CardData) -> (r: Self)
        ensures
            r.spec_data() == data,
    {
        Self { data }
    }

    /// The printed attributes of this card.
    pub fn data(&self) -> (r: &CardData)
        ensures
            *r == self.spec_data(),
    {
        &self.data
    }
}

} // verus!

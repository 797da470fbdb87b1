use vstd::prelude::*;

pub mod dominance;
pub mod end_turn;
pub mod event;

use crate::blocks::BlockSet;
use crate::cards::Card;
use crate::map::GameMap;
use crate::market::Market;
use crate::player::PlayerSet;
use crate::primitives::Suit;

verus! {

/// Permanent game-wide effects (triggered by event cards). All of these
/// are reset by a dominance check.
#[derive(Debug, Clone, Copy, PartialEq, Eq, Structural)]
pub struct Effects {
    /// Coalitions only require 2 blocks for dominance
    pub conflict_fatigue: bool,
    /// The climate cannot be changed
    pub pashtunwali_values: bool,
    /// Gifts are not worth influence
    pub embarrassment_of_riches: bool,
    /// Ignore all bribes
    pub disregard_for_customs: bool,
}

impl Effects {
    /// Every effect inactive.
    pub open spec fn spec_default() -> Effects {
        Effects {
            conflict_fatigue: false,
            pashtunwali_values: false,
            embarrassment_of_riches: false,
            disregard_for_customs: false,
        }
    }

    /// Fresh effects: every one inactive.
    pub fn new() -> (r: Self)
        ensures
            r == Effects::spec_default(),
    {
        Effects {
            conflict_fatigue: false,
            pashtunwali_values: false,
            embarrassment_of_riches: false,
            disregard_for_customs: false,
        }
    }

    /// Reset every effect to inactive.
    pub fn clear(&mut self)
        ensures
            *final(self) == Effects::spec_default(),
    {
        *self = Effects::new();
    }
}

/// The state of the current player's turn.
pub struct TurnState {
    pub player: usize,
    pub actions_taken: i8,
}

/// The request queue is the set of player decisions that need to be played
/// before normal play can continue.
pub struct RequestQueue {}

/// The whole game state.
pub struct Game {
    /// The actual map
    pub map: GameMap,
    /// The market of cards available for purchase
    pub market: Market,
    /// The current favored suit
    pub climate: Suit,
    /// The current set of ongoing effects from event cards
    pub effects: Effects,
    /// The bank of blocks that are not currently on the map
    pub blocks: BlockSet,
    /// The players in the game along with all their state
    pub players: PlayerSet,
    /// The discard pile of cards
    pub discard: Vec<Card>,
    /// Information about the current turn
    pub turn: TurnState,
}

impl Game {
    /// Attempt to change the current climate. Does nothing if Pashtunwali
    /// Values is in effect.
    pub fn try_set_climate(&mut self, climate: Suit)
        ensures
            old(self).effects.pashtunwali_values ==> *final(self) == *old(self),
            !old(self).effects.pashtunwali_values ==> *final(self) == (Game {
                climate,
                ..*old(self)
            }),
    {
        if !self.effects.pashtunwali_values {
            self.climate = climate
        }
    }
}

} // verus!

use vstd::prelude::*;

use crate::map::Region;
use crate::primitives::Suit;

verus! {

/// What an event card does when it is discarded from the market.
#[derive(Debug, Clone, Copy, PartialEq, Eq, Structural)]
pub enum DiscardEvent {
    /// The current climate changes to this
    ChangeSuit(Suit),
    /// All the armies and tribes in this region are destroyed
    Riots(Region),
    /// Ignore all bribes
    DisregardForCustoms,
    /// Used by Public Withdrawal
    NoEffect,
    /// All players must discard 1
    ConfidenceFailure,
    /// Discard all loyalty prizes
    FailureToImpress,
    /// Gifts are worthless
    EmbarrassmentOfRiches,
}

/// What an event card does when a player purchases it.
#[derive(Debug, Clone, Copy, PartialEq, Eq, Structural)]
pub enum PurchaseEvent {
    /// Gifts are worth double
    KohINoorRecovered,
    /// Target player patriots are worthless
    Rumor,
    /// Trade hands with a player
    OtherPersuasiveMethods,
    /// Eat coins. Can't be purchased
    PublicWithdrawal,
    /// May ignore paying bribes
    CourtlyManners,
    /// Build twice as many blocks
    NationBuilding,
    /// Permanently change the climate
    PashtunwaliValues,
    /// Tribes may move and battle
    Nationalism,
    /// Coalitions only need 2 blocks for dominance
    ConflictFatigue,
    /// Your military cards are always considered favored
    NewTactics,
    /// Remove all tribes and armies from a single region
    Rebuke,
    /// Take 3 free rupees
    PersianAristocracy,
}

/// An ordinary event card: one effect when discarded, another when
/// purchased.
#[derive(Debug, Clone, Copy, PartialEq, Eq, Structural)]
pub struct EventCard {
    pub discard: DiscardEvent,
    pub purchase: PurchaseEvent,
}

/// A card of the event deck: an ordinary event, or a dominance check
/// trigger.
#[derive(Debug, Clone, Copy, PartialEq, Eq, Structural)]
pub enum Card {
    Event(EventCard),
    Dominance,
}

} // verus!

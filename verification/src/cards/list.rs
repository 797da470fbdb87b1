use vstd::prelude::*;

use super::court;
use super::event::{DiscardEvent, EventCard, PurchaseEvent};
use crate::map::Region;
use crate::primitives::Suit;

verus! {

/// The printed event cards of the game, in table order.
pub open spec fn spec_event_card_list() -> Seq<EventCard> {
    seq![
        EventCard { discard: DiscardEvent::NoEffect, purchase: PurchaseEvent::PublicWithdrawal },
        EventCard {
            discard: DiscardEvent::ConfidenceFailure,
            purchase: PurchaseEvent::OtherPersuasiveMethods,
        },
        EventCard {
            discard: DiscardEvent::ChangeSuit(Suit::Political),
            purchase: PurchaseEvent::Rebuke,
        },
        EventCard {
            discard: DiscardEvent::Riots(Region::Persia),
            purchase: PurchaseEvent::PersianAristocracy,
        },
        EventCard {
            discard: DiscardEvent::DisregardForCustoms,
            purchase: PurchaseEvent::CourtlyManners,
        },
        EventCard {
            discard: DiscardEvent::EmbarrassmentOfRiches,
            purchase: PurchaseEvent::KohINoorRecovered,
        },
        EventCard { discard: DiscardEvent::FailureToImpress, purchase: PurchaseEvent::Rumor },
        EventCard {
            discard: DiscardEvent::ChangeSuit(Suit::Intelligence),
            purchase: PurchaseEvent::PashtunwaliValues,
        },
        EventCard {
            discard: DiscardEvent::Riots(Region::Herat),
            purchase: PurchaseEvent::Nationalism,
        },
        EventCard {
            discard: DiscardEvent::Riots(Region::Punjab),
            purchase: PurchaseEvent::ConflictFatigue,
        },
        EventCard {
            discard: DiscardEvent::Riots(Region::Kabul),
            purchase: PurchaseEvent::NationBuilding,
        },
        EventCard {
            discard: DiscardEvent::ChangeSuit(Suit::Military),
            purchase: PurchaseEvent::NewTactics,
        },
    ]
}

/// All the court cards of the game. The printed card table is owned by the
/// card-data collaborator; this core ships without one.
pub fn all_court_cards() -> (r: Vec<court::Card>)
    ensures
        r@.len() == 0,
{
    Vec::new()
}

/// All the event cards of the game, in table order.
pub fn all_event_cards() -> (r: Vec<EventCard>)
    ensures
        r@ == spec_event_card_list(),
        r@.len() == 12,
{
    let mut r: Vec<EventCard> = Vec::new();
    r.push(
        EventCard { discard: DiscardEvent::NoEffect, purchase: PurchaseEvent::PublicWithdrawal },
    );
    r.push(
        EventCard {
            discard: DiscardEvent::ConfidenceFailure,
            purchase: PurchaseEvent::OtherPersuasiveMethods,
        },
    );
    r.push(
        EventCard {
            discard: DiscardEvent::ChangeSuit(Suit::Political),
            purchase: PurchaseEvent::Rebuke,
        },
    );
    r.push(
        EventCard {
            discard: DiscardEvent::Riots(Region::Persia),
            purchase: PurchaseEvent::PersianAristocracy,
        },
    );
    r.push(
        EventCard {
            discard: DiscardEvent::DisregardForCustoms,
            purchase: PurchaseEvent::CourtlyManners,
        },
    );
    r.push(
        EventCard {
            discard: DiscardEvent::EmbarrassmentOfRiches,
            purchase: PurchaseEvent::KohINoorRecovered,
        },
    );
    r.push(EventCard { discard: DiscardEvent::FailureToImpress, purchase: PurchaseEvent::Rumor });
    r.push(
        EventCard {
            discard: DiscardEvent::ChangeSuit(Suit::Intelligence),
            purchase: PurchaseEvent::PashtunwaliValues,
        },
    );
    r.push(
        EventCard {
            discard: DiscardEvent::Riots(Region::Herat),
            purchase: PurchaseEvent::Nationalism,
        },
    );
    r.push(
        EventCard {
            discard: DiscardEvent::Riots(Region::Punjab),
            purchase: PurchaseEvent::ConflictFatigue,
        },
    );
    r.push(
        EventCard {
            discard: DiscardEvent::Riots(Region::Kabul),
            purchase: PurchaseEvent::NationBuilding,
        },
    );
    r.push(
        EventCard {
            discard: DiscardEvent::ChangeSuit(Suit::Military),
            purchase: PurchaseEvent::NewTactics,
        },
    );
    proof {
        assert(r@ =~= spec_event_card_list());
    }
    r
}

} // verus!

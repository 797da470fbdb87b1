use vstd::prelude::*;

pub mod court;
pub mod event;
pub mod list;

verus! {

/// Any card of the game: a court card or an event-deck card.
#[derive(Debug, Clone, Copy)]
pub enum Card {
    Court(court::Card),
    Event(event::Card),
}

impl Card {
    /// Whether this card triggers a dominance check when discarded.
    pub open spec fn spec_is_dominance(self) -> bool {
        self matches Card::Event(event::Card::Dominance)
    }

    /// Whether this card triggers a dominance check when discarded.
    pub fn is_dominance(&self) -> (r: bool)
        ensures
            r == self.spec_is_dominance(),
    {
        match self {
            Card::Event(event::Card::Dominance) => true,
            _ => false,
        }
    }
}

} // verus!

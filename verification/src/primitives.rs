use vstd::prelude::*;

verus! {

/// One of the three political factions contesting map control.
#[derive(Debug, Clone, Copy, PartialEq, Eq, Hash, Structural)]
pub enum Coalition {
    Britain,
    Russia,
    Afghanistan,
}

/// The suit of a court card.
#[derive(Debug, Clone, Copy, PartialEq, Eq, Hash, Structural)]
pub enum Suit {
    Political,
    Intelligence,
    Economic,
    Military,
}

} // verus!

use std::collections::HashSet;

use vstd::prelude::*;

verus! {

/// The set of cards the player will discard at the end of their turn,
/// named by position in their court and hand.
pub struct Discards {
    pub court: HashSet<usize>,
    pub hand: HashSet<usize>,
}

} // verus!

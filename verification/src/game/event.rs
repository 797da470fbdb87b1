use vstd::prelude::*;

use crate::cards;
use crate::cards::event::{DiscardEvent, PurchaseEvent};
use crate::player::{self, Player, PlayerState};
use crate::rupees::RupeeSet;

use super::{Effects, Game};

verus! {

/// When Confidence Failure is resolved, all players must discard a card
/// from their hand. This struct captures every player's choice.
pub struct DiscardChoices {
    pub red: Option<usize>,
    pub blue: Option<usize>,
    pub yellow: Option<usize>,
    pub black: Option<usize>,
    pub grey: Option<usize>,
}

/// When Confidence Failure is resolved, if any players didn't designate a
/// card to discard, this struct indicates which players must do so.
pub struct MustDiscard {
    /// The set of players who must designate a discard and didn't do so
    pub absent_players: (),
}

/// A prize card returned to the shared discard pile.
pub open spec fn as_court_card() -> spec_fn(crate::cards::court::Card) -> cards::Card {
    |c: crate::cards::court::Card| cards::Card::Court(c)
}

/// Whether two game states differ only in the player at the current seat.
pub open spec fn only_current_player_changed(g0: Game, g1: Game, p1: Player) -> bool {
    &&& g1.players.spec_players() == g0.players.spec_players().update(g0.turn.player as int, p1)
    &&& g1.map == g0.map
    &&& g1.market == g0.market
    &&& g1.climate == g0.climate
    &&& g1.effects == g0.effects
    &&& g1.blocks == g0.blocks
    &&& g1.discard == g0.discard
    &&& g1.turn == g0.turn
}

impl Game {
    /// Apply the discard-side effect of an event card leaving the market.
    /// Events whose resolution needs further player decisions (riots,
    /// confidence failure) belong to the turn-action collaborator, not to
    /// this core, so they are not accepted here.
    pub fn apply_discard_event(&mut self, event: DiscardEvent)
        requires
            old(self).players.wf(),
            !(event matches DiscardEvent::Riots(_)),
            event != DiscardEvent::ConfidenceFailure,
        ensures
            final(self).players.wf(),
            event matches DiscardEvent::ChangeSuit(suit) ==> if old(
                self,
            ).effects.pashtunwali_values {
                *final(self) == *old(self)
            } else {
                *final(self) == (Game { climate: suit, ..*old(self) })
            },
            event == DiscardEvent::DisregardForCustoms ==> *final(self) == (Game {
                effects: Effects { disregard_for_customs: true, ..old(self).effects },
                ..*old(self)
            }),
            event == DiscardEvent::NoEffect ==> *final(self) == *old(self),
            event == DiscardEvent::EmbarrassmentOfRiches ==> *final(self) == (Game {
                effects: Effects { embarrassment_of_riches: true, ..old(self).effects },
                ..*old(self)
            }),
            event == DiscardEvent::FailureToImpress ==> {
                &&& final(self).discard@ == old(self).discard@ + player::spec_prize_cards(
                    old(self).players.spec_players(),
                ).map_values(as_court_card())
                &&& final(self).players.spec_players().len() == old(
                    self,
                ).players.spec_players().len()
                &&& forall|i: int|
                    0 <= i < old(self).players.spec_players().len() ==> {
                        let p0 = old(self).players.spec_players()[i];
                        &&& (#[trigger] final(self).players.spec_players()[i]) == (Player {
                            state: PlayerState {
                                prizes: final(self).players.spec_players()[i].state.prizes,
                                ..p0.state
                            },
                            ..p0
                        })
                        &&& final(self).players.spec_players()[i].state.prizes.cards@.len() == 0
                    }
                &&& final(self).map == old(self).map
                &&& final(self).market == old(self).market
                &&& final(self).climate == old(self).climate
                &&& final(self).effects == old(self).effects
                &&& final(self).blocks == old(self).blocks
                &&& final(self).turn == old(self).turn
            },
    {
        match event {
            DiscardEvent::ChangeSuit(suit) => self.try_set_climate(suit),
            DiscardEvent::Riots(_) => {
            },
            DiscardEvent::DisregardForCustoms => self.effects.disregard_for_customs = true,
            DiscardEvent::NoEffect => {
            },
            DiscardEvent::ConfidenceFailure => {
            },
            DiscardEvent::FailureToImpress => {
                let drained = self.players.drain_prizes();
                let ghost mid = *self;
                let ghost d0 = self.discard@;
                proof {
                    assert(self.discard@ =~= d0 + drained@.take(0).map_values(as_court_card()));
                }
                let mut j: usize = 0;
                while j < drained.len()
                    invariant
                        0 <= j <= drained@.len(),
                        self.discard@ == d0 + drained@.take(j as int).map_values(as_court_card()),
                        self.players == mid.players,
                        self.map == mid.map,
                        self.market == mid.market,
                        self.climate == mid.climate,
                        self.effects == mid.effects,
                        self.blocks == mid.blocks,
                        self.turn == mid.turn,
                    decreases drained@.len() - j,
                {
                    self.discard.push(cards::Card::Court(drained[j]));
                    proof {
                        assert(self.discard@ =~= d0 + drained@.take(j + 1).map_values(
                            as_court_card(),
                        ));
                    }
                    j = j + 1;
                }
                proof {
                    assert(drained@.take(drained@.len() as int) =~= drained@);
                }
            },
            DiscardEvent::EmbarrassmentOfRiches => self.effects.embarrassment_of_riches = true,
        }
    }

    /// Replace the current player's event modifiers.
    fn update_current_effects(&mut self, effects: player::Effects)
        requires
            old(self).players.wf(),
            old(self).turn.player < old(self).players.spec_players().len(),
        ensures
            final(self).players.wf(),
            ({
                let p0 = old(self).players.spec_players()[old(self).turn.player as int];
                only_current_player_changed(
                    *old(self),
                    *final(self),
                    Player { state: PlayerState { effects, ..p0.state }, ..p0 },
                )
            }),
    {
        let ghost g0 = *self;
        let seat = self.turn.player;
        let current = self.players.player_mut(seat);
        current.state.effects = effects;
        proof {
            let ps0 = g0.players.spec_players();
            assert forall|a: int, b: int|
                0 <= a < b < self.players.spec_players().len() implies (
            #[trigger] self.players.spec_players()[a]).color != (
            #[trigger] self.players.spec_players()[b]).color by {
                assert(ps0[a].color != ps0[b].color);
            }
            assert forall|a: int|
                0 <= a < self.players.spec_players().len() implies (
            #[trigger] self.players.spec_players()[a]).state.state_wf() by {
                assert(ps0[a].state.state_wf());
            }
        }
    }

    /// Add rupees to the current player's purse.
    fn add_current_rupees(&mut self, n: i8)
        requires
            old(self).players.wf(),
            old(self).turn.player < old(self).players.spec_players().len(),
            n >= 0,
            old(self).players.spec_players()[old(self).turn.player as int].state.rupees.spec_count()
                + n <= i8::MAX,
        ensures
            final(self).players.wf(),
            ({
                let p0 = old(self).players.spec_players()[old(self).turn.player as int];
                let p1 = final(self).players.spec_players()[old(self).turn.player as int];
                &&& only_current_player_changed(*old(self), *final(self), p1)
                &&& p1 == (Player {
                    state: PlayerState { rupees: p1.state.rupees, ..p0.state },
                    ..p0
                })
                &&& p1.state.rupees.spec_count() == p0.state.rupees.spec_count() + n
            }),
    {
        let ghost g0 = *self;
        let seat = self.turn.player;
        proof {
            assert(g0.players.spec_players()[seat as int].state.state_wf());
        }
        let current = self.players.player_mut(seat);
        current.state.rupees.add(RupeeSet::new(n));
        proof {
            let ps0 = g0.players.spec_players();
            assert forall|a: int, b: int|
                0 <= a < b < self.players.spec_players().len() implies (
            #[trigger] self.players.spec_players()[a]).color != (
            #[trigger] self.players.spec_players()[b]).color by {
                assert(ps0[a].color != ps0[b].color);
            }
            assert forall|a: int|
                0 <= a < self.players.spec_players().len() implies (
            #[trigger] self.players.spec_players()[a]).state.state_wf() by {
                assert(ps0[a].state.state_wf());
            }
        }
    }

    /// Apply the purchase-side effect of an event card a player buys.
    /// Events the engine leaves to its collaborators (hand trades, rumors,
    /// public withdrawal, climate locks, rebukes) are not accepted here.
    pub fn apply_purchase_event(&mut self, event: PurchaseEvent)
        requires
            old(self).players.wf(),
            old(self).turn.player < old(self).players.spec_players().len(),
            event != PurchaseEvent::Rumor,
            event != PurchaseEvent::OtherPersuasiveMethods,
            event != PurchaseEvent::PublicWithdrawal,
            event != PurchaseEvent::PashtunwaliValues,
            event != PurchaseEvent::Rebuke,
            event == PurchaseEvent::PersianAristocracy ==> old(self).players.spec_players()[old(
                self,
            ).turn.player as int].state.rupees.spec_count() + 3 <= i8::MAX,
        ensures
            final(self).players.wf(),
            ({
                let p0 = old(self).players.spec_players()[old(self).turn.player as int];
                &&& (event == PurchaseEvent::KohINoorRecovered ==> only_current_player_changed(
                    *old(self),
                    *final(self),
                    Player {
                        state: PlayerState {
                            effects: player::Effects { kohinoor: true, ..p0.state.effects },
                            ..p0.state
                        },
                        ..p0
                    },
                ))
                &&& (event == PurchaseEvent::CourtlyManners ==> only_current_player_changed(
                    *old(self),
                    *final(self),
                    Player {
                        state: PlayerState {
                            effects: player::Effects { courtly_manners: true, ..p0.state.effects },
                            ..p0.state
                        },
                        ..p0
                    },
                ))
                &&& (event == PurchaseEvent::NationBuilding ==> only_current_player_changed(
                    *old(self),
                    *final(self),
                    Player {
                        state: PlayerState {
                            effects: player::Effects { nation_building: true, ..p0.state.effects },
                            ..p0.state
                        },
                        ..p0
                    },
                ))
                &&& (event == PurchaseEvent::Nationalism ==> only_current_player_changed(
                    *old(self),
                    *final(self),
                    Player {
                        state: PlayerState {
                            effects: player::Effects { nationalism: true, ..p0.state.effects },
                            ..p0.state
                        },
                        ..p0
                    },
                ))
                &&& (event == PurchaseEvent::NewTactics ==> only_current_player_changed(
                    *old(self),
                    *final(self),
                    Player {
                        state: PlayerState {
                            effects: player::Effects { new_tactics: true, ..p0.state.effects },
                            ..p0.state
                        },
                        ..p0
                    },
                ))
                &&& (event == PurchaseEvent::PersianAristocracy ==> ({
                    let p1 = final(self).players.spec_players()[old(self).turn.player as int];
                    only_current_player_changed(*old(self), *final(self), p1) && p1 == (Player {
                        state: PlayerState { rupees: p1.state.rupees, ..p0.state },
                        ..p0
                    }) && p1.state.rupees.spec_count() == p0.state.rupees.spec_count() + 3
                }))
                &&& (event == PurchaseEvent::ConflictFatigue ==> *final(self) == (Game {
                    effects: Effects { conflict_fatigue: true, ..old(self).effects },
                    ..*old(self)
                }))
            }),
    {
        match event {
            PurchaseEvent::KohINoorRecovered => {
                let cur = self.players.player(self.turn.player).state.effects;
                self.update_current_effects(player::Effects { kohinoor: true, ..cur });
            },
            PurchaseEvent::Rumor => {
            },
            PurchaseEvent::OtherPersuasiveMethods => {
            },
            PurchaseEvent::PublicWithdrawal => {
            },
            PurchaseEvent::CourtlyManners => {
                let cur = self.players.player(self.turn.player).state.effects;
                self.update_current_effects(player::Effects { courtly_manners: true, ..cur });
            },
            PurchaseEvent::NationBuilding => {
                let cur = self.players.player(self.turn.player).state.effects;
                self.update_current_effects(player::Effects { nation_building: true, ..cur });
            },
            PurchaseEvent::PashtunwaliValues => {
            },
            PurchaseEvent::Nationalism => {
                let cur = self.players.player(self.turn.player).state.effects;
                self.update_current_effects(player::Effects { nationalism: true, ..cur });
            },
            PurchaseEvent::ConflictFatigue => {
                self.effects.conflict_fatigue = true;
            },
            PurchaseEvent::NewTactics => {
                let cur = self.players.player(self.turn.player).state.effects;
                self.update_current_effects(player::Effects { new_tactics: true, ..cur });
            },
            PurchaseEvent::Rebuke => {
            },
            PurchaseEvent::PersianAristocracy => {
                self.add_current_rupees(3);
            },
        }
    }
}

} // verus!

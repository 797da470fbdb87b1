use pamir::blocks::BlockSet;
use pamir::cards::court::{ActionSet, CardData, Impact, Rank, SpecialAbility};
use pamir::cards::{court, event, Card};
use pamir::deck::build_deck;
use pamir::game::dominance::check_dominance;
use pamir::game::{Effects, Game, TurnState};
use pamir::map::{GameMap, Region};
use pamir::market::{Column, Market, MarketRow};
use pamir::player::{Color, CourtCard, PlayerInit, PlayerSet};
use pamir::primitives::{Coalition, Suit};
use pamir::rupees::RupeeSet;

fn two_player_set() -> PlayerSet {
    let inits = vec![
        PlayerInit { color: Color::Red, loyalty: Coalition::Britain, name: "red".to_string() },
        PlayerInit { color: Color::Blue, loyalty: Coalition::Russia, name: "blue".to_string() },
    ];
    PlayerSet::new(inits).unwrap()
}

fn fresh_game(map: GameMap, blocks: BlockSet, players: PlayerSet) -> Game {
    Game {
        map,
        market: Market::new(),
        climate: Suit::Political,
        effects: Effects::new(),
        blocks,
        players,
        discard: Vec::new(),
        turn: TurnState { player: 0, actions_taken: 0 },
    }
}

fn plain_card(ability: Option<SpecialAbility>, region: Region) -> court::Card {
    court::Card::new(CardData {
        name: "test card",
        rank: Rank::One,
        suit: Suit::Military,
        region,
        patriot: None,
        prize: None,
        impact: Impact {
            armies: 0,
            roads: 0,
            spies: 0,
            tribes: 0,
            leverage: false,
            favor: None,
        },
        actions: ActionSet {
            tax: false,
            gift: false,
            build: false,
            movement: false,
            betray: false,
            battle: false,
        },
        ability,
    })
}

#[test]
fn duplicate_color_is_rejected() {
    let inits = vec![
        PlayerInit { color: Color::Red, loyalty: Coalition::Britain, name: "a".to_string() },
        PlayerInit { color: Color::Blue, loyalty: Coalition::Russia, name: "b".to_string() },
        PlayerInit { color: Color::Red, loyalty: Coalition::Afghanistan, name: "c".to_string() },
    ];
    let err = match PlayerSet::new(inits) {
        Ok(_) => panic!("duplicate color accepted"),
        Err(e) => e,
    };
    assert_eq!(err.0, Color::Red);
}

#[test]
fn dominance_threshold_cases() {
    // totals {Britain: 6, Russia: 2, Afghanistan: 0}: the gap of 4 meets
    // the default threshold, and of course the lowered one
    let mut tray = BlockSet::new_tray();
    let mut totals = tray.take_up_to(6, Coalition::Britain);
    totals.add(tray.take_up_to(2, Coalition::Russia));
    assert_eq!(check_dominance(&totals, false), Some(Coalition::Britain));
    assert_eq!(check_dominance(&totals, true), Some(Coalition::Britain));

    // totals {Britain: 5, Russia: 3, Afghanistan: 0}: the gap of 2 only
    // suffices under conflict fatigue
    let mut tray = BlockSet::new_tray();
    let mut close = tray.take_up_to(5, Coalition::Britain);
    close.add(tray.take_up_to(3, Coalition::Russia));
    assert_eq!(check_dominance(&close, false), None);
    assert_eq!(check_dominance(&close, true), Some(Coalition::Britain));
}

#[test]
fn payment_distributes_back_to_front() {
    // a row with three occupied slots and a payment of five: one rupee on
    // the back, one on the middle, and the remaining three as a lump on
    // the front
    let mut row = MarketRow::new();
    let mut supply = vec![
        Card::Event(event::Card::Dominance),
        Card::Event(event::Card::Dominance),
        Card::Event(event::Card::Dominance),
    ];
    row.fill_from(&mut supply);
    assert_eq!(row.count(), 3);
    let r = row.spend_for_ability(RupeeSet::new(5));
    assert!(r.is_ok());
    let front = row.get_card(Column::Zero).unwrap();
    assert_eq!(front.rupees().count(), 3);
    assert!(front.marked());
    let middle = row.get_card(Column::One).unwrap();
    assert_eq!(middle.rupees().count(), 1);
    assert!(middle.marked());
    let back = row.get_card(Column::Two).unwrap();
    assert_eq!(back.rupees().count(), 1);
    assert!(back.marked());
}

#[test]
fn payment_rejected_by_empty_row() {
    let mut row = MarketRow::new();
    let r = row.spend_for_ability(RupeeSet::new(5));
    let returned = r.unwrap_err();
    assert_eq!(returned.count(), 5);
    assert_eq!(row.count(), 0);
}

#[test]
fn small_payment_never_reaches_the_front() {
    let mut row = MarketRow::new();
    let mut supply = vec![
        Card::Event(event::Card::Dominance),
        Card::Event(event::Card::Dominance),
        Card::Event(event::Card::Dominance),
    ];
    row.fill_from(&mut supply);
    let r = row.spend_for_ability(RupeeSet::new(1));
    assert!(r.is_ok());
    assert_eq!(row.get_card(Column::Zero).unwrap().rupees().count(), 0);
    assert!(!row.get_card(Column::Zero).unwrap().marked());
    assert_eq!(row.get_card(Column::One).unwrap().rupees().count(), 0);
    assert_eq!(row.get_card(Column::Two).unwrap().rupees().count(), 1);
}

#[test]
fn refill_compacts_to_the_front() {
    let mut row = MarketRow::new();
    let mut supply = vec![
        Card::Event(event::Card::Dominance),
        Card::Event(event::Card::Dominance),
        Card::Event(event::Card::Dominance),
    ];
    row.fill_from(&mut supply);
    assert!(supply.is_empty());
    // open a gap at the front, then refill from a fresh supply
    let taken = row.take_card(Column::Zero);
    assert!(taken.is_some());
    assert_eq!(row.count(), 2);
    let mut more = vec![Card::Event(event::Card::Dominance)];
    row.fill_from(&mut more);
    assert_eq!(row.count(), 3);
    assert!(row.get_card(Column::Zero).is_some());
    assert!(row.get_card(Column::One).is_some());
    assert!(row.get_card(Column::Two).is_some());
    assert!(row.get_card(Column::Three).is_none());
}

#[test]
fn military_dominance_scores_influence_and_clears_the_map() {
    let mut bank = BlockSet::new_tray();
    let mut map = GameMap::new();
    let armies = bank.take_up_to(6, Coalition::Britain);
    map.add_armies(Region::Kabul, armies);
    let armies = bank.take_up_to(2, Coalition::Russia);
    map.add_armies(Region::Herat, armies);
    let mut game = fresh_game(map, bank, two_player_set());
    let over = game.resolve_dominance_check();
    assert!(over.is_none());
    // only the red player is loyal to Britain; their influence of 1 tops
    // the [5, 3, 1] schedule
    assert_eq!(game.players.players()[0].state.score, 5);
    assert_eq!(game.players.players()[1].state.score, 0);
    // every block went home
    assert_eq!(game.blocks.count(Coalition::Britain), 12);
    assert_eq!(game.blocks.count(Coalition::Russia), 12);
    assert_eq!(game.map.armies(Region::Kabul).count(Coalition::Britain), 0);
}

#[test]
fn no_dominance_scores_cylinders() {
    let bank = BlockSet::new_tray();
    let mut map = GameMap::new();
    map.add_tribes(Region::Kabul, Color::Red, 2);
    let mut game = fresh_game(map, bank, two_player_set());
    let over = game.resolve_dominance_check();
    assert!(over.is_none());
    // red tallies 2 (tribes), blue 0: the [3, 1] schedule applies
    assert_eq!(game.players.players()[0].state.score, 3);
    assert_eq!(game.players.players()[1].state.score, 1);
    // the tribes stay on the map
    assert_eq!(game.map.tribes(Region::Kabul).count(Color::Red), 2);
}

#[test]
fn final_check_doubles_the_schedule() {
    let mut bank = BlockSet::new_tray();
    let mut map = GameMap::new();
    let armies = bank.take_up_to(6, Coalition::Britain);
    map.add_armies(Region::Kabul, armies);
    let mut game = fresh_game(map, bank, two_player_set());
    for _ in 0..4 {
        game.discard.push(Card::Event(event::Card::Dominance));
    }
    game.resolve_dominance_check();
    assert_eq!(game.players.players()[0].state.score, 10);
}

#[test]
fn insurrection_places_reinforcements() {
    let mut bank = BlockSet::new_tray();
    let mut map = GameMap::new();
    let armies = bank.take_up_to(6, Coalition::Britain);
    map.add_armies(Region::Kabul, armies);
    let mut players = two_player_set();
    let card = plain_card(Some(SpecialAbility::Insurrection), Region::Persia);
    players.player_mut(0).state.court.cards.push_back(CourtCard::new(card));
    let mut game = fresh_game(map, bank, players);
    game.resolve_dominance_check();
    // after the blocks went home, two British blocks deploy to Persia
    assert_eq!(game.map.armies(Region::Persia).count(Coalition::Britain), 2);
    assert_eq!(game.blocks.count(Coalition::Britain), 10);
}

#[test]
fn dominance_check_clears_effects() {
    let bank = BlockSet::new_tray();
    let map = GameMap::new();
    let mut game = fresh_game(map, bank, two_player_set());
    game.effects.conflict_fatigue = true;
    game.players.player_mut(0).state.effects.kohinoor = true;
    game.resolve_dominance_check();
    assert!(!game.effects.conflict_fatigue);
    assert!(!game.players.players()[0].state.effects.kohinoor);
}

#[test]
fn deck_always_holds_four_dominance_triggers() {
    let mut rng = rand::thread_rng();
    let deck = build_deck(&mut rng, 2);
    assert_eq!(deck.cards().len(), 10);
    let dominance = deck.cards().iter().filter(|c| c.is_dominance()).count();
    assert_eq!(dominance, 4);
}

#[test]
fn purchase_events_toggle_modifiers() {
    let bank = BlockSet::new_tray();
    let mut game = fresh_game(GameMap::new(), bank, two_player_set());
    game.apply_purchase_event(event::PurchaseEvent::ConflictFatigue);
    assert!(game.effects.conflict_fatigue);
    game.apply_purchase_event(event::PurchaseEvent::KohINoorRecovered);
    assert!(game.players.players()[0].state.effects.kohinoor);
    game.apply_purchase_event(event::PurchaseEvent::PersianAristocracy);
    assert_eq!(game.players.players()[0].state.rupees.count(), 7);
}

#[test]
fn discard_events_apply() {
    let bank = BlockSet::new_tray();
    let mut game = fresh_game(GameMap::new(), bank, two_player_set());
    game.apply_discard_event(event::DiscardEvent::EmbarrassmentOfRiches);
    assert!(game.effects.embarrassment_of_riches);
    game.apply_discard_event(event::DiscardEvent::ChangeSuit(Suit::Economic));
    assert!(matches!(game.climate, Suit::Economic));
    // failure to impress sends every prize to the discard pile
    let prize = plain_card(None, Region::Kabul);
    game.players.player_mut(0).state.prizes.cards.push(prize);
    game.apply_discard_event(event::DiscardEvent::FailureToImpress);
    assert_eq!(game.players.players()[0].state.prizes.cards.len(), 0);
    assert_eq!(game.discard.len(), 1);
    assert!(matches!(game.discard[0], Card::Court(_)));
}

#[test]
fn rumor_nullifies_patriots_in_influence() {
    let mut players = two_player_set();
    let mut patriot_card = plain_card(None, Region::Kabul);
    // a patriot marker makes the card worth influence while held in hand
    patriot_card = court::Card::new(CardData {
        patriot: Some(Coalition::Britain),
        ..*patriot_card.data()
    });
    players.player_mut(0).state.hand.cards.push(patriot_card);
    let effects = Effects::new();
    let base = players.players()[0].state.influence(&effects);
    assert_eq!(base, 2);
    players.player_mut(0).state.effects.rumor = true;
    let rumored = players.players()[0].state.influence(&effects);
    assert_eq!(rumored, 1);
}

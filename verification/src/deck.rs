use vstd::prelude::*;

use rand::seq::SliceRandom;

use crate::cards::event;
use crate::cards::list::{all_court_cards, all_event_cards};
use crate::cards::Card;
use crate::game::dominance::count_dominance;
use crate::score::lemma_to_multiset_filter_len;

verus! {

#[verifier::external_type_specification]
#[verifier::external_body]
pub struct ExThreadRng(rand::rngs::ThreadRng);

/// Relies on rand's SliceRandom::shuffle: it permutes the slice in place
/// by swaps alone, so exactly the same elements remain, in some order that
/// depends on the generator.
#[verifier::external_body]
fn shuffle<T>(cards: &mut Vec<T>, rng: &mut rand::rngs::ThreadRng)
    ensures
        final(cards)@.to_multiset() == old(cards)@.to_multiset(),
        final(cards)@.len() == old(cards)@.len(),
{
    cards.shuffle(rng)
}

/// The test for a dominance trigger card.
pub open spec fn is_dominance_fn() -> spec_fn(Card) -> bool {
    |c: Card| c.spec_is_dominance()
}

/// Counting dominance cards is counting what the filter keeps.
proof fn lemma_count_dominance_filter(s: Seq<Card>)
    ensures
        count_dominance(s) == s.filter(is_dominance_fn()).len(),
    decreases s.len(),
{
    reveal(Seq::filter);
    if s.len() > 0 {
        lemma_count_dominance_filter(s.drop_last());
    }
}

/// Reordering a pile never changes how many dominance cards it holds.
proof fn lemma_count_dominance_permutation(s1: Seq<Card>, s2: Seq<Card>)
    requires
        s1.to_multiset() == s2.to_multiset(),
    ensures
        count_dominance(s1) == count_dominance(s2),
{
    lemma_count_dominance_filter(s1);
    lemma_count_dominance_filter(s2);
    lemma_to_multiset_filter_len(s1, is_dominance_fn());
    lemma_to_multiset_filter_len(s2, is_dominance_fn());
}

/// Concatenating piles adds their dominance counts.
proof fn lemma_count_dominance_append(a: Seq<Card>, b: Seq<Card>)
    ensures
        count_dominance(a + b) == count_dominance(a) + count_dominance(b),
    decreases b.len(),
{
    if b.len() == 0 {
        assert(a + b =~= a);
    } else {
        lemma_count_dominance_append(a, b.drop_last());
        assert((a + b).drop_last() =~= a + b.drop_last());
        assert((a + b).last() == b.last());
    }
}

/// The deck of cards still to be drawn. The back of the vector is the top
/// of the deck.
pub struct Deck {
    cards: Vec<Card>,
}

impl Deck {
    /// The cards of the deck, bottom first.
    pub closed spec fn spec_cards(self) -> Seq<Card> {
        self.cards@
    }

    /// The cards of the deck, bottom first.
    pub fn cards(&self) -> (r: &Vec<Card>)
        ensures
            r@ == self.spec_cards(),
    {
        &self.cards
    }

    /// Take the deck apart into its cards.
    pub fn into_cards(self) -> (r: Vec<Card>)
        ensures
            r@ == self.spec_cards(),
    {
        self.cards
    }
}

/// Build a shuffled deck of six piles: every court card dealt across the
/// piles, two event cards in the shallowest pile, and one event card plus
/// one dominance trigger in each of the four deepest piles. The resulting
/// deck always holds exactly four dominance triggers.
pub fn build_deck(rng: &mut rand::rngs::ThreadRng, player_count: usize) -> (deck: Deck)
    requires
        player_count <= 5,
    ensures
        count_dominance(deck.spec_cards()) == 4,
        deck.spec_cards().len() == 10,
{
    let mut court_cards = all_court_cards();
    let mut event_cards = all_event_cards();
    shuffle(&mut court_cards, rng);
    shuffle(&mut event_cards, rng);
    let mut piles: Vec<Vec<Card>> = Vec::new();
    let mut i: usize = 0;
    while i < 6
        invariant
            0 <= i <= 6,
            piles@.len() == i,
            forall|j: int| 0 <= j < i ==> (#[trigger] piles@[j])@.len() == 0,
        decreases 6 - i,
    {
        piles.push(Vec::new());
        i = i + 1;
    }
    // deal the court cards round by pile; this game set ships without a
    // court table, so the piles gain nothing here
    let pile_size = 5 + player_count;
    let mut court_idx: usize = 0;
    let mut p: usize = 0;
    while p < 6
        invariant
            0 <= p <= 6,
            piles@.len() == 6,
            court_cards@.len() == 0,
            court_idx == 0,
            forall|j: int| 0 <= j < 6 ==> (#[trigger] piles@[j])@.len() == 0,
        decreases 6 - p,
    {
        let mut dealt: usize = 0;
        while dealt < pile_size && court_idx < court_cards.len()
            invariant
                court_cards@.len() == 0,
                court_idx == 0,
            decreases pile_size - dealt,
        {
            dealt = dealt + 1;
        }
        p = p + 1;
    }
    // two event cards for the shallowest pile
    let mut ev_idx: usize = 0;
    let e0 = event_cards[ev_idx];
    piles[5].push(Card::Event(event::Card::Event(e0)));
    ev_idx = ev_idx + 1;
    let e1 = event_cards[ev_idx];
    piles[5].push(Card::Event(event::Card::Event(e1)));
    ev_idx = ev_idx + 1;
    proof {
        assert(count_dominance(piles@[5]@) == 0) by {
            reveal_with_fuel(count_dominance, 4);
            assert(piles@[5]@.len() == 2);
            assert(piles@[5]@.drop_last().drop_last() =~= Seq::<Card>::empty());
            assert(!piles@[5]@.last().spec_is_dominance());
            assert(!piles@[5]@.drop_last().last().spec_is_dominance());
        }
    }
    // one event card and one dominance trigger for the four deepest piles
    let mut q: usize = 0;
    while q < 4
        invariant
            0 <= q <= 4,
            piles@.len() == 6,
            ev_idx == 2 + q,
            event_cards@.len() == 12,
            forall|j: int| 0 <= j < q ==> count_dominance((#[trigger] piles@[j])@) == 1,
            forall|j: int| 0 <= j < q ==> (#[trigger] piles@[j])@.len() == 2,
            forall|j: int| q <= j < 5 ==> (#[trigger] piles@[j])@.len() == 0,
            count_dominance(piles@[5]@) == 0,
            piles@[5]@.len() == 2,
        decreases 4 - q,
    {
        let ev = event_cards[ev_idx];
        piles[q].push(Card::Event(event::Card::Event(ev)));
        ev_idx = ev_idx + 1;
        piles[q].push(Card::Event(event::Card::Dominance));
        proof {
            assert(count_dominance(piles@[q as int]@) == 1) by {
                reveal_with_fuel(count_dominance, 4);
                assert(piles@[q as int]@.len() == 2);
                assert(piles@[q as int]@.drop_last().drop_last() =~= Seq::<Card>::empty());
                assert(piles@[q as int]@.last().spec_is_dominance());
                assert(!piles@[q as int]@.drop_last().last().spec_is_dominance());
            }
        }
        q = q + 1;
    }
    // shuffle each pile and stack them up, the deepest pile first
    let mut cards: Vec<Card> = Vec::new();
    let mut s: usize = 0;
    proof {
        assert(cards@ =~= Seq::<Card>::empty());
        assert(count_dominance(cards@) == 0);
    }
    while s < 6
        invariant
            0 <= s <= 6,
            piles@.len() == 6,
            count_dominance(cards@) == if s <= 4 {
                s as int
            } else {
                4int
            },
            cards@.len() == if s <= 4 {
                2 * s as int
            } else if s == 5 {
                8int
            } else {
                10int
            },
            forall|j: int| s <= j < 4 ==> count_dominance((#[trigger] piles@[j])@) == 1,
            forall|j: int| s <= j < 4 ==> (#[trigger] piles@[j])@.len() == 2,
            s <= 4 ==> count_dominance(piles@[4]@) == 0 && piles@[4]@.len() == 0,
            s <= 5 ==> count_dominance(piles@[5]@) == 0 && piles@[5]@.len() == 2,
        decreases 6 - s,
    {
        let ghost before_pile = piles@[s as int]@;
        shuffle(&mut piles[s], rng);
        proof {
            lemma_count_dominance_permutation(before_pile, piles@[s as int]@);
        }
        let ghost stacked = cards@;
        let pile = &piles[s];
        let mut t: usize = 0;
        while t < pile.len()
            invariant
                0 <= t <= pile@.len(),
                cards@ == stacked + pile@.take(t as int),
            decreases pile@.len() - t,
        {
            cards.push(pile[t]);
            proof {
                assert(cards@ =~= stacked + pile@.take(t + 1));
            }
            t = t + 1;
        }
        proof {
            assert(pile@.take(pile@.len() as int) =~= pile@);
            lemma_count_dominance_append(stacked, pile@);
        }
        s = s + 1;
    }
    Deck { cards }
}

} // verus!

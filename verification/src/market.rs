use vstd::prelude::*;

use crate::cards::Card;
use crate::rupees::{IntoRupeeSet, RupeeSet};

verus! {

/// How many slots a market row has.
pub const ROW_SIZE: usize = 6;

/// A position in a market row; the cost to reach it equals its depth.
#[derive(Debug, Clone, Copy, PartialEq, Eq, Structural)]
pub enum Column {
    Zero,
    One,
    Two,
    Three,
    Four,
    Five,
}

impl Column {
    /// The position of this column in its row.
    pub open spec fn spec_index(self) -> int {
        match self {
            Column::Zero => 0,
            Column::One => 1,
            Column::Two => 2,
            Column::Three => 3,
            Column::Four => 4,
            Column::Five => 5,
        }
    }

    /// The rupee cost of reaching this column.
    pub fn cost(&self) -> (r: u8)
        ensures
            r == self.spec_index(),
    {
        match self {
            Column::Zero => 0,
            Column::One => 1,
            Column::Two => 2,
            Column::Three => 3,
            Column::Four => 4,
            Column::Five => 5,
        }
    }

    /// The slot index of this column.
    pub fn index(&self) -> (r: usize)
        ensures
            r == self.spec_index(),
            r < ROW_SIZE,
    {
        match self {
            Column::Zero => 0,
            Column::One => 1,
            Column::Two => 2,
            Column::Three => 3,
            Column::Four => 4,
            Column::Five => 5,
        }
    }
}

/// A card in the market, together with the pile of rupees resting on it.
#[derive(Clone, Copy)]
pub struct MarketCard {
    card: Card,
    rupees: RupeeSet,
    /// If true, a rupee was placed on this card this turn and this card is
    /// ineligible to be bought.
    mark: bool,
}

impl MarketCard {
    /// The card held in this slot.
    pub closed spec fn spec_card(self) -> Card {
        self.card
    }

    /// The rupees resting on the card.
    pub closed spec fn spec_rupees(self) -> RupeeSet {
        self.rupees
    }

    /// Whether the card was freshly funded this round.
    pub closed spec fn spec_mark(self) -> bool {
        self.mark
    }

    /// The rupee pile is well formed.
    pub open spec fn wf(self) -> bool {
        self.spec_rupees().wf()
    }

    /// Put a card on the market with no money and no marker.
    pub fn new(card: Card) -> (r: Self)
        ensures
            r.wf(),
            r.spec_card() == card,
            r.spec_rupees().spec_count() == 0,
            !r.spec_mark(),
    {
        Self { card, rupees: RupeeSet::new(0), mark: false }
    }

    /// The card held in this slot.
    pub fn card(&self) -> (r: &Card)
        ensures
            *r == self.spec_card(),
    {
        &self.card
    }

    /// The rupees resting on the card.
    pub fn rupees(&self) -> (r: &RupeeSet)
        ensures
            *r == self.spec_rupees(),
    {
        &self.rupees
    }

    /// Whether the card was freshly funded this round.
    pub fn marked(&self) -> (r: bool)
        ensures
            r == self.spec_mark(),
    {
        self.mark
    }

    /// Split this slot into the card and the money resting on it.
    pub fn into_parts(self) -> (r: (Card, RupeeSet))
        ensures
            r.0 == self.spec_card(),
            r.1 == self.spec_rupees(),
    {
        (self.card, self.rupees)
    }

    /// Place rupees on this card; placing any money sets the freshly-funded
    /// marker.
    pub fn add_rupees<T: IntoRupeeSet>(&mut self, rupees: T)
        requires
            old(self).wf(),
            rupees.rupees_wf(),
            old(self).spec_rupees().spec_count() + rupees.spec_rupees() <= i8::MAX,
        ensures
            final(self).wf(),
            final(self).spec_card() == old(self).spec_card(),
            final(self).spec_rupees().spec_count() == old(self).spec_rupees().spec_count()
                + rupees.spec_rupees(),
            final(self).spec_mark() == (old(self).spec_mark() || rupees.spec_rupees() > 0),
    {
        let ghost from_count = rupees.spec_rupees();
        let rupees = rupees.into_set();
        assert(rupees.spec_count() == from_count);
        if rupees.count() > 0 {
            self.mark = true;
            self.rupees.add(rupees);
            assert(self.spec_rupees().spec_count() == old(self).spec_rupees().spec_count()
                + from_count);
        } else {
            assert(from_count == 0);
        }
    }
}

/// How many of the slots from `i` on hold a card.
pub open spec fn occupied_from(s: Seq<Option<MarketCard>>, i: int) -> int
    decreases s.len() - i,
{
    if i < 0 || i >= s.len() {
        0
    } else {
        occupied_from(s, i + 1) + if s[i] is Some {
            1int
        } else {
            0int
        }
    }
}

/// Whether slot `j` holds the frontmost card of the row.
pub open spec fn is_front_occupied(s: Seq<Option<MarketCard>>, j: int) -> bool {
    &&& 0 <= j < s.len()
    &&& s[j] is Some
    &&& forall|k: int| 0 <= k < j ==> s[k] is None
}

/// The cards of the row in order, skipping empty slots.
pub open spec fn occupied_list(s: Seq<Option<MarketCard>>) -> Seq<MarketCard>
    decreases s.len(),
{
    if s.len() == 0 {
        Seq::empty()
    } else {
        occupied_list(s.drop_last()) + match s.last() {
            Some(c) => seq![c],
            None => Seq::empty(),
        }
    }
}

/// How a refilled row relates to what stood there: the occupied slots
/// compact toward the front in their old order, the freed rear slots take
/// fresh unmarked cards from the back of the supply until the row is full
/// or the supply runs out, and the rest stay empty.
pub open spec fn row_filled(
    s0: Seq<Option<MarketCard>>,
    supply0: Seq<Card>,
    s1: Seq<Option<MarketCard>>,
    supply1: Seq<Card>,
) -> bool {
    let occ = occupied_list(s0);
    let taken = vstd::math::min(ROW_SIZE - occ.len(), supply0.len() as int);
    &&& supply1 == supply0.take(supply0.len() - taken)
    &&& forall|i: int| 0 <= i < occ.len() ==> s1[i] == Some(occ[i])
    &&& forall|i: int|
        occ.len() <= i < occ.len() + taken ==> ((#[trigger] s1[i]) matches Some(c)
            && c.spec_card() == supply0[supply0.len() - 1 - (i - occ.len())]
            && c.spec_rupees().spec_count() == 0 && !c.spec_mark())
    &&& forall|i: int| occ.len() + taken <= i < ROW_SIZE ==> (#[trigger] s1[i]) is None
}

/// A row of six market slots, front first.
pub struct MarketRow {
    cards: Vec<Option<MarketCard>>,
}

impl MarketRow {
    /// The slots of the row, front first.
    pub closed spec fn spec_cards(self) -> Seq<Option<MarketCard>> {
        self.cards@
    }

    /// The row always has its six slots and well-formed rupee piles.
    pub open spec fn wf(self) -> bool {
        &&& self.spec_cards().len() == ROW_SIZE
        &&& forall|i: int|
            0 <= i < self.spec_cards().len() ==> ((#[trigger] self.spec_cards()[i]) matches Some(c)
                ==> c.wf())
    }

    /// A fresh row of six empty slots.
    pub fn new() -> (r: Self)
        ensures
            r.wf(),
            forall|i: int| 0 <= i < ROW_SIZE ==> (#[trigger] r.spec_cards()[i]) is None,
    {
        let mut cards: Vec<Option<MarketCard>> = Vec::new();
        let mut i: usize = 0;
        while i < ROW_SIZE
            invariant
                0 <= i <= ROW_SIZE,
                cards@.len() == i,
                forall|j: int| 0 <= j < i ==> (#[trigger] cards@[j]) is None,
            decreases ROW_SIZE - i,
        {
            cards.push(None);
            i = i + 1;
        }
        MarketRow { cards }
    }

    /// Get a view of this row of cards.
    pub fn view(&self) -> (r: &Vec<Option<MarketCard>>)
        ensures
            r@ == self.spec_cards(),
    {
        &self.cards
    }

    /// The card at one column, if that slot is occupied.
    pub fn get_card(&self, column: Column) -> (r: Option<&MarketCard>)
        requires
            self.wf(),
        ensures
            r is Some <==> self.spec_cards()[column.spec_index()] is Some,
            r matches Some(c) ==> self.spec_cards()[column.spec_index()] == Some(*c),
    {
        let i = column.index();
        match &self.cards[i] {
            Some(c) => Some(c),
            None => None,
        }
    }

    /// How many slots of this row hold a card.
    pub fn count(&self) -> (r: usize)
        requires
            self.wf(),
        ensures
            r == occupied_from(self.spec_cards(), 0),
    {
        let ghost s = self.spec_cards();
        proof {
            lemma_occupied_from_bounds(s, 0);
        }
        let mut r: usize = 0;
        let mut i: usize = ROW_SIZE;
        while i > 0
            invariant
                0 <= i <= ROW_SIZE,
                s == self.spec_cards(),
                self.wf(),
                r == occupied_from(s, i as int),
                r <= ROW_SIZE - i,
            decreases i,
        {
            i = i - 1;
            if self.cards[i].is_some() {
                r = r + 1;
            }
        }
        r
    }

    /// Shift all cards to the front, then fill the remaining slots with
    /// cards taken from the back of the supply, until the row is full or
    /// the supply runs out.
    pub fn fill_from(&mut self, cards: &mut Vec<Card>)
        requires
            old(self).wf(),
        ensures
            final(self).wf(),
            row_filled(
                old(self).spec_cards(),
                old(cards)@,
                final(self).spec_cards(),
                final(cards)@,
            ),
    {
        let ghost s0 = self.spec_cards();
        let mut kept: Vec<MarketCard> = Vec::new();
        let mut i: usize = 0;
        while i < ROW_SIZE
            invariant
                0 <= i <= ROW_SIZE,
                self.spec_cards() == s0,
                self.wf(),
                kept@ == occupied_list(s0.take(i as int)),
            decreases ROW_SIZE - i,
        {
            proof {
                assert(s0.take(i + 1).drop_last() =~= s0.take(i as int));
                assert(s0.take(i + 1).last() == s0[i as int]);
            }
            match &self.cards[i] {
                Some(c) => {
                    kept.push(*c);
                },
                None => {},
            }
            i = i + 1;
        }
        proof {
            assert(s0.take(ROW_SIZE as int) =~= s0);
            lemma_occupied_list_wf(s0);
        }
        let ghost occ = occupied_list(s0);
        let ghost supply0 = cards@;
        let kept_count = kept.len();
        while kept.len() < ROW_SIZE && cards.len() > 0
            invariant
                kept_count == occ.len(),
                kept_count <= kept@.len() <= ROW_SIZE,
                kept@.len() - kept_count <= supply0.len(),
                cards@ == supply0.take(supply0.len() - (kept@.len() - kept_count)),
                forall|j: int| 0 <= j < kept_count ==> kept@[j] == occ[j],
                forall|j: int|
                    kept_count <= j < kept@.len() ==> ((#[trigger] kept@[j]).spec_card()
                        == supply0[supply0.len() - 1 - (j - kept_count)]
                        && kept@[j].spec_rupees().spec_count() == 0 && !kept@[j].spec_mark()),
                forall|j: int| 0 <= j < kept@.len() ==> (#[trigger] kept@[j]).wf(),
            decreases ROW_SIZE - kept@.len(),
        {
            let next = cards.pop().unwrap();
            kept.push(MarketCard::new(next));
            proof {
                assert(cards@ =~= supply0.take(supply0.len() - (kept@.len() - kept_count)));
            }
        }
        let mut slots: Vec<Option<MarketCard>> = Vec::new();
        let mut k: usize = 0;
        while k < ROW_SIZE
            invariant
                0 <= k <= ROW_SIZE,
                slots@.len() == k,
                kept@.len() <= ROW_SIZE,
                forall|j: int|
                    0 <= j < k && j < kept@.len() ==> (#[trigger] slots@[j]) == Some(kept@[j]),
                forall|j: int| kept@.len() <= j < k ==> (#[trigger] slots@[j]) is None,
            decreases ROW_SIZE - k,
        {
            if k < kept.len() {
                slots.push(Some(kept[k]));
            } else {
                slots.push(None);
            }
            k = k + 1;
        }
        self.cards = slots;
    }

    /// The frontmost occupied slot, if any slot is occupied.
    fn first_occupied(&self) -> (r: Option<usize>)
        requires
            self.wf(),
        ensures
            r is Some <==> occupied_from(self.spec_cards(), 0) > 0,
            r matches Some(f) ==> is_front_occupied(self.spec_cards(), f as int),
    {
        let mut i: usize = 0;
        while i < ROW_SIZE
            invariant
                0 <= i <= ROW_SIZE,
                self.wf(),
                forall|k: int| 0 <= k < i ==> (#[trigger] self.spec_cards()[k]) is None,
            decreases ROW_SIZE - i,
        {
            if self.cards[i].is_some() {
                proof {
                    lemma_occupied_from_pos(self.spec_cards(), 0, i as int);
                }
                return Some(i);
            }
            i = i + 1;
        }
        proof {
            lemma_occupied_from_none(self.spec_cards(), 0);
        }
        None
    }

    /// Attempt to pay the cost of an ability. Rupees are placed one at a
    /// time on the occupied slots from back to front; once the frontmost
    /// occupied slot is reached, all the remaining rupees are piled onto it
    /// at once. Fails, returning the payment untouched, if no slot of this
    /// row holds a card.
    pub fn spend_for_ability(&mut self, payment: RupeeSet) -> (r: Result<(), RupeeSet>)
        requires
            old(self).wf(),
            payment.wf(),
            forall|j: int|
                0 <= j < ROW_SIZE ==> ((#[trigger] old(self).spec_cards()[j]) matches Some(c)
                    ==> c.spec_rupees().spec_count() + payment.spec_count() <= i8::MAX),
        ensures
            final(self).wf(),
            occupied_from(old(self).spec_cards(), 0) == 0 ==> (r is Err && r->Err_0 == payment
                && *final(self) == *old(self)),
            occupied_from(old(self).spec_cards(), 0) > 0 ==> (r is Ok && forall|j: int|
                0 <= j < ROW_SIZE ==> slot_funded(
                    old(self).spec_cards()[j],
                    #[trigger] final(self).spec_cards()[j],
                    spec_payment_to(old(self).spec_cards(), payment.spec_count(), j),
                )),
    {
        let ghost s0 = self.spec_cards();
        let ghost p = payment.spec_count();
        let f = match self.first_occupied() {
            None => {
                return Err(payment);
            },
            Some(f) => f,
        };
        let mut remaining = payment;
        let mut i: usize = ROW_SIZE;
        proof {
            lemma_occupied_from_none(s0, ROW_SIZE as int);
        }
        while i > f + 1
            invariant
                f < i <= ROW_SIZE,
                f < ROW_SIZE,
                is_front_occupied(s0, f as int),
                self.wf(),
                self.spec_cards().len() == ROW_SIZE,
                s0.len() == ROW_SIZE,
                remaining.wf(),
                remaining.spec_count() == vstd::math::max(p - occupied_from(s0, i as int), 0),
                p == payment.spec_count(),
                payment.wf(),
                forall|j: int|
                    0 <= j < ROW_SIZE ==> ((#[trigger] s0[j]) matches Some(c)
                        ==> c.spec_rupees().spec_count() + p <= i8::MAX),
                forall|j: int| 0 <= j < i ==> (#[trigger] self.spec_cards()[j]) == s0[j],
                forall|j: int|
                    i <= j < ROW_SIZE ==> slot_funded(
                        s0[j],
                        #[trigger] self.spec_cards()[j],
                        spec_payment_to(s0, p, j),
                    ),
            decreases i,
        {
            i = i - 1;
            proof {
                assert(occupied_from(s0, i as int) == occupied_from(s0, i + 1) + if s0[i as int]
                    is Some {
                    1int
                } else {
                    0int
                });
            }
            proof {
                lemma_occupied_from_bounds(s0, i + 1);
            }
            if self.cards[i].is_some() {
                match remaining.take_one() {
                    None => {
                        // the payment ran out further back; this slot
                        // receives nothing
                        proof {
                            assert(occupied_from(s0, i + 1) >= p);
                            assert(spec_payment_to(s0, p, i as int) == 0);
                        }
                    },
                    Some(rupee) => {
                        let mut c = self.cards[i].unwrap();
                        proof {
                            assert(self.spec_cards()[i as int] == s0[i as int]);
                            assert(occupied_from(s0, i + 1) < p);
                            assert(c.spec_rupees().spec_count() + 1 <= i8::MAX);
                            assert(!is_front_occupied(s0, i as int)) by {
                                assert(s0[f as int] is Some);
                            }
                        }
                        c.add_rupees(rupee);
                        self.cards[i] = Some(c);
                        proof {
                            assert(spec_payment_to(s0, p, i as int) == 1);
                            assert(slot_funded(
                                s0[i as int],
                                self.spec_cards()[i as int],
                                spec_payment_to(s0, p, i as int),
                            ));
                        }
                    },
                }
            } else {
                proof {
                    assert(spec_payment_to(s0, p, i as int) == 0);
                }
            }
        }
        // the frontmost occupied slot absorbs whatever is left, in one lump
        let mut c = self.cards[f].unwrap();
        proof {
            lemma_occupied_from_bounds(s0, f + 1);
            assert(s0[f as int] matches Some(c0) && c0 == c);
            assert(c.spec_rupees().spec_count() + remaining.spec_count() <= i8::MAX);
        }
        let lump = remaining.take_all();
        c.add_rupees(lump);
        self.cards[f] = Some(c);
        proof {
            assert(spec_payment_to(s0, p, f as int) == p - occupied_from(s0, f + 1)
                || spec_payment_to(s0, p, f as int) == 0);
            assert(slot_funded(
                s0[f as int],
                self.spec_cards()[f as int],
                spec_payment_to(s0, p, f as int),
            ));
            lemma_occupied_from_pos(s0, 0, f as int);
        }
        Ok(())
    }

    /// Take a card without spending any money.
    pub fn take_card(&mut self, column: Column) -> (r: Option<MarketCard>)
        requires
            old(self).wf(),
        ensures
            final(self).wf(),
            r == old(self).spec_cards()[column.spec_index()],
            final(self).spec_cards() == old(self).spec_cards().update(
                column.spec_index(),
                None::<MarketCard>,
            ),
    {
        let i = column.index();
        let r = self.cards[i];
        self.cards[i] = None;
        proof {
            assert(final(self).spec_cards() =~= old(self).spec_cards().update(
                column.spec_index(),
                None::<MarketCard>,
            ));
        }
        r
    }
}

/// How many rupees the distribution of a payment of `p` places on slot
/// `j`: every occupied slot behind the frontmost card takes one unit while
/// the payment lasts, counted from the back; the frontmost card absorbs
/// the rest in one lump.
pub open spec fn spec_payment_to(s: Seq<Option<MarketCard>>, p: int, j: int) -> int {
    if !(0 <= j < s.len()) || s[j] is None {
        0
    } else if is_front_occupied(s, j) {
        vstd::math::max(p - occupied_from(s, j + 1), 0)
    } else if occupied_from(s, j + 1) < p {
        1
    } else {
        0
    }
}

/// How a funded slot relates to what stood there: `d` rupees arrived, the
/// card itself is unchanged, and the freshly-funded marker is set exactly
/// when money arrived.
pub open spec fn slot_funded(
    before: Option<MarketCard>,
    after: Option<MarketCard>,
    d: int,
) -> bool {
    match before {
        None => after is None,
        Some(c) => after matches Some(c2) && c2.spec_card() == c.spec_card()
            && c2.spec_rupees().spec_count() == c.spec_rupees().spec_count() + d && c2.spec_mark()
            == (c.spec_mark() || d > 0),
    }
}

/// Counting occupied slots from earlier in the row can only find more.
proof fn lemma_occupied_from_mono(s: Seq<Option<MarketCard>>, a: int, b: int)
    requires
        0 <= a <= b <= s.len(),
    ensures
        occupied_from(s, a) >= occupied_from(s, b),
    decreases b - a,
{
    if a < b {
        lemma_occupied_from_mono(s, a + 1, b);
    }
}

/// A row that is empty from `i` on has nothing to count there.
proof fn lemma_occupied_from_none(s: Seq<Option<MarketCard>>, i: int)
    requires
        0 <= i <= s.len(),
        forall|k: int| i <= k < s.len() ==> (#[trigger] s[k]) is None,
    ensures
        occupied_from(s, i) == 0,
    decreases s.len() - i,
{
    if i < s.len() {
        lemma_occupied_from_none(s, i + 1);
    }
}

/// An occupied slot at or after `i` is counted.
proof fn lemma_occupied_from_pos(s: Seq<Option<MarketCard>>, i: int, j: int)
    requires
        0 <= i <= j < s.len(),
        s[j] is Some,
    ensures
        occupied_from(s, i) > 0,
    decreases j - i,
{
    if i < j {
        lemma_occupied_from_pos(s, i + 1, j);
    } else {
        lemma_occupied_from_bounds(s, i + 1);
    }
}

/// Every count of occupied slots is bounded by the range it counts.
proof fn lemma_occupied_from_bounds(s: Seq<Option<MarketCard>>, i: int)
    requires
        0 <= i <= s.len(),
    ensures
        0 <= occupied_from(s, i) <= s.len() - i,
    decreases s.len() - i,
{
    if i < s.len() {
        lemma_occupied_from_bounds(s, i + 1);
    }
}

/// Every card kept by compacting a well-formed row is well formed.
proof fn lemma_occupied_list_wf(s: Seq<Option<MarketCard>>)
    requires
        forall|i: int| 0 <= i < s.len() ==> ((#[trigger] s[i]) matches Some(c) ==> c.wf()),
    ensures
        occupied_list(s).len() <= s.len(),
        forall|j: int| 0 <= j < occupied_list(s).len() ==> (#[trigger] occupied_list(s)[j]).wf(),
    decreases s.len(),
{
    if s.len() > 0 {
        assert(forall|i: int|
            0 <= i < s.drop_last().len() ==> ((#[trigger] s.drop_last()[i]) matches Some(c)
                ==> c.wf()));
        lemma_occupied_list_wf(s.drop_last());
    }
}

/// One of the two market rows.
#[derive(Debug, Clone, Copy, PartialEq, Eq, Structural)]
pub enum Row {
    Top,
    Bottom,
}

impl Row {
    /// The other market row.
    pub fn other(self) -> (r: Row)
        ensures
            r != self,
    {
        match self {
            Row::Top => Row::Bottom,
            Row::Bottom => Row::Top,
        }
    }
}

/// The market: two rows of purchasable cards.
pub struct Market {
    top: MarketRow,
    bottom: MarketRow,
}

impl Market {
    /// The top row.
    pub closed spec fn spec_top(self) -> MarketRow {
        self.top
    }

    /// The bottom row.
    pub closed spec fn spec_bottom(self) -> MarketRow {
        self.bottom
    }

    /// Both rows are well formed.
    pub open spec fn wf(self) -> bool {
        self.spec_top().wf() && self.spec_bottom().wf()
    }

    /// A fresh market of two empty rows.
    pub fn new() -> (r: Self)
        ensures
            r.wf(),
            forall|i: int| 0 <= i < ROW_SIZE ==> (#[trigger] r.spec_top().spec_cards()[i]) is None,
            forall|i: int|
                0 <= i < ROW_SIZE ==> (#[trigger] r.spec_bottom().spec_cards()[i]) is None,
    {
        Market { top: MarketRow::new(), bottom: MarketRow::new() }
    }

    /// One of the two rows.
    pub fn get_row(&self, row: Row) -> (r: &MarketRow)
        ensures
            row == Row::Top ==> *r == self.spec_top(),
            row == Row::Bottom ==> *r == self.spec_bottom(),
    {
        match row {
            Row::Top => &self.top,
            Row::Bottom => &self.bottom,
        }
    }

    /// Refill both rows from the supply: the top row first, then the
    /// bottom row from what is left.
    pub fn fill_from(&mut self, cards: &mut Vec<Card>)
        requires
            old(self).wf(),
        ensures
            final(self).wf(),
            ({
                let occ_top = occupied_list(old(self).spec_top().spec_cards());
                let taken_top = vstd::math::min(
                    ROW_SIZE - occ_top.len(),
                    old(cards)@.len() as int,
                );
                let supply_mid = old(cards)@.take(old(cards)@.len() - taken_top);
                &&& row_filled(
                    old(self).spec_top().spec_cards(),
                    old(cards)@,
                    final(self).spec_top().spec_cards(),
                    supply_mid,
                )
                &&& row_filled(
                    old(self).spec_bottom().spec_cards(),
                    supply_mid,
                    final(self).spec_bottom().spec_cards(),
                    final(cards)@,
                )
            }),
    {
        self.top.fill_from(cards);
        self.bottom.fill_from(cards);
    }
}

} // verus!

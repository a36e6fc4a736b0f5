use vstd::prelude::*;
use crate::card::{Card, Rank, rank_points};
use crate::settlement::RoundOutcome;

verus! {

/// Points a soft ace adds on top of its hard value of 1.
pub const SOFT_BONUS: u64 = 10;

/// The highest total that does not bust.
pub const BLACKJACK: u64 = 21;

/// Sum of the cards' values with every ace counted as 1.
pub open spec fn hard_total(s: Seq<Card>) -> nat
    decreases s.len(),
{
    if s.len() == 0 {
        0
    } else {
        hard_total(s.drop_last()) + rank_points(s.last().rank)
    }
}

/// Whether the cards hold at least one ace.
pub open spec fn has_ace(s: Seq<Card>) -> bool {
    exists|i: int| 0 <= i < s.len() && (#[trigger] s[i]).rank == Rank::Ace
}

/// Whether one ace can count as 11 without busting.
pub open spec fn is_soft(s: Seq<Card>) -> bool {
    has_ace(s) && hard_total(s) + 10 <= 21
}

/// The usable total: the soft total where it does not bust, else the hard one.
pub open spec fn best_total(s: Seq<Card>) -> nat {
    if is_soft(s) {
        hard_total(s) + 10
    } else {
        hard_total(s)
    }
}

pub open spec fn is_bust_cards(s: Seq<Card>) -> bool {
    hard_total(s) > 21
}

/// The dealer keeps drawing while the best total is under 17.
pub open spec fn dealer_draws(s: Seq<Card>) -> bool {
    best_total(s) < 17
}

/// Most cards a hand can hold; keeps every total well inside `u64`.
pub open spec fn hand_capacity() -> nat {
    u32::MAX as nat
}

/// A sequence of cards with a wager and the flags the round sets on it.
#[derive(Clone, Debug)]
pub struct Hand {
    /// The cards in the order they were drawn.
    pub cards: Vec<Card>,
    /// The stake riding on the hand (zero for the dealer).
    pub bet: u64,
    /// Set once the hand has been settled.
    pub outcome: Option<RoundOutcome>,
    /// The hand came out of a split.
    pub split: bool,
    /// The bet on the hand was doubled.
    pub doubled: bool,
    /// The hand takes no further action (stood, bust, doubled).
    pub finished: bool,
}

impl Hand {
    pub open spec fn total(&self) -> nat {
        best_total(self.cards@)
    }

    pub open spec fn bust(&self) -> bool {
        is_bust_cards(self.cards@)
    }

    /// A natural: two cards worth 21 on a hand that was not split.
    pub open spec fn natural(&self) -> bool {
        self.cards@.len() == 2 && best_total(self.cards@) == 21 && !self.split
    }

    pub open spec fn splittable(&self) -> bool {
        self.cards@.len() == 2 && self.cards@[0].rank == self.cards@[1].rank && !self.split
            && !self.finished
    }

    pub open spec fn doublable(&self) -> bool {
        self.cards@.len() == 2 && !self.doubled && !self.finished
    }

    pub open spec fn fits(&self) -> bool {
        self.cards@.len() <= hand_capacity()
    }

    /// An empty hand carrying `bet`.
    pub fn new(bet: u64) -> (r: Hand)
        ensures
            r.cards@.len() == 0,
            r.bet == bet,
            r.outcome.is_none(),
            !r.split,
            !r.doubled,
            !r.finished,
    {
        Hand { cards: Vec::new(), bet, outcome: None, split: false, doubled: false, finished: false }
    }

    /// A one-card hand with no stake, such as the dealer's up-card alone.
    pub fn with_card(card: Card) -> (r: Hand)
        ensures
            r.cards@ == seq![card],
            r.bet == 0,
            r.outcome.is_none(),
            !r.split,
            !r.doubled,
            !r.finished,
    {
        let mut cards: Vec<Card> = Vec::new();
        cards.push(card);
        Hand { cards, bet: 0, outcome: None, split: false, doubled: false, finished: false }
    }

    /// Appends a card; every other field stays.
    pub fn add_card(&mut self, card: Card)
        requires
            old(self).cards@.len() < hand_capacity(),
        ensures
            final(self).cards@ == old(self).cards@.push(card),
            final(self).bet == old(self).bet,
            final(self).outcome == old(self).outcome,
            final(self).split == old(self).split,
            final(self).doubled == old(self).doubled,
            final(self).finished == old(self).finished,
    {
        self.cards.push(card);
    }

    pub fn len(&self) -> (r: usize)
        ensures
            r == self.cards@.len(),
    {
        self.cards.len()
    }

    /// Sum of the cards with every ace counted as 1.
    pub fn hard_value(&self) -> (r: u64)
        requires
            self.fits(),
        ensures
            r == hard_total(self.cards@),
            r <= 10 * self.cards@.len(),
    {
        let mut total: u64 = 0;
        let mut i: usize = 0;
        while i < self.cards.len()
            invariant
                i <= self.cards@.len(),
                self.fits(),
                total == hard_total(self.cards@.take(i as int)),
                total <= 10 * i,
            decreases self.cards@.len() - i,
        {
            proof {
                assert(self.cards@.take(i + 1).drop_last() =~= self.cards@.take(i as int));
            }
            total = total + self.cards[i].points() as u64;
            i = i + 1;
        }
        assert(self.cards@.take(i as int) =~= self.cards@);
        total
    }

    pub fn has_ace(&self) -> (r: bool)
        ensures
            r == has_ace(self.cards@),
    {
        let mut i: usize = 0;
        while i < self.cards.len()
            invariant
                i <= self.cards@.len(),
                forall|k: int| 0 <= k < i ==> (#[trigger] self.cards@[k]).rank != Rank::Ace,
            decreases self.cards@.len() - i,
        {
            if self.cards[i].is_ace() {
                return true;
            }
            i = i + 1;
        }
        false
    }

    /// Whether an ace currently counts as 11.
    pub fn is_soft(&self) -> (r: bool)
        requires
            self.fits(),
        ensures
            r == is_soft(self.cards@),
    {
        self.has_ace() && self.hard_value() + SOFT_BONUS <= BLACKJACK
    }

    /// The best total: an ace counts 11 unless that would bust the hand.
    pub fn value(&self) -> (r: u64)
        requires
            self.fits(),
        ensures
            r == self.total(),
    {
        let hard = self.hard_value();
        if self.has_ace() && hard + SOFT_BONUS <= BLACKJACK {
            hard + SOFT_BONUS
        } else {
            hard
        }
    }

    pub fn is_bust(&self) -> (r: bool)
        requires
            self.fits(),
        ensures
            r == self.bust(),
    {
        self.hard_value() > BLACKJACK
    }

    pub fn is_blackjack(&self) -> (r: bool)
        requires
            self.fits(),
        ensures
            r == self.natural(),
    {
        self.cards.len() == 2 && !self.split && self.value() == BLACKJACK
    }

    /// Two cards of equal rank on a hand that was not split and is still open.
    pub fn can_split(&self) -> (r: bool)
        ensures
            r == self.splittable(),
    {
        self.cards.len() == 2 && self.cards[0].rank == self.cards[1].rank && !self.split
            && !self.finished
    }

    /// The dealer's policy: draw below 17, stand on any 17 or more.
    pub fn dealer_should_draw(&self) -> (r: bool)
        requires
            self.fits(),
        ensures
            r == dealer_draws(self.cards@),
    {
        self.value() < 17
    }

    /// Takes the second card off a two-card hand and marks the hand as split.
    pub fn split_off_second(&mut self) -> (r: Card)
        requires
            old(self).cards@.len() == 2,
        ensures
            r == old(self).cards@[1],
            final(self).cards@ == seq![old(self).cards@[0]],
            final(self).split,
            final(self).bet == old(self).bet,
            final(self).outcome == old(self).outcome,
            final(self).doubled == old(self).doubled,
            final(self).finished == old(self).finished,
    {
        let second = self.cards.pop();
        self.split = true;
        proof {
            assert(self.cards@ =~= seq![old(self).cards@[0]]);
        }
        match second {
            Some(c) => c,
            None => self.cards[0],
        }
    }

    /// Two cards on a hand that has not been doubled and is still open.
    pub fn can_double(&self) -> (r: bool)
        ensures
            r == self.doublable(),
    {
        self.cards.len() == 2 && !self.doubled && !self.finished
    }
}

/// Adding a card raises the hard total by the card's value, so by at least one.
pub proof fn lemma_hard_total_grows(s: Seq<Card>, c: Card)
    ensures
        hard_total(s.push(c)) == hard_total(s) + rank_points(c.rank),
        hard_total(s.push(c)) >= hard_total(s) + 1,
{
    assert(s.push(c).drop_last() =~= s);
}

/// The best total lies between the hard total and the hard total plus ten, and
/// an ace is reduced to 1 whenever 11 would take the hand over 21.
pub proof fn lemma_best_total_bounds(s: Seq<Card>)
    ensures
        hard_total(s) <= best_total(s) <= hard_total(s) + 10,
        best_total(s) > 21 ==> best_total(s) == hard_total(s),
        is_soft(s) ==> best_total(s) <= 21,
{
}

/// On a hand with no ace counted as 11, adding a card raises the best total.
pub proof fn lemma_best_total_grows_when_hard(s: Seq<Card>, c: Card)
    requires
        !is_soft(s),
    ensures
        best_total(s.push(c)) > best_total(s),
{
    lemma_hard_total_grows(s, c);
    lemma_best_total_bounds(s.push(c));
}

/// Two cards worth 21 make a natural exactly when the hand was not split.
pub proof fn lemma_natural_iff_not_split(h: Hand)
    requires
        h.cards@.len() == 2,
        h.total() == 21,
    ensures
        h.natural() <==> !h.split,
{
}

/// A natural is never bust.
pub proof fn lemma_natural_not_bust(h: Hand)
    requires
        h.natural(),
    ensures
        !h.bust(),
{
    lemma_best_total_bounds(h.cards@);
}

/// The dealer always draws on a hard 12 to 16, and never on a hard 17 to 21.
pub proof fn lemma_dealer_stand_rule(s: Seq<Card>)
    ensures
        12 <= hard_total(s) <= 16 ==> dealer_draws(s),
        !is_soft(s) && 17 <= hard_total(s) <= 21 ==> !dealer_draws(s),
{
}

} // verus!

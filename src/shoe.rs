use vstd::prelude::*;
use rand::rngs::StdRng;
use rand::{Rng, SeedableRng};
use crate::card::{Card, Rank, Suit, DECK_SIZE, fresh_deck_card, fresh_shoe};

verus! {

broadcast use vstd::seq_lib::to_multiset_update, vstd::multiset::group_multiset_axioms;

#[verifier::external_type_specification]
#[verifier::external_body]
pub struct ExStdRng(StdRng);

/// Relies on rand's `StdRng::seed_from_u64`: a generator whose output is fixed
/// by the seed.
#[verifier::external_body]
fn seeded_rng(seed: u64) -> (r: StdRng) {
    StdRng::seed_from_u64(seed)
}

/// Relies on rand's `Rng::gen_range` over `0..bound`: a value below `bound`.
/// The range is never empty here, where `gen_range` would panic.
#[verifier::external_body]
fn random_below(rng: &mut StdRng, bound: usize) -> (r: usize)
    requires
        0 < bound,
    ensures
        r < bound,
{
    rng.gen_range(0..bound)
}

/// The cards with positions `a` and `b` exchanged.
pub open spec fn swapped(s: Seq<Card>, a: int, b: int) -> Seq<Card> {
    s.update(a, s[b]).update(b, s[a])
}

/// One draw per position, the one for position `m` at most `m`.
pub open spec fn valid_draws(draws: Seq<usize>, n: nat) -> bool {
    draws.len() == n && forall|m: int| 0 <= m < n ==> #[trigger] draws[m] <= m
}

/// Fisher-Yates on the first `i` positions: position `i - 1` is exchanged
/// with position `draws[i - 1]`, then the first `i - 1` are shuffled.
pub open spec fn fisher_yates(s: Seq<Card>, draws: Seq<usize>, i: nat) -> Seq<Card>
    decreases i,
{
    if i <= 1 {
        s
    } else {
        fisher_yates(swapped(s, i - 1, draws[i - 1] as int), draws, (i - 1) as nat)
    }
}

/// The drawable cards of one or more standard decks, with the generator that
/// shuffles them.
pub struct Shoe {
    cards: Vec<Card>,
    deck_count: u8,
    rng: StdRng,
}

impl View for Shoe {
    type V = Seq<Card>;

    /// The cards still in the shoe, front first.
    closed spec fn view(&self) -> Seq<Card> {
        self.cards@
    }
}

/// The cards of `deck_count` ordered decks, in a vector.
fn build_decks(deck_count: u8) -> (r: Vec<Card>)
    ensures
        r@ == fresh_shoe(deck_count as nat),
{
    let total: usize = DECK_SIZE * deck_count as usize;
    let mut cards: Vec<Card> = Vec::new();
    let mut i: usize = 0;
    while i < total
        invariant
            total == 52 * deck_count,
            i <= total,
            cards@.len() == i,
            forall|k: int| 0 <= k < i ==> #[trigger] cards@[k] == fresh_deck_card(k % 52),
        decreases total - i,
    {
        let pos: usize = i % DECK_SIZE;
        cards.push(Card::new(Rank::from_index(pos % 13), Suit::from_index(pos / 13)));
        i = i + 1;
    }
    assert(cards@ =~= fresh_shoe(deck_count as nat));
    cards
}

impl Shoe {
    pub closed spec fn decks(&self) -> nat {
        self.deck_count as nat
    }

    pub closed spec fn wf(&self) -> bool {
        self.deck_count >= 1
    }

    /// `deck_count` ordered decks laid end to end, not yet shuffled; `seed`
    /// fixes every later shuffle.
    pub fn new(deck_count: u8, seed: u64) -> (r: Shoe)
        requires
            deck_count >= 1,
        ensures
            r.wf(),
            r.decks() == deck_count,
            r@ == fresh_shoe(deck_count as nat),
    {
        Shoe { cards: build_decks(deck_count), deck_count, rng: seeded_rng(seed) }
    }

    /// A shoe that deals `cards` in the given order before it first runs out.
    pub fn stacked(cards: Vec<Card>, deck_count: u8, seed: u64) -> (r: Shoe)
        requires
            deck_count >= 1,
        ensures
            r.wf(),
            r.decks() == deck_count,
            r@ == cards@,
    {
        Shoe { cards, deck_count, rng: seeded_rng(seed) }
    }

    pub fn deck_count(&self) -> (r: u8)
        ensures
            r == self.decks(),
    {
        self.deck_count
    }

    /// How many cards are left to draw.
    pub fn remaining(&self) -> (r: usize)
        ensures
            r == self@.len(),
    {
        self.cards.len()
    }

    /// Exchanges the cards at positions `i` and `j`.
    pub fn swap_step(&mut self, i: usize, j: usize)
        requires
            i < old(self)@.len(),
            j < old(self)@.len(),
        ensures
            final(self)@ == swapped(old(self)@, i as int, j as int),
            final(self)@.to_multiset() == old(self)@.to_multiset(),
            final(self).decks() == old(self).decks(),
            final(self).wf() == old(self).wf(),
    {
        let a = self.cards[i];
        let b = self.cards[j];
        let ghost s = self.cards@;
        self.cards.set(i, b);
        self.cards.set(j, a);
        proof {
            let s1 = s.update(i as int, b);
            assert(s1.to_multiset() == s.to_multiset().insert(b).remove(a));
            assert(self.cards@.to_multiset() == s1.to_multiset().insert(a).remove(s1[j as int]));
            if j == i {
                assert(a == b);
            }
            let m = s.to_multiset();
            assert(s.contains(a) && s.contains(b)) by {
                assert(s[i as int] == a);
                assert(s[j as int] == b);
            }
            vstd::seq_lib::to_multiset_contains(s, a);
            vstd::seq_lib::to_multiset_contains(s, b);
            assert(m.insert(b).remove(a).insert(a).remove(b) =~= m);
        }
    }

    /// Fisher-Yates over the given draws: for each position from the back
    /// down to the second, exchange it with the position drawn for it.
    pub fn shuffle_with(&mut self, draws: &Vec<usize>)
        requires
            valid_draws(draws@, old(self)@.len()),
        ensures
            final(self)@ == fisher_yates(old(self)@, draws@, old(self)@.len()),
            final(self)@.len() == old(self)@.len(),
            final(self)@.to_multiset() == old(self)@.to_multiset(),
            final(self).decks() == old(self).decks(),
            final(self).wf() == old(self).wf(),
    {
        let ghost before = self.cards@;
        let mut i: usize = self.cards.len();
        while i > 1
            invariant
                valid_draws(draws@, before.len()),
                i <= self@.len(),
                self@.len() == before.len(),
                fisher_yates(self@, draws@, i as nat) == fisher_yates(before, draws@, before.len()),
                self@.to_multiset() == before.to_multiset(),
                self.decks() == old(self).decks(),
                self.wf() == old(self).wf(),
            decreases i,
        {
            let j = draws[i - 1];
            assert(draws@[i - 1] <= i - 1);
            self.swap_step(i - 1, j);
            i = i - 1;
        }
    }

    /// Permutes the cards left in the shoe: draws one position for each card
    /// from the generator and runs Fisher-Yates over them.
    pub fn shuffle(&mut self)
        requires
            old(self).wf(),
        ensures
            final(self).wf(),
            final(self).decks() == old(self).decks(),
            final(self)@.len() == old(self)@.len(),
            final(self)@.to_multiset() == old(self)@.to_multiset(),
            exists|draws: Seq<usize>|
                valid_draws(draws, old(self)@.len()) && final(self)@ == fisher_yates(
                    old(self)@,
                    draws,
                    old(self)@.len(),
                ),
    {
        let n = self.cards.len();
        let mut draws: Vec<usize> = Vec::new();
        let mut m: usize = 0;
        while m < n
            invariant
                n == self@.len(),
                self.cards@ == old(self).cards@,
                self.deck_count == old(self).deck_count,
                m <= n,
                draws@.len() == m,
                forall|k: int| 0 <= k < m ==> #[trigger] draws@[k] <= k,
            decreases n - m,
        {
            let j = random_below(&mut self.rng, m + 1);
            draws.push(j);
            m = m + 1;
        }
        self.shuffle_with(&draws);
    }

    /// Puts every card of every deck back and shuffles the whole shoe.
    pub fn reshuffle(&mut self)
        requires
            old(self).wf(),
        ensures
            final(self).wf(),
            final(self).decks() == old(self).decks(),
            final(self)@.len() == 52 * old(self).decks(),
            final(self)@.to_multiset() == fresh_shoe(old(self).decks()).to_multiset(),
    {
        self.cards = build_decks(self.deck_count);
        self.shuffle();
    }

    /// Draws the front card, first reshuffling every deck back in if the shoe
    /// has run out.
    pub fn deal(&mut self) -> (r: Card)
        requires
            old(self).wf(),
        ensures
            final(self).wf(),
            final(self).decks() == old(self).decks(),
            old(self)@.len() > 0 ==> r == old(self)@[0] && final(self)@ == old(self)@.subrange(
                1,
                old(self)@.len() as int,
            ),
            old(self)@.len() == 0 ==> final(self)@.len() == 52 * old(self).decks() - 1
                && (seq![r] + final(self)@).to_multiset() == fresh_shoe(
                old(self).decks(),
            ).to_multiset(),
    {
        if self.cards.len() == 0 {
            self.reshuffle();
        }
        let ghost full = self.cards@;
        let r = self.draw();
        proof {
            assert(seq![r] + self.cards@ =~= full);
        }
        r
    }

    /// Removes and returns the front card.
    pub fn draw(&mut self) -> (r: Card)
        requires
            old(self)@.len() > 0,
        ensures
            r == old(self)@[0],
            final(self)@ == old(self)@.subrange(1, old(self)@.len() as int),
            final(self)@.len() == old(self)@.len() - 1,
            final(self).decks() == old(self).decks(),
            final(self).wf() == old(self).wf(),
    {
        self.cards.remove(0)
    }
}

} // verus!

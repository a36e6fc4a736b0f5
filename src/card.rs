use vstd::prelude::*;

verus! {

/// The thirteen ranks of a standard deck.
#[derive(Clone, Copy, Debug, PartialEq, Eq, Structural)]
pub enum Rank {
    Ace,
    Two,
    Three,
    Four,
    Five,
    Six,
    Seven,
    Eight,
    Nine,
    Ten,
    Jack,
    Queen,
    King,
}

/// The four suits of a standard deck.
#[derive(Clone, Copy, Debug, PartialEq, Eq, Structural)]
pub enum Suit {
    Spades,
    Hearts,
    Diamonds,
    Clubs,
}

/// A playing card: an immutable pair of rank and suit.
#[derive(Clone, Copy, Debug, PartialEq, Eq, Structural)]
pub struct Card {
    pub rank: Rank,
    pub suit: Suit,
}

/// Number of cards in one standard deck.
pub const DECK_SIZE: usize = 52;

/// Hard value of a rank: an ace counts 1, face cards count 10.
pub open spec fn rank_points(r: Rank) -> nat {
    match r {
        Rank::Ace => 1,
        Rank::Two => 2,
        Rank::Three => 3,
        Rank::Four => 4,
        Rank::Five => 5,
        Rank::Six => 6,
        Rank::Seven => 7,
        Rank::Eight => 8,
        Rank::Nine => 9,
        _ => 10,
    }
}

/// The rank at position `i` (0..13) of a suit in a fresh deck.
pub open spec fn rank_at(i: int) -> Rank {
    if i == 0 { Rank::Ace }
    else if i == 1 { Rank::Two }
    else if i == 2 { Rank::Three }
    else if i == 3 { Rank::Four }
    else if i == 4 { Rank::Five }
    else if i == 5 { Rank::Six }
    else if i == 6 { Rank::Seven }
    else if i == 7 { Rank::Eight }
    else if i == 8 { Rank::Nine }
    else if i == 9 { Rank::Ten }
    else if i == 10 { Rank::Jack }
    else if i == 11 { Rank::Queen }
    else { Rank::King }
}

/// The suit of the `i`-th block of thirteen cards in a fresh deck.
pub open spec fn suit_at(i: int) -> Suit {
    if i == 0 { Suit::Spades }
    else if i == 1 { Suit::Hearts }
    else if i == 2 { Suit::Diamonds }
    else { Suit::Clubs }
}

/// The card at position `i` of a fresh, ordered deck: suits in turn, each
/// running from ace to king.
pub open spec fn fresh_deck_card(i: int) -> Card {
    Card { rank: rank_at(i % 13), suit: suit_at(i / 13) }
}

/// The cards of `deck_count` fresh decks laid one after the other.
pub open spec fn fresh_shoe(deck_count: nat) -> Seq<Card> {
    Seq::new(deck_count * 52, |i: int| fresh_deck_card(i % 52))
}

impl Rank {
    /// Hard point value of this rank.
    pub fn points(self) -> (r: u8)
        ensures
            r == rank_points(self),
    {
        match self {
            Rank::Ace => 1,
            Rank::Two => 2,
            Rank::Three => 3,
            Rank::Four => 4,
            Rank::Five => 5,
            Rank::Six => 6,
            Rank::Seven => 7,
            Rank::Eight => 8,
            Rank::Nine => 9,
            _ => 10,
        }
    }

    /// The rank at position `i` of a suit in a fresh deck.
    pub fn from_index(i: usize) -> (r: Rank)
        requires
            i < 13,
        ensures
            r == rank_at(i as int),
    {
        if i == 0 { Rank::Ace }
        else if i == 1 { Rank::Two }
        else if i == 2 { Rank::Three }
        else if i == 3 { Rank::Four }
        else if i == 4 { Rank::Five }
        else if i == 5 { Rank::Six }
        else if i == 6 { Rank::Seven }
        else if i == 7 { Rank::Eight }
        else if i == 8 { Rank::Nine }
        else if i == 9 { Rank::Ten }
        else if i == 10 { Rank::Jack }
        else if i == 11 { Rank::Queen }
        else { Rank::King }
    }
}

impl Suit {
    /// The suit of the `i`-th block of a fresh deck.
    pub fn from_index(i: usize) -> (r: Suit)
        requires
            i < 4,
        ensures
            r == suit_at(i as int),
    {
        if i == 0 { Suit::Spades }
        else if i == 1 { Suit::Hearts }
        else if i == 2 { Suit::Diamonds }
        else { Suit::Clubs }
    }
}

impl Card {
    pub fn new(rank: Rank, suit: Suit) -> (r: Card)
        ensures
            r.rank == rank,
            r.suit == suit,
    {
        Card { rank, suit }
    }

    /// Hard point value of the card.
    pub fn points(&self) -> (r: u8)
        ensures
            r == rank_points(self.rank),
    {
        self.rank.points()
    }

    pub fn is_ace(&self) -> (r: bool)
        ensures
            r == (self.rank == Rank::Ace),
    {
        matches!(self.rank, Rank::Ace)
    }
}

/// The 52 cards of one fresh deck, in order.
pub fn fresh_deck() -> (r: Vec<Card>)
    ensures
        r@ == fresh_shoe(1),
{
    let mut deck: Vec<Card> = Vec::new();
    let mut suit: usize = 0;
    while suit < 4
        invariant
            suit <= 4,
            deck@.len() == suit * 13,
            forall|k: int| 0 <= k < deck@.len() ==> #[trigger] deck@[k] == fresh_deck_card(k),
        decreases 4 - suit,
    {
        let mut rank: usize = 0;
        while rank < 13
            invariant
                suit < 4,
                rank <= 13,
                deck@.len() == suit * 13 + rank,
                forall|k: int| 0 <= k < deck@.len() ==> #[trigger] deck@[k] == fresh_deck_card(k),
            decreases 13 - rank,
        {
            let c = Card::new(Rank::from_index(rank), Suit::from_index(suit));
            proof {
                let k = (suit * 13 + rank) as int;
                assert(k % 13 == rank as int && k / 13 == suit as int) by (nonlinear_arith)
                    requires k == suit * 13 + rank, rank < 13;
            }
            deck.push(c);
            rank = rank + 1;
        }
        suit = suit + 1;
    }
    assert(deck@ =~= fresh_shoe(1));
    deck
}

} // verus!

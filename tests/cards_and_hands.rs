use blackjack::card::{fresh_deck, Card, Rank, Suit};
use blackjack::game::{parse_answer, GameAction};
use blackjack::hand::Hand;
use blackjack::settlement::{settle, RoundOutcome};
use blackjack::shoe::Shoe;

fn card(rank: Rank, suit: Suit) -> Card {
    Card::new(rank, suit)
}

fn hand_of(cards: &[Card], bet: u64) -> Hand {
    let mut h = Hand::new(bet);
    for c in cards {
        h.add_card(*c);
    }
    h
}

#[test]
fn fresh_deck_has_every_card_once() {
    let deck = fresh_deck();
    assert_eq!(deck.len(), 52);
    assert_eq!(deck[0], card(Rank::Ace, Suit::Spades));
    assert_eq!(deck[12], card(Rank::King, Suit::Spades));
    assert_eq!(deck[13], card(Rank::Ace, Suit::Hearts));
    assert_eq!(deck[51], card(Rank::King, Suit::Clubs));
    for i in 0..52 {
        for j in (i + 1)..52 {
            assert_ne!(deck[i], deck[j]);
        }
    }
}

#[test]
fn shoe_counts_cards_through_shuffles_and_draws() {
    let mut shoe = Shoe::new(3, 7);
    assert_eq!(shoe.remaining(), 156);
    shoe.shuffle();
    assert_eq!(shoe.remaining(), 156);
    for k in 1..=10 {
        shoe.draw();
        assert_eq!(shoe.remaining(), 156 - k);
    }
    shoe.reshuffle();
    assert_eq!(shoe.remaining(), 156);
}

#[test]
fn seeded_shuffles_repeat() {
    let mut a = Shoe::new(1, 42);
    let mut b = Shoe::new(1, 42);
    a.shuffle();
    b.shuffle();
    let mut from_a = Vec::new();
    let mut from_b = Vec::new();
    for _ in 0..52 {
        from_a.push(a.draw());
        from_b.push(b.draw());
    }
    assert_eq!(from_a, from_b);
    assert_eq!(a.remaining(), 0);
}

#[test]
fn shuffle_keeps_the_same_cards() {
    let mut shoe = Shoe::new(1, 9);
    shoe.shuffle();
    let mut drawn = Vec::new();
    for _ in 0..52 {
        drawn.push(shoe.draw());
    }
    let deck = fresh_deck();
    for c in deck.iter() {
        assert_eq!(drawn.iter().filter(|d| *d == c).count(), 1);
    }
    assert_ne!(drawn, deck);
}

#[test]
fn unshuffled_shoe_draws_in_deck_order() {
    let mut shoe = Shoe::new(2, 1);
    assert_eq!(shoe.draw(), card(Rank::Ace, Suit::Spades));
    assert_eq!(shoe.draw(), card(Rank::Two, Suit::Spades));
    assert_eq!(shoe.remaining(), 102);
}

#[test]
fn empty_shoe_deals_after_reshuffling() {
    let mut shoe = Shoe::stacked(vec![card(Rank::Five, Suit::Hearts)], 1, 3);
    assert_eq!(shoe.deal(), card(Rank::Five, Suit::Hearts));
    assert_eq!(shoe.remaining(), 0);
    shoe.deal();
    assert_eq!(shoe.remaining(), 51);
}

#[test]
fn ace_counts_eleven_unless_it_busts() {
    let h = hand_of(&[card(Rank::Ace, Suit::Spades), card(Rank::Six, Suit::Hearts)], 0);
    assert_eq!(h.value(), 17);
    assert!(h.is_soft());
    let h = hand_of(
        &[card(Rank::Ace, Suit::Spades), card(Rank::Nine, Suit::Hearts), card(Rank::Five, Suit::Clubs)],
        0,
    );
    assert_eq!(h.value(), 15);
    assert_eq!(h.hard_value(), 15);
    assert!(!h.is_soft());
    let h = hand_of(
        &[card(Rank::Ace, Suit::Spades), card(Rank::Ace, Suit::Hearts), card(Rank::Nine, Suit::Clubs)],
        0,
    );
    assert_eq!(h.value(), 21);
    let h = hand_of(
        &[
            card(Rank::Ace, Suit::Spades),
            card(Rank::Ace, Suit::Hearts),
            card(Rank::Ace, Suit::Clubs),
            card(Rank::Ace, Suit::Diamonds),
        ],
        0,
    );
    assert_eq!(h.value(), 14);
}

#[test]
fn face_cards_count_ten() {
    let h = hand_of(&[card(Rank::Jack, Suit::Spades), card(Rank::Queen, Suit::Hearts)], 0);
    assert_eq!(h.value(), 20);
    let h = hand_of(&[card(Rank::King, Suit::Spades), card(Rank::Three, Suit::Hearts)], 0);
    assert_eq!(h.value(), 13);
}

#[test]
fn hard_total_grows_with_each_card() {
    let mut h = Hand::new(0);
    let mut last = 0;
    for c in [Rank::Ace, Rank::Nine, Rank::Five, Rank::Two, Rank::King] {
        h.add_card(card(c, Suit::Clubs));
        assert!(h.hard_value() > last);
        assert!(h.value() >= h.hard_value());
        last = h.hard_value();
    }
    assert_eq!(h.hard_value(), 27);
    assert!(h.is_bust());
}

#[test]
fn blackjack_needs_two_unsplit_cards() {
    let mut h = hand_of(&[card(Rank::Ace, Suit::Spades), card(Rank::King, Suit::Diamonds)], 10);
    assert!(h.is_blackjack());
    assert!(!h.is_bust());
    h.split = true;
    assert!(!h.is_blackjack());
    let h = hand_of(
        &[card(Rank::Seven, Suit::Spades), card(Rank::Seven, Suit::Hearts), card(Rank::Seven, Suit::Clubs)],
        10,
    );
    assert_eq!(h.value(), 21);
    assert!(!h.is_blackjack());
}

#[test]
fn split_and_double_rules() {
    let pair = hand_of(&[card(Rank::Eight, Suit::Clubs), card(Rank::Eight, Suit::Diamonds)], 10);
    assert!(pair.can_split());
    assert!(pair.can_double());
    let mixed = hand_of(&[card(Rank::Ten, Suit::Clubs), card(Rank::King, Suit::Diamonds)], 10);
    assert!(!mixed.can_split());
    let three = hand_of(
        &[card(Rank::Two, Suit::Clubs), card(Rank::Two, Suit::Diamonds), card(Rank::Three, Suit::Clubs)],
        10,
    );
    assert!(!three.can_split());
    assert!(!three.can_double());
    let one = Hand::with_card(card(Rank::Nine, Suit::Hearts));
    assert_eq!(one.len(), 1);
    assert_eq!(one.bet, 0);
}

#[test]
fn dealer_draws_below_seventeen() {
    let twelve = hand_of(&[card(Rank::Ten, Suit::Clubs), card(Rank::Two, Suit::Hearts)], 0);
    assert!(twelve.dealer_should_draw());
    let sixteen = hand_of(&[card(Rank::Ten, Suit::Clubs), card(Rank::Six, Suit::Hearts)], 0);
    assert!(sixteen.dealer_should_draw());
    let seventeen = hand_of(&[card(Rank::Ten, Suit::Clubs), card(Rank::Seven, Suit::Hearts)], 0);
    assert!(!seventeen.dealer_should_draw());
    let soft_seventeen = hand_of(&[card(Rank::Ace, Suit::Clubs), card(Rank::Six, Suit::Hearts)], 0);
    assert!(!soft_seventeen.dealer_should_draw());
    let twenty_one = hand_of(
        &[card(Rank::Ten, Suit::Clubs), card(Rank::Five, Suit::Hearts), card(Rank::Six, Suit::Hearts)],
        0,
    );
    assert!(!twenty_one.dealer_should_draw());
}

#[test]
fn settlement_outcomes() {
    let p20 = hand_of(&[card(Rank::Ten, Suit::Clubs), card(Rank::Queen, Suit::Hearts)], 50);
    let d19 = hand_of(&[card(Rank::Ten, Suit::Spades), card(Rank::Nine, Suit::Hearts)], 0);
    let d20 = hand_of(&[card(Rank::King, Suit::Spades), card(Rank::Jack, Suit::Hearts)], 0);
    let p_bust = hand_of(
        &[card(Rank::Ten, Suit::Clubs), card(Rank::Six, Suit::Hearts), card(Rank::Nine, Suit::Clubs)],
        50,
    );
    let d_bust = hand_of(
        &[card(Rank::Ten, Suit::Spades), card(Rank::Five, Suit::Hearts), card(Rank::Eight, Suit::Clubs)],
        0,
    );
    assert_eq!(settle(&p20, &d19), (RoundOutcome::PlayerWin, 50));
    assert_eq!(settle(&p20, &d20), (RoundOutcome::Push, 0));
    assert_eq!(settle(&d19, &p20), (RoundOutcome::DealerWin, 0));
    assert_eq!(settle(&p20, &d_bust), (RoundOutcome::PlayerWin, 50));
    assert_eq!(settle(&p_bust, &d19), (RoundOutcome::DealerWin, 0));
    assert_eq!(settle(&p_bust, &d_bust), (RoundOutcome::DealerWin, 0));
}

#[test]
fn natural_beats_a_drawn_twenty_one() {
    let natural = hand_of(&[card(Rank::Ace, Suit::Spades), card(Rank::King, Suit::Diamonds)], 20);
    let drawn = hand_of(
        &[card(Rank::Seven, Suit::Spades), card(Rank::Seven, Suit::Hearts), card(Rank::Seven, Suit::Clubs)],
        0,
    );
    assert_eq!(settle(&natural, &drawn), (RoundOutcome::PlayerWin, 20));
    let dealer_natural = hand_of(&[card(Rank::Ace, Suit::Hearts), card(Rank::Queen, Suit::Clubs)], 0);
    let mut drawn_player = drawn.clone();
    drawn_player.bet = 20;
    assert_eq!(settle(&drawn_player, &dealer_natural), (RoundOutcome::DealerWin, 0));
    assert_eq!(settle(&natural, &dealer_natural), (RoundOutcome::Push, 0));
}

#[test]
fn action_words_parse() {
    assert_eq!(GameAction::from_string("h"), Some(GameAction::Hit));
    assert_eq!(GameAction::from_string("  HIT\n"), Some(GameAction::Hit));
    assert_eq!(GameAction::from_string("s"), Some(GameAction::Stand));
    assert_eq!(GameAction::from_string("Stand"), Some(GameAction::Stand));
    assert_eq!(GameAction::from_string("D\n"), Some(GameAction::Double));
    assert_eq!(GameAction::from_string("double"), Some(GameAction::Double));
    assert_eq!(GameAction::from_string("p"), Some(GameAction::Split));
    assert_eq!(GameAction::from_string(" split "), Some(GameAction::Split));
    assert_eq!(GameAction::from_string("x"), None);
    assert_eq!(GameAction::from_string(""), None);
    assert_eq!(GameAction::from_string("hits"), None);
    assert_eq!(GameAction::from_word("HIT"), None);
    assert_eq!(GameAction::from_word("hit"), Some(GameAction::Hit));
}

#[test]
fn swap_step_exchanges_two_positions() {
    let mut shoe = Shoe::new(1, 0);
    shoe.swap_step(0, 51);
    assert_eq!(shoe.draw(), card(Rank::King, Suit::Clubs));
    assert_eq!(shoe.remaining(), 51);
    let mut rest = Vec::new();
    while shoe.remaining() > 0 {
        rest.push(shoe.draw());
    }
    assert_eq!(rest[50], card(Rank::Ace, Suit::Spades));
    assert_eq!(rest[0], card(Rank::Two, Suit::Spades));
}

#[test]
fn shuffle_with_runs_fisher_yates_over_the_draws() {
    let cards = vec![
        card(Rank::Ace, Suit::Spades),
        card(Rank::Two, Suit::Spades),
        card(Rank::Three, Suit::Spades),
        card(Rank::Four, Suit::Spades),
    ];
    // Position 3 swaps with 0, 2 stays, then 1 swaps with 0.
    let mut shoe = Shoe::stacked(cards.clone(), 1, 0);
    shoe.shuffle_with(&vec![0, 0, 2, 0]);
    let mut order = Vec::new();
    while shoe.remaining() > 0 {
        order.push(shoe.draw());
    }
    assert_eq!(order, vec![cards[1], cards[3], cards[2], cards[0]]);
    // Drawing each position for itself keeps the order.
    let mut same = Shoe::stacked(cards.clone(), 1, 0);
    same.shuffle_with(&vec![0, 1, 2, 3]);
    let mut kept = Vec::new();
    while same.remaining() > 0 {
        kept.push(same.draw());
    }
    assert_eq!(kept, cards);
}

#[test]
fn dealing_from_an_empty_shoe_takes_a_card_of_the_decks() {
    let mut shoe = Shoe::stacked(vec![], 1, 8);
    let c = shoe.deal();
    assert_eq!(shoe.remaining(), 51);
    let mut rest = Vec::new();
    while shoe.remaining() > 0 {
        rest.push(shoe.draw());
    }
    assert!(!rest.contains(&c));
    assert!(fresh_deck().contains(&c));
}

#[test]
fn yes_no_answers_parse() {
    assert_eq!(parse_answer("y\n"), Some(true));
    assert_eq!(parse_answer(" YES "), Some(true));
    assert_eq!(parse_answer("n"), Some(false));
    assert_eq!(parse_answer("No\n"), Some(false));
    assert_eq!(parse_answer("maybe"), None);
    assert_eq!(parse_answer(""), None);
}

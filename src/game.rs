use vstd::prelude::*;
use crate::card::{Card, rank_points};
use crate::hand::{Hand, hard_total, best_total, dealer_draws, lemma_hard_total_grows};
use crate::settlement::{RoundOutcome, settle, hand_outcome, payout};
use crate::shoe::{Shoe, valid_draws, fisher_yates};
use vstd::string::StrSliceExecFns;

verus! {

/// Bankroll a player starts with unless the settings say otherwise.
pub const DEFAULT_BANKROLL: u64 = 1000;

/// Cards an initial deal takes; with fewer left the shoe is reshuffled
/// between rounds.
pub const CARDS_PER_DEAL: usize = 4;

/// Most cards any hand of a round can hold: a hand only draws while its hard
/// total is at most 21, and every card adds at least one point.
pub open spec fn max_hand_cards() -> nat {
    22
}

/// Immutable configuration of a game.
#[derive(Clone, Debug)]
pub struct GameSettings {
    pub player_name: String,
    pub deck_count: u8,
    pub player_count: u8,
    pub starting_bankroll: u64,
}

impl GameSettings {
    /// Settings for one player with the default bankroll.
    pub fn new(player_name: String, deck_count: u8) -> (r: GameSettings)
        ensures
            r.player_name@ == player_name@,
            r.deck_count == deck_count,
            r.player_count == 1,
            r.starting_bankroll == DEFAULT_BANKROLL,
    {
        GameSettings { player_name, deck_count, player_count: 1, starting_bankroll: DEFAULT_BANKROLL }
    }

    /// The same settings with another starting bankroll.
    pub fn with_starting_bankroll(self, amount: u64) -> (r: GameSettings)
        ensures
            r.player_name@ == self.player_name@,
            r.deck_count == self.deck_count,
            r.player_count == self.player_count,
            r.starting_bankroll == amount,
    {
        GameSettings { starting_bankroll: amount, ..self }
    }
}

/// A decision the player makes on the active hand.
#[derive(Clone, Copy, Debug, PartialEq, Eq, Structural)]
pub enum GameAction {
    Hit,
    Stand,
    Double,
    Split,
}

/// What `str::trim` returns for a text.
pub uninterp spec fn trimmed(s: Seq<char>) -> Seq<char>;

/// What `str::to_lowercase` returns for a text.
pub uninterp spec fn lowered(s: Seq<char>) -> Seq<char>;

/// Relies on `str::trim`: the text without leading and trailing whitespace,
/// which depends on the text alone.
#[verifier::external_body]
fn trim_text(s: &str) -> (r: &str)
    ensures
        r@ == trimmed(s@),
{
    s.trim()
}

/// Relies on `str::to_lowercase`: the lowercase form of the text, which
/// depends on the text alone.
#[verifier::external_body]
fn lowercase_text(s: &str) -> (r: String)
    ensures
        r@ == lowered(s@),
{
    s.to_lowercase()
}

/// The action a lowercase, trimmed word names: `h`/`hit`, `s`/`stand`,
/// `d`/`double`, `p`/`split`.
pub open spec fn action_word(w: Seq<char>) -> Option<GameAction> {
    if w == seq!['h'] || w == seq!['h', 'i', 't'] {
        Some(GameAction::Hit)
    } else if w == seq!['s'] || w == seq!['s', 't', 'a', 'n', 'd'] {
        Some(GameAction::Stand)
    } else if w == seq!['d'] || w == seq!['d', 'o', 'u', 'b', 'l', 'e'] {
        Some(GameAction::Double)
    } else if w == seq!['p'] || w == seq!['s', 'p', 'l', 'i', 't'] {
        Some(GameAction::Split)
    } else {
        None
    }
}

/// The answer a lowercase, trimmed word gives to "play again?": `y`/`yes`
/// or `n`/`no`.
pub open spec fn answer_word(w: Seq<char>) -> Option<bool> {
    if w == seq!['y'] || w == seq!['y', 'e', 's'] {
        Some(true)
    } else if w == seq!['n'] || w == seq!['n', 'o'] {
        Some(false)
    } else {
        None
    }
}

/// The answer a lowercase, trimmed word gives, if any.
pub fn answer_from_word(w: &str) -> (r: Option<bool>)
    ensures
        r == answer_word(w@),
{
    proof {
        reveal_strlit("y");
        assert("y"@ =~= seq!['y']);
        reveal_strlit("yes");
        assert("yes"@ =~= seq!['y', 'e', 's']);
        reveal_strlit("n");
        assert("n"@ =~= seq!['n']);
        reveal_strlit("no");
        assert("no"@ =~= seq!['n', 'o']);
    }
    if same_text(w, "y") || same_text(w, "yes") {
        Some(true)
    } else if same_text(w, "n") || same_text(w, "no") {
        Some(false)
    } else {
        None
    }
}

/// Reads a yes/no answer from typed text: surrounding whitespace is ignored
/// and letters may be of either case.
pub fn parse_answer(s: &str) -> (r: Option<bool>)
    ensures
        r == answer_word(lowered(trimmed(s@))),
{
    let t = trim_text(s);
    let w = lowercase_text(t);
    answer_from_word(w.as_str())
}

/// Whether two texts hold the same characters.
fn same_text(a: &str, b: &str) -> (r: bool)
    ensures
        r == (a@ == b@),
{
    let n = a.unicode_len();
    if n != b.unicode_len() {
        return false;
    }
    let mut i: usize = 0;
    while i < n
        invariant
            n == a@.len(),
            n == b@.len(),
            i <= n,
            forall|k: int| 0 <= k < i ==> a@[k] == b@[k],
        decreases n - i,
    {
        if a.get_char(i) != b.get_char(i) {
            return false;
        }
        i = i + 1;
    }
    assert(a@ =~= b@);
    true
}

impl GameAction {
    /// The action a lowercase, trimmed word names, if any.
    pub fn from_word(w: &str) -> (r: Option<GameAction>)
        ensures
            r == action_word(w@),
    {
        proof {
            reveal_strlit("h");
            assert("h"@ =~= seq!['h']);
            reveal_strlit("hit");
            assert("hit"@ =~= seq!['h', 'i', 't']);
            reveal_strlit("s");
            assert("s"@ =~= seq!['s']);
            reveal_strlit("stand");
            assert("stand"@ =~= seq!['s', 't', 'a', 'n', 'd']);
            reveal_strlit("d");
            assert("d"@ =~= seq!['d']);
            reveal_strlit("double");
            assert("double"@ =~= seq!['d', 'o', 'u', 'b', 'l', 'e']);
            reveal_strlit("p");
            assert("p"@ =~= seq!['p']);
            reveal_strlit("split");
            assert("split"@ =~= seq!['s', 'p', 'l', 'i', 't']);
        }
        if same_text(w, "h") || same_text(w, "hit") {
            Some(GameAction::Hit)
        } else if same_text(w, "s") || same_text(w, "stand") {
            Some(GameAction::Stand)
        } else if same_text(w, "d") || same_text(w, "double") {
            Some(GameAction::Double)
        } else if same_text(w, "p") || same_text(w, "split") {
            Some(GameAction::Split)
        } else {
            None
        }
    }

    /// Reads an action from typed text: surrounding whitespace is ignored and
    /// letters may be of either case.
    pub fn from_string(s: &str) -> (r: Option<GameAction>)
        ensures
            r == action_word(lowered(trimmed(s@))),
    {
        let t = trim_text(s);
        let w = lowercase_text(t);
        GameAction::from_word(w.as_str())
    }
}

/// A recoverable rejection of a bet or an action; the game does not change.
#[derive(Clone, Copy, Debug, PartialEq, Eq, Structural)]
pub enum GameError {
    /// A bet of zero.
    InvalidBet,
    /// A bet, double or split that needs more than the bankroll holds.
    InsufficientFunds,
    /// An action that the active hand does not allow, or on another hand.
    InvalidAction,
}

/// Where the round stands.
#[derive(Clone, Copy, Debug, PartialEq, Eq, Structural)]
pub enum Phase {
    WaitingForBet,
    WaitingToDeal,
    PlayerTurn { active: usize },
    DealerTurn { revealed: bool },
    RoundComplete,
}

/// A read-only snapshot of the phase and the figures shown with it.
#[derive(Clone, Copy, Debug, PartialEq, Eq, Structural)]
pub enum GameState {
    WaitingForBet { player_bankroll: u64 },
    WaitingToDeal { player_bet: u64, player_bankroll: u64 },
    PlayerTurn { player_bankroll: u64, active_hand_index: usize },
    DealerTurn { player_bankroll: u64 },
    RoundComplete { player_bankroll: u64 },
}

/// The stake a hand still has riding: its bet until it is settled.
pub open spec fn stake(h: Hand) -> int {
    if h.outcome is None {
        h.bet as int
    } else {
        0
    }
}

/// The stakes of all unsettled hands.
pub open spec fn open_stakes(s: Seq<Hand>) -> int
    decreases s.len(),
{
    if s.len() == 0 {
        0
    } else {
        open_stakes(s.drop_last()) + stake(s.last())
    }
}

/// What settling every hand against `dealer` returns to the bankroll.
pub open spec fn total_payout(s: Seq<Hand>, dealer: Hand) -> int
    decreases s.len(),
{
    if s.len() == 0 {
        0
    } else {
        total_payout(s.drop_last(), dealer) + payout(hand_outcome(s.last(), dealer), s.last().bet)
    }
}

/// The phase after the hand at `i` of `n` is done.
pub open spec fn after_hand(i: int, n: int) -> Phase {
    if i + 1 < n {
        Phase::PlayerTurn { active: (i + 1) as usize }
    } else {
        Phase::DealerTurn { revealed: false }
    }
}

/// A hand of a round: a bounded number of cards, and an open hand not bust.
pub open spec fn hand_ok(h: Hand) -> bool {
    &&& h.cards@.len() <= max_hand_cards()
    &&& !h.finished ==> hard_total(h.cards@) <= 21
}

/// The round engine for one player against the dealer.
pub struct Game {
    settings: GameSettings,
    shoe: Shoe,
    phase: Phase,
    player_hands: Vec<Hand>,
    dealer_hand: Hand,
    bankroll: u64,
    net_winnings: Ghost<int>,
}

impl Game {
    pub closed spec fn phase(&self) -> Phase {
        self.phase
    }

    pub closed spec fn hands(&self) -> Seq<Hand> {
        self.player_hands@
    }

    pub closed spec fn dealer(&self) -> Hand {
        self.dealer_hand
    }

    pub closed spec fn bank(&self) -> nat {
        self.bankroll as nat
    }

    pub closed spec fn decks(&self) -> nat {
        self.shoe.decks()
    }

    pub closed spec fn shoe_cards(&self) -> Seq<Card> {
        self.shoe@
    }

    /// The bankroll the game started with.
    pub closed spec fn initial_bankroll(&self) -> int {
        self.settings.starting_bankroll as int
    }

    /// Everything settled hands returned, less what was staked on them.
    pub closed spec fn net_winnings(&self) -> int {
        self.net_winnings@
    }

    pub closed spec fn wf(&self) -> bool {
        &&& self.shoe.wf()
        &&& self.dealer_hand.cards@.len() <= max_hand_cards()
        &&& forall|k: int| 0 <= k < self.player_hands@.len() ==> hand_ok(#[trigger] self.player_hands@[k])
        &&& self.bankroll + open_stakes(self.player_hands@) <= u64::MAX
        &&& self.bankroll + open_stakes(self.player_hands@)
            <= self.settings.starting_bankroll + self.net_winnings@
        &&& self.phase != Phase::RoundComplete ==> forall|k: int|
            0 <= k < self.player_hands@.len() ==> (#[trigger] self.player_hands@[k]).outcome is None
        &&& self.phase == Phase::RoundComplete ==> forall|k: int|
            0 <= k < self.player_hands@.len() ==> (#[trigger] self.player_hands@[k]).outcome is Some
        &&& self.phase == Phase::WaitingForBet ==> self.player_hands@.len() == 0
        &&& self.phase == Phase::WaitingForBet || self.phase == Phase::WaitingToDeal
            ==> self.dealer_hand.cards@.len() == 0
        &&& self.phase == Phase::WaitingToDeal ==> {
            &&& self.player_hands@.len() == 1
            &&& self.player_hands@[0].cards@.len() == 0
            &&& !self.player_hands@[0].split
            &&& !self.player_hands@[0].doubled
            &&& !self.player_hands@[0].finished
        }
        &&& self.phase is PlayerTurn ==> {
            &&& self.phase->active < self.player_hands@.len()
            &&& forall|k: int|
                self.phase->active <= k < self.player_hands@.len()
                    ==> !(#[trigger] self.player_hands@[k]).finished
        }
    }
}

/// Every card is worth at least one point.
proof fn lemma_len_le_hard_total(s: Seq<Card>)
    ensures
        s.len() <= hard_total(s),
    decreases s.len(),
{
    if s.len() > 0 {
        lemma_len_le_hard_total(s.drop_last());
        lemma_hard_total_grows(s.drop_last(), s.last());
        assert(s.drop_last().push(s.last()) =~= s);
    }
}

/// Two cards are never bust on their hard total.
proof fn lemma_hard_total_pair(a: Card, b: Card)
    ensures
        hard_total(seq![a, b]) == rank_points(a.rank) + rank_points(b.rank),
        hard_total(seq![a, b]) <= 20,
{
    assert(Seq::<Card>::empty().push(a) =~= seq![a]);
    assert(seq![a].push(b) =~= seq![a, b]);
    lemma_hard_total_grows(Seq::<Card>::empty(), a);
    lemma_hard_total_grows(seq![a], b);
}

proof fn lemma_open_stakes_nonneg(s: Seq<Hand>)
    ensures
        open_stakes(s) >= 0,
    decreases s.len(),
{
    if s.len() > 0 {
        lemma_open_stakes_nonneg(s.drop_last());
    }
}

proof fn lemma_open_stakes_update(s: Seq<Hand>, k: int, h: Hand)
    requires
        0 <= k < s.len(),
    ensures
        open_stakes(s.update(k, h)) == open_stakes(s) - stake(s[k]) + stake(h),
    decreases s.len(),
{
    if k == s.len() - 1 {
        assert(s.update(k, h).drop_last() =~= s.drop_last());
    } else {
        lemma_open_stakes_update(s.drop_last(), k, h);
        assert(s.update(k, h).drop_last() =~= s.drop_last().update(k, h));
    }
}

proof fn lemma_open_stakes_insert(s: Seq<Hand>, k: int, h: Hand)
    requires
        0 <= k <= s.len(),
    ensures
        open_stakes(s.insert(k, h)) == open_stakes(s) + stake(h),
    decreases s.len(),
{
    if k == s.len() {
        assert(s.insert(k, h).drop_last() =~= s);
    } else {
        lemma_open_stakes_insert(s.drop_last(), k, h);
        assert(s.insert(k, h).drop_last() =~= s.drop_last().insert(k, h));
    }
}


/// Hands other than `i` are as they were, and so is the hand count.
pub open spec fn others_kept(g0: Game, g1: Game, i: int) -> bool {
    &&& g1.hands().len() == g0.hands().len()
    &&& forall|k: int| 0 <= k < g0.hands().len() && k != i ==> #[trigger] g1.hands()[k] == g0.hands()[k]
}

/// Hand `i` has one more card: the front of the shoe, which loses it, if the
/// shoe had any.
pub open spec fn took_card(g0: Game, g1: Game, i: int) -> bool {
    let h0 = g0.hands()[i];
    let h1 = g1.hands()[i];
    &&& h1.cards@.len() == h0.cards@.len() + 1
    &&& h1.cards@.drop_last() == h0.cards@
    &&& g0.shoe_cards().len() > 0 ==> h1.cards@.last() == g0.shoe_cards()[0]
        && g1.shoe_cards() == g0.shoe_cards().subrange(1, g0.shoe_cards().len() as int)
}

/// The active hand `i` took a card; a bust closes it and passes the turn.
pub open spec fn hit_done(g0: Game, g1: Game, i: int) -> bool {
    let h0 = g0.hands()[i];
    let h1 = g1.hands()[i];
    &&& others_kept(g0, g1, i)
    &&& took_card(g0, g1, i)
    &&& h1.bet == h0.bet && h1.split == h0.split && h1.doubled == h0.doubled
    &&& h1.outcome == h0.outcome
    &&& h1.finished == h1.bust()
    &&& g1.phase() == if h1.bust() {
        after_hand(i, g0.hands().len() as int)
    } else {
        g0.phase()
    }
    &&& g1.bank() == g0.bank()
}

/// The active hand `i` stood: closed as it was, the turn passed on.
pub open spec fn stand_done(g0: Game, g1: Game, i: int) -> bool {
    &&& others_kept(g0, g1, i)
    &&& g1.hands()[i] == (Hand { finished: true, ..g0.hands()[i] })
    &&& g1.phase() == after_hand(i, g0.hands().len() as int)
    &&& g1.bank() == g0.bank()
    &&& g1.shoe_cards() == g0.shoe_cards()
}

/// The active hand `i` doubled: the bet staked again, one card taken, the
/// hand closed and the turn passed on.
pub open spec fn double_done(g0: Game, g1: Game, i: int) -> bool {
    let h0 = g0.hands()[i];
    let h1 = g1.hands()[i];
    &&& others_kept(g0, g1, i)
    &&& took_card(g0, g1, i)
    &&& h1.bet == 2 * h0.bet
    &&& h1.doubled && h1.finished
    &&& h1.split == h0.split && h1.outcome == h0.outcome
    &&& g1.phase() == after_hand(i, g0.hands().len() as int)
    &&& g1.bank() == g0.bank() - h0.bet
}

/// The active hand `i` split: its second card heads a new hand at `i + 1`
/// with the same bet staked again, each hand took one card, and hand `i`
/// stays active.
pub open spec fn split_done(g0: Game, g1: Game, i: int) -> bool {
    let h0 = g0.hands()[i];
    let a = g1.hands()[i];
    let b = g1.hands()[i + 1];
    let s = g0.shoe_cards();
    &&& g1.hands().len() == g0.hands().len() + 1
    &&& forall|k: int| 0 <= k < i ==> #[trigger] g1.hands()[k] == g0.hands()[k]
    &&& forall|k: int| i + 1 < k < g1.hands().len() ==> #[trigger] g1.hands()[k] == g0.hands()[k - 1]
    &&& a.cards@.len() == 2 && a.cards@[0] == h0.cards@[0]
    &&& b.cards@.len() == 2 && b.cards@[0] == h0.cards@[1]
    &&& s.len() >= 2 ==> a.cards@[1] == s[0] && b.cards@[1] == s[1] && g1.shoe_cards()
        == s.subrange(2, s.len() as int)
    &&& a.bet == h0.bet && b.bet == h0.bet
    &&& a.split && b.split
    &&& a.doubled == h0.doubled && !b.doubled && !a.finished && !b.finished
    &&& a.outcome is None && b.outcome is None
    &&& g1.phase() == g0.phase()
    &&& g1.bank() == g0.bank() - h0.bet
}

/// `x` held to the range of a `u64`.
pub open spec fn saturated(x: int) -> int {
    if x > u64::MAX {
        u64::MAX as int
    } else {
        x
    }
}

/// The hand with its outcome against `dealer` recorded.
pub open spec fn settled(h: Hand, dealer: Hand) -> Hand {
    Hand { outcome: Some(hand_outcome(h, dealer)), ..h }
}

proof fn lemma_open_stakes_all_settled(s: Seq<Hand>)
    requires
        forall|k: int| 0 <= k < s.len() ==> (#[trigger] s[k]).outcome is Some,
    ensures
        open_stakes(s) == 0,
    decreases s.len(),
{
    if s.len() > 0 {
        lemma_open_stakes_all_settled(s.drop_last());
    }
}

proof fn lemma_stake_le_open_stakes(s: Seq<Hand>, k: int)
    requires
        0 <= k < s.len(),
    ensures
        stake(s[k]) <= open_stakes(s),
{
    let h0 = Hand { outcome: Some(RoundOutcome::Push), ..s[k] };
    lemma_open_stakes_update(s, k, h0);
    lemma_open_stakes_nonneg(s.update(k, h0));
}

/// Settles every hand against `dealer` and credits what each returns.
fn settle_hands(hands: &mut Vec<Hand>, dealer: &Hand, bankroll: &mut u64)
    requires
        dealer.fits(),
        forall|k: int| 0 <= k < old(hands)@.len() ==> hand_ok(#[trigger] old(hands)@[k]),
    ensures
        final(hands)@.len() == old(hands)@.len(),
        forall|k: int|
            0 <= k < old(hands)@.len() ==> #[trigger] final(hands)@[k] == settled(
                old(hands)@[k],
                *dealer,
            ),
        *final(bankroll) == saturated(*old(bankroll) + total_payout(old(hands)@, *dealer)),
{
    let ghost before = hands@;
    let mut i: usize = 0;
    while i < hands.len()
        invariant
            0 <= i <= hands@.len(),
            hands@.len() == before.len(),
            dealer.fits(),
            forall|k: int| 0 <= k < before.len() ==> hand_ok(#[trigger] before[k]),
            forall|k: int| 0 <= k < i ==> #[trigger] hands@[k] == settled(before[k], *dealer),
            forall|k: int| i <= k < before.len() ==> #[trigger] hands@[k] == before[k],
            *bankroll == saturated(*old(bankroll) + total_payout(before.take(i as int), *dealer)),
            total_payout(before.take(i as int), *dealer) >= 0,
        decreases hands@.len() - i,
    {
        assert(hand_ok(before[i as int]));
        let (outcome, won) = settle(&hands[i], dealer);
        let bet = hands[i].bet;
        let returned: u64 = match outcome {
            RoundOutcome::DealerWin => 0,
            _ => bet,
        };
        *bankroll = bankroll.saturating_add(returned).saturating_add(won);
        hands[i].outcome = Some(outcome);
        proof {
            assert(before.take(i + 1).drop_last() =~= before.take(i as int));
            assert(hands@[i as int] == settled(before[i as int], *dealer));
        }
        i = i + 1;
    }
    assert(before.take(i as int) =~= before);
}

impl Game {
    /// A game over a fresh shoe of the configured decks, seeded with `seed`;
    /// the shoe is shuffled by `shuffle_shoe`.
    pub fn new(settings: GameSettings, seed: u64) -> (r: Game)
        requires
            settings.deck_count >= 1,
        ensures
            r.wf(),
            r.phase() == Phase::WaitingForBet,
            r.bank() == settings.starting_bankroll,
            r.initial_bankroll() == settings.starting_bankroll,
            r.net_winnings() == 0,
            r.shoe_cards() == crate::card::fresh_shoe(settings.deck_count as nat),
    {
        let shoe = Shoe::new(settings.deck_count, seed);
        Game::with_shoe(settings, shoe)
    }

    /// A game that draws from `shoe` as it stands.
    pub fn with_shoe(settings: GameSettings, shoe: Shoe) -> (r: Game)
        requires
            shoe.wf(),
        ensures
            r.wf(),
            r.phase() == Phase::WaitingForBet,
            r.hands().len() == 0,
            r.bank() == settings.starting_bankroll,
            r.initial_bankroll() == settings.starting_bankroll,
            r.net_winnings() == 0,
            r.shoe_cards() == shoe@,
    {
        let bankroll = settings.starting_bankroll;
        Game {
            settings,
            shoe,
            phase: Phase::WaitingForBet,
            player_hands: Vec::new(),
            dealer_hand: Hand::new(0),
            bankroll,
            net_winnings: Ghost(0),
        }
    }

    pub fn settings(&self) -> (r: &GameSettings)
        ensures
            r.starting_bankroll == self.initial_bankroll(),
    {
        &self.settings
    }

    pub fn bankroll(&self) -> (r: u64)
        ensures
            r == self.bank(),
    {
        self.bankroll
    }

    pub fn player_hands(&self) -> (r: &Vec<Hand>)
        ensures
            r@ == self.hands(),
    {
        &self.player_hands
    }

    pub fn dealer_hand(&self) -> (r: &Hand)
        ensures
            *r == self.dealer(),
    {
        &self.dealer_hand
    }

    pub fn phase_now(&self) -> (r: Phase)
        ensures
            r == self.phase(),
    {
        self.phase
    }

    pub fn shoe_remaining(&self) -> (r: usize)
        ensures
            r == self.shoe_cards().len(),
    {
        self.shoe.remaining()
    }

    /// The current phase with the bankroll, the pending bet or the active
    /// hand that goes with it.
    pub fn get_state(&self) -> (r: GameState)
        requires
            self.wf(),
        ensures
            self.phase() == Phase::WaitingForBet ==> r == (GameState::WaitingForBet {
                player_bankroll: self.bank() as u64,
            }),
            self.phase() == Phase::WaitingToDeal ==> r == (GameState::WaitingToDeal {
                player_bet: self.hands()[0].bet,
                player_bankroll: self.bank() as u64,
            }),
            self.phase() is PlayerTurn ==> r == (GameState::PlayerTurn {
                player_bankroll: self.bank() as u64,
                active_hand_index: self.phase()->active,
            }),
            self.phase() is DealerTurn ==> r == (GameState::DealerTurn {
                player_bankroll: self.bank() as u64,
            }),
            self.phase() == Phase::RoundComplete ==> r == (GameState::RoundComplete {
                player_bankroll: self.bank() as u64,
            }),
    {
        let player_bankroll = self.bankroll;
        match self.phase {
            Phase::WaitingForBet => GameState::WaitingForBet { player_bankroll },
            Phase::WaitingToDeal => GameState::WaitingToDeal {
                player_bet: self.player_hands[0].bet,
                player_bankroll,
            },
            Phase::PlayerTurn { active } => GameState::PlayerTurn {
                player_bankroll,
                active_hand_index: active,
            },
            Phase::DealerTurn { .. } => GameState::DealerTurn { player_bankroll },
            Phase::RoundComplete => GameState::RoundComplete { player_bankroll },
        }
    }

    /// Shuffles the cards left in the shoe.
    pub fn shuffle_shoe(&mut self)
        requires
            old(self).wf(),
        ensures
            final(self).wf(),
            final(self).phase() == old(self).phase(),
            final(self).hands() == old(self).hands(),
            final(self).dealer() == old(self).dealer(),
            final(self).bank() == old(self).bank(),
            final(self).initial_bankroll() == old(self).initial_bankroll(),
            final(self).net_winnings() == old(self).net_winnings(),
            final(self).shoe_cards().to_multiset() == old(self).shoe_cards().to_multiset(),
            exists|draws: Seq<usize>|
                valid_draws(draws, old(self).shoe_cards().len()) && final(self).shoe_cards()
                    == fisher_yates(old(self).shoe_cards(), draws, old(self).shoe_cards().len()),
    {
        self.shoe.shuffle();
    }

    /// Places the round's bet: zero is an invalid bet, more than the bankroll
    /// is insufficient funds; an accepted bet leaves the bankroll at once.
    pub fn accept_user_bet(&mut self, amount: u64) -> (r: Result<(), GameError>)
        requires
            old(self).wf(),
            old(self).phase() == Phase::WaitingForBet,
        ensures
            final(self).wf(),
            final(self).initial_bankroll() == old(self).initial_bankroll(),
            final(self).net_winnings() == old(self).net_winnings(),
            amount == 0 ==> r == Err::<(), GameError>(GameError::InvalidBet),
            amount > 0 && amount > old(self).bank() ==> r == Err::<(), GameError>(
                GameError::InsufficientFunds,
            ),
            r is Err ==> *final(self) == *old(self),
            0 < amount <= old(self).bank() ==> {
                &&& r is Ok
                &&& final(self).phase() == Phase::WaitingToDeal
                &&& final(self).bank() == old(self).bank() - amount
                &&& final(self).hands().len() == 1
                &&& final(self).hands()[0].bet == amount
                &&& final(self).hands()[0].cards@.len() == 0
                &&& final(self).dealer() == old(self).dealer()
                &&& final(self).shoe_cards() == old(self).shoe_cards()
            },
    {
        if amount == 0 {
            return Err(GameError::InvalidBet);
        }
        if amount > self.bankroll {
            return Err(GameError::InsufficientFunds);
        }
        self.bankroll = self.bankroll - amount;
        let mut hands: Vec<Hand> = Vec::new();
        hands.push(Hand::new(amount));
        self.player_hands = hands;
        self.phase = Phase::WaitingToDeal;
        proof {
            assert(self.player_hands@.drop_last() =~= Seq::<Hand>::empty());
            assert(open_stakes(Seq::<Hand>::empty()) == 0);
        }
        Ok(())
    }

    /// Deals two cards to the player and two to the dealer, alternating. A
    /// player natural ends the round at once: a push against a dealer
    /// natural, else a win.
    pub fn deal_initial_cards(&mut self)
        requires
            old(self).wf(),
            old(self).phase() == Phase::WaitingToDeal,
        ensures
            final(self).wf(),
            final(self).initial_bankroll() == old(self).initial_bankroll(),
            final(self).decks() == old(self).decks(),
            final(self).hands().len() == 1,
            final(self).hands()[0].bet == old(self).hands()[0].bet,
            !final(self).hands()[0].split,
            final(self).hands()[0].cards@.len() == 2,
            final(self).dealer().cards@.len() == 2,
            old(self).shoe_cards().len() >= 4 ==> {
                let s = old(self).shoe_cards();
                &&& final(self).hands()[0].cards@ == seq![s[0], s[2]]
                &&& final(self).dealer().cards@ == seq![s[1], s[3]]
                &&& final(self).shoe_cards() == s.subrange(4, s.len() as int)
            },
            final(self).hands()[0].natural() ==> {
                let o = if final(self).dealer().natural() {
                    RoundOutcome::Push
                } else {
                    RoundOutcome::PlayerWin
                };
                &&& final(self).phase() == Phase::RoundComplete
                &&& final(self).hands()[0].outcome == Some(o)
                &&& final(self).bank() == saturated(
                    (old(self).bank() + payout(o, old(self).hands()[0].bet)) as int,
                )
                &&& final(self).net_winnings() == old(self).net_winnings() + payout(
                    o,
                    old(self).hands()[0].bet,
                ) - old(self).hands()[0].bet
            },
            !final(self).hands()[0].natural() ==> {
                &&& final(self).phase() == (Phase::PlayerTurn { active: 0 })
                &&& final(self).hands()[0].outcome is None
                &&& final(self).bank() == old(self).bank()
                &&& final(self).net_winnings() == old(self).net_winnings()
            },
    {
        let ghost h0 = self.player_hands@[0];
        let c1 = self.shoe.deal();
        self.player_hands[0].add_card(c1);
        let c2 = self.shoe.deal();
        self.dealer_hand.add_card(c2);
        let c3 = self.shoe.deal();
        self.player_hands[0].add_card(c3);
        let c4 = self.shoe.deal();
        self.dealer_hand.add_card(c4);
        proof {
            let h = self.player_hands@[0];
            assert(self.player_hands@ =~= old(self).player_hands@.update(0, h));
            lemma_open_stakes_update(old(self).player_hands@, 0, h);
            assert(h.cards@ =~= seq![c1, c3]);
            lemma_hard_total_pair(c1, c3);
            assert(hand_ok(h));
        }
        if self.player_hands[0].is_blackjack() {
            self.phase = Phase::DealerTurn { revealed: true };
            proof {
                let h = self.player_hands@[0];
                crate::hand::lemma_natural_not_bust(h);
                assert(self.player_hands@.drop_last() =~= Seq::<Hand>::empty());
                assert(open_stakes(Seq::<Hand>::empty()) == 0);
                assert(total_payout(Seq::<Hand>::empty(), self.dealer_hand) == 0);
            }
            self.finish_round();
        } else {
            self.phase = Phase::PlayerTurn { active: 0 };
        }
    }

    /// One step of the dealer's turn: reveal the hidden card; else draw while
    /// the best total is under 17; else stand, settle every hand and complete
    /// the round.
    pub fn next_dealer_turn(&mut self)
        requires
            old(self).wf(),
            old(self).phase() is DealerTurn,
        ensures
            final(self).wf(),
            final(self).initial_bankroll() == old(self).initial_bankroll(),
            final(self).decks() == old(self).decks(),
            !old(self).phase()->revealed ==> {
                &&& final(self).phase() == (Phase::DealerTurn { revealed: true })
                &&& final(self).hands() == old(self).hands()
                &&& final(self).dealer() == old(self).dealer()
                &&& final(self).bank() == old(self).bank()
                &&& final(self).net_winnings() == old(self).net_winnings()
                &&& final(self).shoe_cards() == old(self).shoe_cards()
            },
            old(self).phase()->revealed && dealer_draws(old(self).dealer().cards@) ==> {
                &&& final(self).phase() == old(self).phase()
                &&& final(self).hands() == old(self).hands()
                &&& final(self).dealer().cards@.drop_last() == old(self).dealer().cards@
                &&& final(self).dealer().cards@.len() == old(self).dealer().cards@.len() + 1
                &&& old(self).shoe_cards().len() > 0 ==> final(self).dealer().cards@.last()
                    == old(self).shoe_cards()[0] && final(self).shoe_cards()
                    == old(self).shoe_cards().subrange(1, old(self).shoe_cards().len() as int)
                &&& final(self).bank() == old(self).bank()
                &&& final(self).net_winnings() == old(self).net_winnings()
            },
            old(self).phase()->revealed && !dealer_draws(old(self).dealer().cards@) ==> {
                &&& final(self).phase() == Phase::RoundComplete
                &&& final(self).dealer() == old(self).dealer()
                &&& final(self).shoe_cards() == old(self).shoe_cards()
                &&& final(self).hands().len() == old(self).hands().len()
                &&& forall|k: int|
                    0 <= k < old(self).hands().len() ==> #[trigger] final(self).hands()[k]
                        == settled(old(self).hands()[k], old(self).dealer())
                &&& final(self).bank() == saturated(
                    old(self).bank() + total_payout(old(self).hands(), old(self).dealer()),
                )
                &&& final(self).net_winnings() == old(self).net_winnings() + total_payout(
                    old(self).hands(),
                    old(self).dealer(),
                ) - open_stakes(old(self).hands())
            },
    {
        let revealed = match self.phase {
            Phase::DealerTurn { revealed } => revealed,
            _ => true,
        };
        if !revealed {
            self.phase = Phase::DealerTurn { revealed: true };
        } else if self.dealer_hand.dealer_should_draw() {
            proof {
                crate::hand::lemma_best_total_bounds(self.dealer_hand.cards@);
                lemma_len_le_hard_total(self.dealer_hand.cards@);
            }
            let c = self.shoe.deal();
            self.dealer_hand.add_card(c);
        } else {
            self.finish_round();
        }
    }

    /// Clears the finished round and waits for the next bet; the bankroll
    /// stays, and the shoe is reshuffled only when it holds too few cards for
    /// another deal.
    pub fn next_round(&mut self)
        requires
            old(self).wf(),
            old(self).phase() == Phase::RoundComplete,
        ensures
            final(self).wf(),
            final(self).phase() == Phase::WaitingForBet,
            final(self).hands().len() == 0,
            final(self).dealer().cards@.len() == 0,
            final(self).bank() == old(self).bank(),
            final(self).initial_bankroll() == old(self).initial_bankroll(),
            final(self).net_winnings() == old(self).net_winnings(),
            final(self).decks() == old(self).decks(),
            old(self).shoe_cards().len() >= CARDS_PER_DEAL ==> final(self).shoe_cards()
                == old(self).shoe_cards(),
            old(self).shoe_cards().len() < CARDS_PER_DEAL ==> final(self).shoe_cards().len() == 52
                * old(self).decks(),
    {
        proof {
            lemma_open_stakes_all_settled(self.player_hands@);
        }
        self.player_hands = Vec::new();
        self.dealer_hand = Hand::new(0);
        if self.shoe.remaining() < CARDS_PER_DEAL {
            self.shoe.reshuffle();
        }
        self.phase = Phase::WaitingForBet;
    }

    /// Applies the player's decision to the active hand. A hit that busts
    /// closes the hand; a stand closes it; a double stakes the bet again, takes
    /// exactly one card and closes the hand; a split moves the second card to a
    /// new hand right after it, stakes the bet again on it, and deals each hand
    /// one card. A closed hand passes the turn to the next hand, or to the
    /// dealer after the last one.
    pub fn process_player_action(&mut self, action: GameAction, hand_index: usize) -> (r: Result<
        (),
        GameError,
    >)
        requires
            old(self).wf(),
            old(self).phase() is PlayerTurn,
        ensures
            final(self).wf(),
            final(self).initial_bankroll() == old(self).initial_bankroll(),
            final(self).net_winnings() == old(self).net_winnings(),
            final(self).decks() == old(self).decks(),
            final(self).dealer() == old(self).dealer(),
            r is Err ==> *final(self) == *old(self),
            hand_index != old(self).phase()->active ==> r == Err::<(), GameError>(
                GameError::InvalidAction,
            ),
            hand_index == old(self).phase()->active ==> {
                let i = hand_index as int;
                let h = old(self).hands()[i];
                &&& action == GameAction::Hit ==> r is Ok && hit_done(*old(self), *final(self), i)
                &&& action == GameAction::Stand ==> r is Ok && stand_done(
                    *old(self),
                    *final(self),
                    i,
                )
                &&& action == GameAction::Double ==> {
                    &&& !h.doublable() ==> r == Err::<(), GameError>(GameError::InvalidAction)
                    &&& h.doublable() && old(self).bank() < h.bet ==> r == Err::<(), GameError>(
                        GameError::InsufficientFunds,
                    )
                    &&& h.doublable() && old(self).bank() >= h.bet ==> r is Ok && double_done(
                        *old(self),
                        *final(self),
                        i,
                    )
                }
                &&& action == GameAction::Split ==> {
                    &&& !h.splittable() ==> r == Err::<(), GameError>(GameError::InvalidAction)
                    &&& h.splittable() && old(self).bank() < h.bet ==> r == Err::<(), GameError>(
                        GameError::InsufficientFunds,
                    )
                    &&& h.splittable() && old(self).bank() >= h.bet ==> r is Ok && split_done(
                        *old(self),
                        *final(self),
                        i,
                    )
                }
            },
    {
        let i = match self.phase {
            Phase::PlayerTurn { active } => active,
            _ => hand_index,
        };
        if hand_index != i {
            return Err(GameError::InvalidAction);
        }
        match action {
            GameAction::Hit => {
                self.hit(i);
                Ok(())
            },
            GameAction::Stand => {
                self.stand(i);
                Ok(())
            },
            GameAction::Double => self.double_down(i),
            GameAction::Split => self.split_hand(i),
        }
    }

    fn hit(&mut self, i: usize)
        requires
            old(self).wf(),
            old(self).phase() == (Phase::PlayerTurn { active: i }),
        ensures
            final(self).wf(),
            final(self).settings == old(self).settings,
            final(self).net_winnings == old(self).net_winnings,
            final(self).dealer_hand == old(self).dealer_hand,
            final(self).shoe.decks() == old(self).shoe.decks(),
            hit_done(*old(self), *final(self), i as int),
    {
        proof {
            lemma_len_le_hard_total(self.player_hands@[i as int].cards@);
        }
        let c = self.shoe.deal();
        self.player_hands[i].add_card(c);
        proof {
            assert(self.player_hands@[i as int].cards@.drop_last() =~= old(self).player_hands@[i as int].cards@);
            lemma_hard_total_grows(old(self).player_hands@[i as int].cards@, c);
        }
        if self.player_hands[i].is_bust() {
            self.player_hands[i].finished = true;
            self.close_hand(i);
        }
        proof {
            assert(self.player_hands@ =~= old(self).player_hands@.update(
                i as int,
                self.player_hands@[i as int],
            ));
            self.lemma_frame_hand(*old(self), i as int);
            self.lemma_wf_after_hand_change(*old(self), i as int);
        }
    }

    fn stand(&mut self, i: usize)
        requires
            old(self).wf(),
            old(self).phase() == (Phase::PlayerTurn { active: i }),
        ensures
            final(self).wf(),
            final(self).settings == old(self).settings,
            final(self).net_winnings == old(self).net_winnings,
            final(self).dealer_hand == old(self).dealer_hand,
            final(self).shoe.decks() == old(self).shoe.decks(),
            stand_done(*old(self), *final(self), i as int),
    {
        self.player_hands[i].finished = true;
        self.close_hand(i);
        proof {
            assert(self.player_hands@ =~= old(self).player_hands@.update(
                i as int,
                self.player_hands@[i as int],
            ));
            self.lemma_frame_hand(*old(self), i as int);
            self.lemma_wf_after_hand_change(*old(self), i as int);
        }
    }

    fn double_down(&mut self, i: usize) -> (r: Result<(), GameError>)
        requires
            old(self).wf(),
            old(self).phase() == (Phase::PlayerTurn { active: i }),
        ensures
            final(self).wf(),
            final(self).settings == old(self).settings,
            final(self).net_winnings == old(self).net_winnings,
            final(self).dealer_hand == old(self).dealer_hand,
            final(self).shoe.decks() == old(self).shoe.decks(),
            r is Err ==> *final(self) == *old(self),
            !old(self).hands()[i as int].doublable() ==> r == Err::<(), GameError>(
                GameError::InvalidAction,
            ),
            old(self).hands()[i as int].doublable() && old(self).bank() < old(self).hands()[i as int].bet
                ==> r == Err::<(), GameError>(GameError::InsufficientFunds),
            old(self).hands()[i as int].doublable() && old(self).bank() >= old(self).hands()[i as int].bet
                ==> r is Ok && double_done(*old(self), *final(self), i as int),
    {
        if !self.player_hands[i].can_double() {
            return Err(GameError::InvalidAction);
        }
        let bet = self.player_hands[i].bet;
        if self.bankroll < bet {
            return Err(GameError::InsufficientFunds);
        }
        proof {
            lemma_stake_le_open_stakes(self.player_hands@, i as int);
            lemma_len_le_hard_total(self.player_hands@[i as int].cards@);
        }
        self.bankroll = self.bankroll - bet;
        self.player_hands[i].bet = bet * 2;
        self.player_hands[i].doubled = true;
        let c = self.shoe.deal();
        self.player_hands[i].add_card(c);
        proof {
            assert(self.player_hands@[i as int].cards@.drop_last() =~= old(self).player_hands@[i as int].cards@);
        }
        self.player_hands[i].finished = true;
        self.close_hand(i);
        proof {
            assert(self.player_hands@ =~= old(self).player_hands@.update(
                i as int,
                self.player_hands@[i as int],
            ));
            self.lemma_frame_hand(*old(self), i as int);
            self.lemma_wf_after_hand_change(*old(self), i as int);
        }
        Ok(())
    }

    fn split_hand(&mut self, i: usize) -> (r: Result<(), GameError>)
        requires
            old(self).wf(),
            old(self).phase() == (Phase::PlayerTurn { active: i }),
        ensures
            final(self).wf(),
            final(self).settings == old(self).settings,
            final(self).net_winnings == old(self).net_winnings,
            final(self).dealer_hand == old(self).dealer_hand,
            final(self).shoe.decks() == old(self).shoe.decks(),
            r is Err ==> *final(self) == *old(self),
            !old(self).hands()[i as int].splittable() ==> r == Err::<(), GameError>(
                GameError::InvalidAction,
            ),
            old(self).hands()[i as int].splittable() && old(self).bank() < old(self).hands()[i as int].bet
                ==> r == Err::<(), GameError>(GameError::InsufficientFunds),
            old(self).hands()[i as int].splittable() && old(self).bank() >= old(self).hands()[i as int].bet
                ==> r is Ok && split_done(*old(self), *final(self), i as int),
    {
        if !self.player_hands[i].can_split() {
            return Err(GameError::InvalidAction);
        }
        let bet = self.player_hands[i].bet;
        if self.bankroll < bet {
            return Err(GameError::InsufficientFunds);
        }
        let n = self.player_hands.len();
        self.bankroll = self.bankroll - bet;
        let first = self.player_hands[i].cards[0];
        let second = self.player_hands[i].split_off_second();
        let mut sibling = Hand::with_card(second);
        sibling.bet = bet;
        sibling.split = true;
        let c1 = self.shoe.deal();
        self.player_hands[i].add_card(c1);
        let c2 = self.shoe.deal();
        sibling.add_card(c2);
        let ghost mid = self.player_hands@;
        self.player_hands.insert(i + 1, sibling);
        proof {
            let h1 = mid[i as int];
            let s0 = old(self).shoe@;
            if s0.len() >= 2 {
                assert(self.shoe@ =~= s0.subrange(2, s0.len() as int));
            }
            assert(h1.cards@ =~= seq![first, c1]);
            assert(sibling.cards@ =~= seq![second, c2]);
            lemma_hard_total_pair(first, c1);
            lemma_hard_total_pair(second, c2);
            assert(mid =~= old(self).player_hands@.update(i as int, h1));
            lemma_open_stakes_update(old(self).player_hands@, i as int, h1);
            lemma_open_stakes_insert(mid, i + 1, sibling);
            assert forall|k: int| 0 <= k < self.player_hands@.len() implies hand_ok(
                #[trigger] self.player_hands@[k],
            ) by {
                if k > i + 1 {
                    assert(self.player_hands@[k] == old(self).player_hands@[k - 1]);
                } else if k < i {
                    assert(self.player_hands@[k] == old(self).player_hands@[k]);
                }
            }
        }
        Ok(())
    }

    /// Passes the turn on from the closed hand `i`.
    fn close_hand(&mut self, i: usize)
        requires
            i < old(self).player_hands@.len(),
        ensures
            final(self).phase == after_hand(i as int, old(self).player_hands@.len() as int),
            old(self).player_hands@.len() <= usize::MAX,
            final(self).player_hands == old(self).player_hands,
            final(self).dealer_hand == old(self).dealer_hand,
            final(self).shoe == old(self).shoe,
            final(self).bankroll == old(self).bankroll,
            final(self).settings == old(self).settings,
            final(self).net_winnings == old(self).net_winnings,
    {
        if i < self.player_hands.len() - 1 {
            self.phase = Phase::PlayerTurn { active: i + 1 };
        } else {
            self.phase = Phase::DealerTurn { revealed: false };
        }
    }

    /// The invariant survives a change to the active hand `i` alone that
    /// keeps it open and the turn with it, or closes it and passes the turn.
    proof fn lemma_wf_after_hand_change(&self, g0: Game, i: int)
        requires
            g0.wf(),
            0 <= i < g0.player_hands@.len(),
            g0.phase == (Phase::PlayerTurn { active: i as usize }),
            self.shoe.wf(),
            self.dealer_hand == g0.dealer_hand,
            self.settings == g0.settings,
            self.net_winnings == g0.net_winnings,
            self.player_hands@ == g0.player_hands@.update(i, self.player_hands@[i]),
            hand_ok(self.player_hands@[i]),
            self.player_hands@[i].outcome is None,
            self.bankroll + open_stakes(self.player_hands@) == g0.bankroll + open_stakes(
                g0.player_hands@,
            ),
            self.player_hands@[i].finished ==> self.phase == after_hand(
                i,
                g0.player_hands@.len() as int,
            ) && g0.player_hands@.len() <= usize::MAX,
            !self.player_hands@[i].finished ==> self.phase == g0.phase,
        ensures
            self.wf(),
    {
        assert forall|k: int| 0 <= k < self.player_hands@.len() && k != i implies #[trigger]
            self.player_hands@[k] == g0.player_hands@[k] by {}
        assert forall|k: int| 0 <= k < self.player_hands@.len() implies hand_ok(
            #[trigger] self.player_hands@[k],
        ) && self.player_hands@[k].outcome is None by {
            if k != i {
                assert(self.player_hands@[k] == g0.player_hands@[k]);
            }
        }
        if self.phase is PlayerTurn {
            assert forall|k: int|
                self.phase->active <= k < self.player_hands@.len() implies !(
                #[trigger] self.player_hands@[k]).finished by {
                if k != i {
                    assert(self.player_hands@[k] == g0.player_hands@[k]);
                }
            }
        }
    }

    /// After a change to hand `i` alone that keeps its bet unsettled, the
    /// other hands and the open stakes are as in `g0` but for that bet.
    proof fn lemma_frame_hand(&self, g0: Game, i: int)
        requires
            0 <= i < g0.player_hands@.len(),
            self.player_hands@ == g0.player_hands@.update(i, self.player_hands@[i]),
            self.player_hands@[i].outcome is None,
            g0.player_hands@[i].outcome is None,
        ensures
            open_stakes(self.player_hands@) == open_stakes(g0.player_hands@)
                - g0.player_hands@[i].bet + self.player_hands@[i].bet,
    {
        lemma_open_stakes_update(g0.player_hands@, i, self.player_hands@[i]);
    }

    /// Settles every hand against the dealer's final hand and completes the
    /// round.
    fn finish_round(&mut self)
        requires
            old(self).wf(),
            old(self).phase() is DealerTurn,
        ensures
            final(self).wf(),
            final(self).phase() == Phase::RoundComplete,
            final(self).hands().len() == old(self).hands().len(),
            forall|k: int|
                0 <= k < old(self).hands().len() ==> #[trigger] final(self).hands()[k] == settled(
                    old(self).hands()[k],
                    old(self).dealer(),
                ),
            final(self).dealer() == old(self).dealer(),
            final(self).shoe_cards() == old(self).shoe_cards(),
            final(self).decks() == old(self).decks(),
            final(self).bank() == saturated(
                old(self).bank() + total_payout(old(self).hands(), old(self).dealer()),
            ),
            final(self).initial_bankroll() == old(self).initial_bankroll(),
            final(self).net_winnings() == old(self).net_winnings() + total_payout(
                old(self).hands(),
                old(self).dealer(),
            ) - open_stakes(old(self).hands()),
    {
        let ghost stakes = open_stakes(self.player_hands@);
        let ghost paid = total_payout(self.player_hands@, self.dealer_hand);
        settle_hands(&mut self.player_hands, &self.dealer_hand, &mut self.bankroll);
        self.phase = Phase::RoundComplete;
        self.net_winnings = Ghost(self.net_winnings@ + paid - stakes);
        proof {
            lemma_open_stakes_all_settled(self.player_hands@);
            assert forall|k: int| 0 <= k < self.player_hands@.len() implies hand_ok(
                #[trigger] self.player_hands@[k],
            ) by {
                assert(self.player_hands@[k] == settled(old(self).player_hands@[k], self.dealer_hand));
            }
        }
    }
}

/// The bankroll never goes negative and never exceeds the starting bankroll
/// plus the net winnings of every hand settled so far.
pub proof fn lemma_bankroll_bounded(g: Game)
    requires
        g.wf(),
    ensures
        0 <= g.bank() <= g.initial_bankroll() + g.net_winnings(),
{
    lemma_open_stakes_nonneg(g.player_hands@);
}

/// During the player's turn the active hand exists and is still open.
pub proof fn lemma_active_hand_open(g: Game)
    requires
        g.wf(),
        g.phase() is PlayerTurn,
    ensures
        g.phase()->active < g.hands().len(),
        !g.hands()[g.phase()->active as int].finished,
{
}

} // verus!

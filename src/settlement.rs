use vstd::prelude::*;
use crate::hand::Hand;

verus! {

/// How a settled hand ended for the player.
#[derive(Clone, Copy, Debug, PartialEq, Eq, Structural)]
pub enum RoundOutcome {
    PlayerWin,
    DealerWin,
    Push,
}

/// The outcome for the player, from each side's best total, bust flag and
/// natural flag. A player bust loses first, even against a busted dealer; a
/// natural beats any other 21.
pub open spec fn outcome_for(
    p_total: nat,
    p_bust: bool,
    p_natural: bool,
    d_total: nat,
    d_bust: bool,
    d_natural: bool,
) -> RoundOutcome {
    if p_bust {
        RoundOutcome::DealerWin
    } else if d_bust {
        RoundOutcome::PlayerWin
    } else if p_natural && !d_natural {
        RoundOutcome::PlayerWin
    } else if d_natural && !p_natural {
        RoundOutcome::DealerWin
    } else if p_total > d_total {
        RoundOutcome::PlayerWin
    } else if p_total < d_total {
        RoundOutcome::DealerWin
    } else {
        RoundOutcome::Push
    }
}

/// The outcome of a finished player hand against the dealer's hand.
pub open spec fn hand_outcome(p: Hand, d: Hand) -> RoundOutcome {
    outcome_for(p.total(), p.bust(), p.natural(), d.total(), d.bust(), d.natural())
}

/// What a hand wins beyond its returned stake: the bet on a win, else nothing.
pub open spec fn winnings(o: RoundOutcome, bet: u64) -> nat {
    if o == RoundOutcome::PlayerWin {
        bet as nat
    } else {
        0
    }
}

/// What goes back to the bankroll for a settled hand: the stake on a win or a
/// push, plus the winnings.
pub open spec fn payout(o: RoundOutcome, bet: u64) -> nat {
    match o {
        RoundOutcome::PlayerWin => 2 * (bet as nat),
        RoundOutcome::Push => bet as nat,
        RoundOutcome::DealerWin => 0,
    }
}

/// Settles a player hand against the dealer hand: the outcome, and the
/// winnings beyond the stake (the bet, even money, on a win; zero on a push,
/// where the stake comes back, and on a loss, where it is forfeited).
pub fn settle(player: &Hand, dealer: &Hand) -> (r: (RoundOutcome, u64))
    requires
        player.fits(),
        dealer.fits(),
    ensures
        r.0 == hand_outcome(*player, *dealer),
        r.1 == winnings(r.0, player.bet),
{
    let outcome = if player.is_bust() {
        RoundOutcome::DealerWin
    } else if dealer.is_bust() {
        RoundOutcome::PlayerWin
    } else {
        let p_natural = player.is_blackjack();
        let d_natural = dealer.is_blackjack();
        if p_natural && !d_natural {
            RoundOutcome::PlayerWin
        } else if d_natural && !p_natural {
            RoundOutcome::DealerWin
        } else {
            let p = player.value();
            let d = dealer.value();
            if p > d {
                RoundOutcome::PlayerWin
            } else if p < d {
                RoundOutcome::DealerWin
            } else {
                RoundOutcome::Push
            }
        }
    };
    let won = match outcome {
        RoundOutcome::PlayerWin => player.bet,
        _ => 0,
    };
    (outcome, won)
}

/// Settlement is exhaustive and consistent: every combination of totals and
/// flags yields exactly one outcome; a double bust goes to the dealer; and
/// with neither side bust, swapping the two sides swaps a win for a loss and
/// keeps a push.
pub proof fn lemma_settlement_exhaustive(
    p_total: nat,
    p_bust: bool,
    p_natural: bool,
    d_total: nat,
    d_bust: bool,
    d_natural: bool,
)
    ensures
        ({
            let o = outcome_for(p_total, p_bust, p_natural, d_total, d_bust, d_natural);
            (o == RoundOutcome::PlayerWin) as int + (o == RoundOutcome::DealerWin) as int + (o
                == RoundOutcome::Push) as int == 1
        }),
        p_bust && d_bust ==> outcome_for(p_total, p_bust, p_natural, d_total, d_bust, d_natural)
            == RoundOutcome::DealerWin,
        !p_bust && !d_bust ==> (outcome_for(p_total, false, p_natural, d_total, false, d_natural)
            == RoundOutcome::PlayerWin <==> outcome_for(
            d_total,
            false,
            d_natural,
            p_total,
            false,
            p_natural,
        ) == RoundOutcome::DealerWin),
        !p_bust && !d_bust ==> (outcome_for(p_total, false, p_natural, d_total, false, d_natural)
            == RoundOutcome::Push <==> outcome_for(
            d_total,
            false,
            d_natural,
            p_total,
            false,
            p_natural,
        ) == RoundOutcome::Push),
{
}

} // verus!

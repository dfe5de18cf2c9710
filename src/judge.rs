use vstd::prelude::*;

use crate::cards::fresh_cards;
use crate::hand::{is_terminal, Hand, HandState, HandView};
use crate::round::{blackjack_round, seat_ok, Round};
use crate::text::{decimal, push_decimal};

verus! {

/// The bet that every player places in a new round of a game.
pub const DEFAULT_BET: i32 = 10;

/// How a player's hand fared against the dealer's.
#[derive(Clone, Copy, PartialEq, Eq, Debug, Structural)]
pub enum HandResult {
    /// A two-card blackjack against a dealer without one.
    AutoWin,
    Win,
    Loss,
    Draw,
}

/// The judging table. Both hands are closed.
pub open spec fn hand_result(user: HandView, dealer: HandView) -> HandResult {
    match (user.state, dealer.state) {
        (HandState::Blackjack, HandState::Blackjack) => HandResult::Draw,
        (HandState::Blackjack, _) => if user.cards.len() == 2 {
            HandResult::AutoWin
        } else {
            HandResult::Win
        },
        (HandState::Finished, HandState::Finished) => if user.sum > dealer.sum {
            HandResult::Win
        } else if user.sum == dealer.sum {
            HandResult::Draw
        } else {
            HandResult::Loss
        },
        (HandState::Finished, HandState::Bust) => HandResult::Win,
        _ => HandResult::Loss,
    }
}

/// `x / 2`, rounded toward zero.
pub open spec fn half_toward_zero(x: int) -> int {
    if x >= 0 {
        x / 2
    } else {
        -((-x) / 2)
    }
}

/// Coins won (or lost, below zero) on a bet: a natural blackjack pays one
/// and a half times the bet, rounded toward zero; a win pays the bet; a loss
/// costs it; a draw pays nothing.
pub open spec fn payout_of(result: HandResult, bet: int) -> int {
    match result {
        HandResult::AutoWin => half_toward_zero(3 * bet),
        HandResult::Win => bet,
        HandResult::Loss => -bet,
        HandResult::Draw => 0,
    }
}

/// A bet whose payouts fit in an `i32`.
pub open spec fn bet_in_range(bet: int) -> bool {
    i32::MIN <= 3 * bet <= i32::MAX
}

pub fn calculate_hand_result(user_hand: &Hand, dealer_hand: &Hand) -> (r: HandResult)
    requires
        is_terminal(user_hand.state),
        is_terminal(dealer_hand.state),
    ensures
        r == hand_result(user_hand@, dealer_hand@),
{
    match (user_hand.state, dealer_hand.state) {
        (HandState::Blackjack, HandState::Blackjack) => HandResult::Draw,
        (HandState::Blackjack, _) => {
            if user_hand.cards.len() == 2 {
                HandResult::AutoWin
            } else {
                HandResult::Win
            }
        },
        (HandState::Finished, HandState::Finished) => {
            if user_hand.sum > dealer_hand.sum {
                HandResult::Win
            } else if user_hand.sum == dealer_hand.sum {
                HandResult::Draw
            } else {
                HandResult::Loss
            }
        },
        (HandState::Finished, HandState::Bust) => HandResult::Win,
        _ => HandResult::Loss,
    }
}

pub fn payout(result: HandResult, bet: i32) -> (coins: i32)
    requires
        bet_in_range(bet as int),
    ensures
        coins == payout_of(result, bet as int),
{
    match result {
        HandResult::AutoWin => {
            if bet >= 0 {
                (3 * bet) / 2
            } else {
                -((3 * (-bet)) / 2)
            }
        },
        HandResult::Win => bet,
        HandResult::Loss => -bet,
        HandResult::Draw => 0,
    }
}

/// The name of player `i` (counted from zero): `User_1`, `User_2`, ...
pub open spec fn player_name(i: int) -> Seq<char> {
    "User_"@ + decimal((i + 1) as nat)
}

/// What the player's hands `hands` win against `dealer` on `bet`, in total.
pub open spec fn hands_delta(hands: Seq<HandView>, dealer: HandView, bet: int) -> int
    decreases hands.len(),
{
    if hands.len() == 0 {
        0
    } else {
        hands_delta(hands.drop_last(), dealer, bet) + payout_of(hand_result(hands.last(), dealer), bet)
    }
}

/// The verdict on one player hand.
#[derive(Clone, Copy, PartialEq, Eq, Debug, Structural)]
pub struct JudgedHand {
    pub actor_idx: usize,
    pub hand_idx: usize,
    pub result: HandResult,
    pub coins: i32,
}

/// The verdicts on the hands of player `a`, in order.
pub open spec fn seat_verdicts(a: int, hands: Seq<HandView>, dealer: HandView, bet: int) -> Seq<
    JudgedHand,
> {
    Seq::new(
        hands.len(),
        |h: int|
            JudgedHand {
                actor_idx: a as usize,
                hand_idx: h as usize,
                result: hand_result(hands[h], dealer),
                coins: payout_of(hand_result(hands[h], dealer), bet) as i32,
            },
    )
}

/// Scores kept across rounds, and the round being played.
pub struct Game {
    pub current_round: Round,
    pub player_scores: Vec<i32>,
    pub player_names: Vec<String>,
}

impl Game {
    pub open spec fn wf(&self) -> bool {
        &&& self.current_round.wf()
        &&& self.player_scores@.len() + 1 == self.current_round.actors@.len()
        &&& self.player_names@.len() == self.player_scores@.len()
    }

    /// Every player hand and the dealer's hand are closed.
    pub open spec fn round_over(&self) -> bool {
        let r = self.current_round;
        &&& forall|a: int, h: int|
            #![trigger r.seats()[a].hands[h]]
            0 <= a < r.dealer_seat() && 0 <= h < r.seats()[a].hands.len() ==> is_terminal(
                r.seats()[a].hands[h].state,
            )
        &&& is_terminal(r.dealer_view().state)
    }

    /// The verdicts on the hands of the players `0..upto`, in turn order.
    pub open spec fn verdicts(&self, upto: int) -> Seq<JudgedHand>
        decreases upto,
    {
        if upto <= 0 {
            Seq::empty()
        } else {
            let r = self.current_round;
            self.verdicts(upto - 1) + seat_verdicts(
                upto - 1,
                r.seats()[upto - 1].hands,
                r.dealer_view(),
                r.actor_bets@[upto - 1] as int,
            )
        }
    }

    /// Player `a`'s coins after their first `k` hands are judged.
    pub open spec fn score_after(&self, a: int, k: int) -> int {
        let r = self.current_round;
        self.player_scores@[a] + hands_delta(
            r.seats()[a].hands.take(k),
            r.dealer_view(),
            r.actor_bets@[a] as int,
        )
    }

    /// Every bet pays out within an `i32`, and every running score does too.
    pub open spec fn scores_fit(&self) -> bool {
        let r = self.current_round;
        forall|a: int|
            0 <= a < r.dealer_seat() ==> {
                &&& bet_in_range(r.actor_bets@[a] as int)
                &&& forall|k: int|
                    0 <= k <= r.seats()[a].hands.len() ==> i32::MIN <= #[trigger] self.score_after(
                        a,
                        k,
                    ) <= i32::MAX
            }
    }

    /// A game of `number_of_players` players named `User_1`, `User_2`, ...,
    /// with no coins yet and a fresh round at the default bet.
    pub fn init(number_of_players: usize) -> (g: Game)
        requires
            number_of_players < usize::MAX,
        ensures
            g.wf(),
            g.current_round.undealt(),
            g.current_round.deck.cards@.to_multiset() == fresh_cards().to_multiset(),
            g.current_round.actors@.len() == number_of_players + 1,
            g.current_round.actor_cursor == 0,
            g.current_round.hand_cursor == 0,
            g.current_round.actor_bets@ == Seq::new(number_of_players as nat, |i: int| DEFAULT_BET),
            g.player_scores@ == Seq::new(number_of_players as nat, |i: int| 0i32),
            forall|i: int| 0 <= i < number_of_players ==> (#[trigger] g.player_names@[i])@ == player_name(i),
    {
        let mut player_scores: Vec<i32> = Vec::new();
        let mut player_names: Vec<String> = Vec::new();
        let mut i: usize = 0;
        while i < number_of_players
            invariant
                i <= number_of_players < usize::MAX,
                player_scores@ == Seq::new(i as nat, |j: int| 0i32),
                player_names@.len() == i,
                forall|j: int| 0 <= j < i ==> (#[trigger] player_names@[j])@ == player_name(j),
            decreases number_of_players - i,
        {
            let mut name = String::from_str("User_");
            push_decimal(&mut name, (i + 1) as u64);
            player_names.push(name);
            player_scores.push(0);
            assert(player_scores@ =~= Seq::new((i + 1) as nat, |j: int| 0i32));
            i = i + 1;
        }
        Game {
            current_round: blackjack_round(number_of_players, DEFAULT_BET),
            player_scores,
            player_names,
        }
    }

    /// Replaces the round with a fresh one for the same players; names and
    /// scores stay.
    pub fn start_new_round(&mut self)
        requires
            old(self).wf(),
        ensures
            final(self).wf(),
            final(self).current_round.undealt(),
            final(self).current_round.deck.cards@.to_multiset() == fresh_cards().to_multiset(),
            final(self).current_round.actors@.len() == old(self).current_round.actors@.len(),
            final(self).current_round.actor_cursor == 0,
            final(self).current_round.hand_cursor == 0,
            final(self).current_round.actor_bets@ == Seq::new(
                old(self).player_scores@.len(),
                |i: int| DEFAULT_BET,
            ),
            final(self).player_scores@ == old(self).player_scores@,
            final(self).player_names@ == old(self).player_names@,
    {
        proof {
            assert(self.current_round.actors.len() == self.current_round.actors@.len());
        }
        self.current_round = blackjack_round(self.player_scores.len(), DEFAULT_BET);
    }

    /// Judges every player hand of the finished round against the dealer's
    /// and adds the coins won or lost to each player's score. Returns the
    /// verdicts in turn order.
    pub fn judge_current_round(&mut self) -> (verdicts: Vec<JudgedHand>)
        requires
            old(self).wf(),
            old(self).round_over(),
            old(self).scores_fit(),
        ensures
            final(self).current_round == old(self).current_round,
            final(self).player_names@ == old(self).player_names@,
            final(self).player_scores@.len() == old(self).player_scores@.len(),
            forall|a: int|
                0 <= a < old(self).player_scores@.len() ==> #[trigger] final(self).player_scores@[a]
                    == old(self).score_after(a, old(self).current_round.seats()[a].hands.len() as int),
            verdicts@ == old(self).verdicts(old(self).current_round.dealer_seat()),
    {
        let d = self.current_round.actors.len() - 1;
        let ghost g0 = *old(self);
        let ghost r0 = old(self).current_round;
        let mut out: Vec<JudgedHand> = Vec::new();
        let mut a: usize = 0;
        while a < d
            invariant
                d == r0.dealer_seat(),
                g0 == *old(self),
                r0 == old(self).current_round,
                self.current_round == r0,
                self.player_names@ == old(self).player_names@,
                self.player_scores@.len() == d,
                a <= d,
                forall|j: int|
                    0 <= j < d ==> #[trigger] self.player_scores@[j] == if j < a {
                        g0.score_after(j, r0.seats()[j].hands.len() as int)
                    } else {
                        g0.player_scores@[j] as int
                    },
                out@ == g0.verdicts(a as int),
                g0.wf(),
                g0.round_over(),
                g0.scores_fit(),
            decreases d - a,
        {
            let bet = self.current_round.actor_bets[a];
            let ghost hands = r0.seats()[a as int].hands;
            let ghost dealer = r0.dealer_view();
            let ghost start = out@;
            proof {
                assert(r0.seats()[a as int] == r0.actors@[a as int]@);
                assert(seat_ok(r0.seats()[r0.dealer_seat()], true));
            }
            let dealer_hand = self.current_round.dealer_hand();
            let n = self.current_round.actors[a].hands.len();
            let mut h: usize = 0;
            while h < n
                invariant
                    d == r0.dealer_seat(),
                    a < d,
                    g0 == *old(self),
                    r0 == old(self).current_round,
                    self.current_round == r0,
                    self.player_names@ == old(self).player_names@,
                    self.player_scores@.len() == d,
                    bet == r0.actor_bets@[a as int],
                    hands == r0.seats()[a as int].hands,
                    dealer == r0.dealer_view(),
                    dealer_hand@ == dealer,
                    n == hands.len(),
                    h <= n,
                    forall|j: int|
                        0 <= j < d ==> #[trigger] self.player_scores@[j] == if j < a {
                            g0.score_after(j, r0.seats()[j].hands.len() as int)
                        } else if j == a {
                            g0.score_after(j, h as int)
                        } else {
                            g0.player_scores@[j] as int
                        },
                    start == g0.verdicts(a as int),
                    out@ == start + seat_verdicts(a as int, hands, dealer, bet as int).take(h as int),
                    g0.wf(),
                    g0.round_over(),
                    g0.scores_fit(),
                decreases n - h,
            {
                proof {
                    assert(r0.seats()[a as int] == r0.actors@[a as int]@);
                    assert(hands[h as int] == r0.actors@[a as int].hands@[h as int]@);
                    assert(is_terminal(r0.seats()[a as int].hands[h as int].state));
                    assert(hands.take(h + 1).drop_last() =~= hands.take(h as int));
                    assert(i32::MIN <= g0.score_after(a as int, h + 1) <= i32::MAX);
                    assert(self.player_scores@[a as int] == g0.score_after(a as int, h as int));
                }
                let result = calculate_hand_result(&self.current_round.actors[a].hands[h], dealer_hand);
                let coins = payout(result, bet);
                let score = self.player_scores[a] + coins;
                self.player_scores.set(a, score);
                out.push(JudgedHand { actor_idx: a, hand_idx: h, result, coins });
                proof {
                    let sv = seat_verdicts(a as int, hands, dealer, bet as int);
                    assert(sv.take(h + 1) =~= sv.take(h as int).push(sv[h as int]));
                    assert(out@ =~= start + sv.take(h + 1));
                }
                h = h + 1;
            }
            proof {
                let sv = seat_verdicts(a as int, hands, dealer, bet as int);
                assert(sv.take(n as int) =~= sv);
                assert(hands.take(n as int) =~= hands);
                assert(out@ == g0.verdicts(a + 1));
            }
            a = a + 1;
        }
        out
    }

    /// Player `a`'s hands are all closed, and their bet and every running
    /// score fit in an `i32`.
    pub open spec fn seat_judgeable(&self, a: int) -> bool {
        let r = self.current_round;
        &&& forall|h: int|
            #![trigger r.seats()[a].hands[h]]
            0 <= h < r.seats()[a].hands.len() ==> is_terminal(r.seats()[a].hands[h].state)
        &&& bet_in_range(r.actor_bets@[a] as int)
        &&& forall|k: int|
            0 <= k <= r.seats()[a].hands.len() ==> i32::MIN <= #[trigger] self.score_after(a, k)
                <= i32::MAX
    }

    /// Whether `judge_current_round` may be called: the round is over and no
    /// score would overflow.
    pub fn can_judge(&self) -> (r: bool)
        requires
            self.wf(),
        ensures
            r == (self.round_over() && self.scores_fit()),
    {
        let round = &self.current_round;
        let d = round.actors.len() - 1;
        proof {
            assert(seat_ok(round.seats()[round.dealer_seat()], true));
        }
        let dealer_hand = round.dealer_hand();
        if dealer_hand.state == HandState::Undefined {
            return false;
        }
        let mut a: usize = 0;
        while a < d
            invariant
                round == &self.current_round,
                d == round.dealer_seat(),
                self.wf(),
                dealer_hand@ == round.dealer_view(),
                is_terminal(round.dealer_view().state),
                a <= d,
                forall|j: int| 0 <= j < a ==> #[trigger] self.seat_judgeable(j),
            decreases d - a,
        {
            let bet = round.actor_bets[a];
            if bet < -715827882 || bet > 715827882 {
                proof {
                    assert(!bet_in_range(round.actor_bets@[a as int] as int));
                }
                return false;
            }
            proof {
                assert(round.seats()[a as int] == round.actors@[a as int]@);
                assert(round.seats()[a as int].hands.take(0) =~= Seq::<HandView>::empty());
            }
            let mut running: i64 = self.player_scores[a] as i64;
            let n = round.actors[a].hands.len();
            let mut h: usize = 0;
            while h < n
                invariant
                    round == &self.current_round,
                    d == round.dealer_seat(),
                    self.wf(),
                    dealer_hand@ == round.dealer_view(),
                    is_terminal(round.dealer_view().state),
                    a < d,
                    bet == round.actor_bets@[a as int],
                    bet_in_range(bet as int),
                    n == round.seats()[a as int].hands.len(),
                    h <= n,
                    running == self.score_after(a as int, h as int),
                    forall|k: int|
                        0 <= k <= h ==> i32::MIN <= #[trigger] self.score_after(a as int, k)
                            <= i32::MAX,
                    forall|k: int|
                        #![trigger round.seats()[a as int].hands[k]]
                        0 <= k < h ==> is_terminal(round.seats()[a as int].hands[k].state),
                decreases n - h,
            {
                proof {
                    assert(round.seats()[a as int] == round.actors@[a as int]@);
                    assert(round.seats()[a as int].hands[h as int]
                        == round.actors@[a as int].hands@[h as int]@);
                }
                if round.actors[a].hands[h].state == HandState::Undefined {
                    proof {
                        assert(!is_terminal(round.seats()[a as int].hands[h as int].state));
                    }
                    return false;
                }
                let result = calculate_hand_result(&round.actors[a].hands[h], dealer_hand);
                let coins = payout(result, bet);
                running = running + coins as i64;
                proof {
                    let hands = round.seats()[a as int].hands;
                    assert(hands.take(h + 1).drop_last() =~= hands.take(h as int));
                    assert(running == self.score_after(a as int, h + 1));
                }
                if running < -2147483648 || running > 2147483647 {
                    return false;
                }
                h = h + 1;
            }
            proof {
                assert(self.seat_judgeable(a as int));
            }
            a = a + 1;
        }
        proof {
            let r = self.current_round;
            assert forall|j: int, h: int|
                0 <= j < r.dealer_seat() && 0 <= h < r.seats()[j].hands.len() implies is_terminal(
                #[trigger] r.seats()[j].hands[h].state,
            ) by {
                assert(self.seat_judgeable(j));
            }
            assert forall|j: int| 0 <= j < r.dealer_seat() implies {
                &&& bet_in_range(r.actor_bets@[j] as int)
                &&& forall|k: int|
                    0 <= k <= r.seats()[j].hands.len() ==> i32::MIN <= #[trigger] self.score_after(
                        j,
                        k,
                    ) <= i32::MAX
            } by {
                assert(self.seat_judgeable(j));
            }
        }
        true
    }
}

} // verus!

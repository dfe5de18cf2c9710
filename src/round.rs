use vstd::prelude::*;

use crate::actor::{Actor, ActorRole, ActorView};
use crate::cards::{Card, Deck};
use crate::hand::{
    hand_total, is_terminal, lemma_hole_card_keeps_wf, open_hand, with_hole_card, Hand,
    HandState, HandView,
};

verus! {

/// A decision for an open player hand.
#[derive(Clone, Copy, PartialEq, Eq, Debug, Structural)]
pub enum UserAction {
    Hit,
    Stay,
    Split,
}

/// One hand of play: the deck, the seats (players first, dealer last), each
/// player's bet, and whose turn it is.
pub struct Round {
    pub deck: Deck,
    pub actors: Vec<Actor>,
    pub actor_bets: Vec<i32>,
    pub actor_cursor: usize,
    pub hand_cursor: usize,
}

/// A seat has at least one hand, the role that its place gives it, and a
/// single hand if it is the dealer's.
pub open spec fn seat_shape(s: ActorView, is_dealer: bool) -> bool {
    &&& s.hands.len() >= 1
    &&& s.role == if is_dealer {
        ActorRole::Dealer
    } else {
        ActorRole::Player
    }
    &&& is_dealer ==> s.hands.len() == 1
}

/// A seat is sound: its shape is right and every hand is sound.
pub open spec fn seat_ok(s: ActorView, is_dealer: bool) -> bool {
    &&& seat_shape(s, is_dealer)
    &&& forall|h: int| 0 <= h < s.hands.len() ==> (#[trigger] s.hands[h]).wf()
}

/// The hand that the initial deal gives seat `a` of `n` from `deck`: cards
/// `a` and `n + a`, the dealer's second one face down.
pub open spec fn dealt_hand(deck: Seq<Card>, n: int, a: int) -> HandView {
    let h = open_hand(seq![deck[a], deck[n + a]]);
    if a == n - 1 {
        with_hole_card(h, false)
    } else {
        h
    }
}

/// `(a, h)` comes strictly before `(a2, h2)` in turn order: seats in order,
/// and within a seat its hands in order.
pub open spec fn turn_before(a: int, h: int, a2: int, h2: int) -> bool {
    a < a2 || (a == a2 && h < h2)
}

/// What the dealer does with its hand.
#[derive(Clone, Copy, PartialEq, Eq, Debug, Structural)]
pub enum DealerAction {
    Hit,
    Stand,
    Done,
}

/// The dealer's fixed policy: nothing on a closed hand, a hit below 17, and a
/// stand from 17 on.
pub open spec fn dealer_policy(h: HandView) -> DealerAction {
    if h.state != HandState::Undefined {
        DealerAction::Done
    } else if h.sum < 17 {
        DealerAction::Hit
    } else {
        DealerAction::Stand
    }
}

/// The dealer's hand after `m`, with `deck` the cards on top.
pub open spec fn dealer_after(h: HandView, m: DealerAction, deck: Seq<Card>) -> HandView {
    match m {
        DealerAction::Hit => open_hand(h.cards.push(deck[0])),
        DealerAction::Stand => HandView { state: HandState::Finished, ..h },
        DealerAction::Done => h,
    }
}

/// The dealer's cards once it has drawn from the top of `deck` while its
/// total is below 17.
pub open spec fn dealer_draw(cards: Seq<Card>, deck: Seq<Card>) -> Seq<Card>
    decreases deck.len(),
{
    if hand_total(cards) >= 17 || deck.len() == 0 {
        cards
    } else {
        dealer_draw(cards.push(deck[0]), deck.skip(1))
    }
}

/// The dealer's closed hand holding `cards`: over 21 is a bust, 21 a
/// blackjack, anything else a stand.
pub open spec fn dealer_outcome(cards: Seq<Card>) -> HandView {
    let t = hand_total(cards);
    HandView {
        cards,
        sum: t,
        state: if t > 21 {
            HandState::Bust
        } else if t == 21 {
            HandState::Blackjack
        } else {
            HandState::Finished
        },
    }
}

/// The dealer's policy leaves it no choice: on a hand it has not stood on, it
/// hits below 17, stands from 17 to 20, and does nothing from 21 on, where
/// the hand is already closed.
pub proof fn law_dealer_policy(h: HandView)
    requires
        h.wf(),
        h.state != HandState::Finished,
    ensures
        h.sum < 17 ==> dealer_policy(h) == DealerAction::Hit,
        17 <= h.sum < 21 ==> dealer_policy(h) == DealerAction::Stand,
        h.sum >= 21 ==> dealer_policy(h) == DealerAction::Done,
{
}

/// After the initial deal from a deck of dealable cards, every seat of `n`
/// holds exactly two cards; the dealer's second card is face down and every
/// other card face up.
pub proof fn law_initial_deal(deck: Seq<Card>, n: int)
    requires
        n >= 1,
        deck.len() >= 2 * n,
        forall|i: int| 0 <= i < deck.len() ==> crate::cards::dealable(#[trigger] deck[i]),
    ensures
        forall|a: int| 0 <= a < n ==> (#[trigger] dealt_hand(deck, n, a)).cards.len() == 2,
        forall|a: int, k: int|
            0 <= a < n && 0 <= k < 2 ==> (#[trigger] dealt_hand(deck, n, a).cards[k]).revealed == !(
            a == n - 1 && k == 1),
{
    assert forall|a: int, k: int| 0 <= a < n && 0 <= k < 2 implies (#[trigger] dealt_hand(
        deck,
        n,
        a,
    ).cards[k]).revealed == !(a == n - 1 && k == 1) by {
        assert(crate::cards::dealable(deck[a]));
        assert(crate::cards::dealable(deck[n + a]));
    }
}

pub fn dealer_decision(hand: &Hand) -> (m: DealerAction)
    ensures
        m == dealer_policy(hand@),
{
    if hand.state != HandState::Undefined {
        DealerAction::Done
    } else if hand.sum < 17 {
        DealerAction::Hit
    } else {
        DealerAction::Stand
    }
}

/// How many cards an action takes from the deck.
pub open spec fn cards_taken(action: UserAction) -> int {
    match action {
        UserAction::Hit => 1,
        UserAction::Stay => 0,
        UserAction::Split => 2,
    }
}

/// A seat's hands after `action` on hand `h`, with `deck` the cards on top:
/// a hit adds the top card; a stay closes the hand as finished; a split keeps
/// the first card with the top card, and places the second card with the next
/// one in a new hand right after it.
pub open spec fn hands_after(
    hands: Seq<HandView>,
    h: int,
    action: UserAction,
    deck: Seq<Card>,
) -> Seq<HandView> {
    match action {
        UserAction::Hit => hands.update(h, open_hand(hands[h].cards.push(deck[0]))),
        UserAction::Stay => hands.update(h, HandView { state: HandState::Finished, ..hands[h] }),
        UserAction::Split => hands.update(h, open_hand(seq![hands[h].cards[0], deck[0]])).insert(
            h + 1,
            open_hand(seq![hands[h].cards[1], deck[1]]),
        ),
    }
}

/// Only seat `a` differs between the two rounds.
proof fn lemma_one_seat_changed(r0: Round, r1: Round, a: int)
    requires
        r0.actors@.len() == r1.actors@.len(),
        0 <= a < r0.actors@.len(),
        forall|j: int| 0 <= j < r0.actors@.len() && j != a ==> r1.actors@[j] == r0.actors@[j],
    ensures
        r1.seats() == r0.seats().update(a, r1.actors@[a]@),
{
    assert(r1.seats() =~= r0.seats().update(a, r1.actors@[a]@));
}

/// The view of a seat whose hand `h` was replaced by `x` and, if given,
/// followed by `y`.
proof fn lemma_hands_changed(a0: Actor, a1: Actor, h: int, x: Hand, y: Option<Hand>)
    requires
        0 <= h < a0.hands@.len(),
        a1.role == a0.role,
        a1.actor_idx == a0.actor_idx,
        a1.hands@ == match y {
            Some(y) => a0.hands@.update(h, x).insert(h + 1, y),
            None => a0.hands@.update(h, x),
        },
    ensures
        a1@ == with_hands(
            a0@,
            match y {
                Some(y) => a0@.hands.update(h, x@).insert(h + 1, y@),
                None => a0@.hands.update(h, x@),
            },
        ),
{
    match y {
        Some(y) => {
            assert(a1@.hands =~= a0@.hands.update(h, x@).insert(h + 1, y@));
        },
        None => {
            assert(a1@.hands =~= a0@.hands.update(h, x@));
        },
    }
}

/// The seat `s` with its hands replaced.
pub open spec fn with_hands(s: ActorView, hands: Seq<HandView>) -> ActorView {
    ActorView { hands, ..s }
}

impl Round {
    pub open spec fn seats(&self) -> Seq<ActorView> {
        self.actors@.map_values(|a: Actor| a@)
    }

    pub open spec fn dealer_seat(&self) -> int {
        self.actors@.len() - 1
    }

    pub open spec fn dealer_view(&self) -> HandView {
        self.seats()[self.dealer_seat()].hands[0]
    }

    pub open spec fn wf(&self) -> bool {
        &&& self.actors@.len() >= 1
        &&& self.actor_bets@.len() + 1 == self.actors@.len()
        &&& self.deck.wf()
        &&& forall|a: int|
            0 <= a < self.actors@.len() ==> seat_ok(
                #[trigger] self.seats()[a],
                a == self.actors@.len() - 1,
            )
        &&& self.actor_cursor < self.actors@.len()
        &&& self.hand_cursor <= self.seats()[self.actor_cursor as int].hands.len()
    }

    /// Player `a`'s hand `h` exists and waits for a decision.
    pub open spec fn open_at(&self, a: int, h: int) -> bool {
        &&& 0 <= a < self.dealer_seat()
        &&& 0 <= h < self.seats()[a].hands.len()
        &&& self.seats()[a].hands[h].state == HandState::Undefined
    }

    /// The hand under the cursor waits for a decision.
    pub open spec fn awaiting_decision(&self) -> bool {
        self.open_at(self.actor_cursor as int, self.hand_cursor as int)
    }

    /// The hand under the cursor.
    pub open spec fn current_hand(&self) -> HandView {
        self.seats()[self.actor_cursor as int].hands[self.hand_cursor as int]
    }

    /// Sound but for totals that may be out of date (after cards were changed
    /// in place).
    pub open spec fn resyncable(&self) -> bool {
        &&& self.actors@.len() >= 1
        &&& self.actor_bets@.len() + 1 == self.actors@.len()
        &&& self.deck.wf()
        &&& forall|a: int|
            0 <= a < self.actors@.len() ==> seat_shape(
                #[trigger] self.seats()[a],
                a == self.actors@.len() - 1,
            )
        &&& forall|a: int, h: int|
            #![trigger self.seats()[a].hands[h]]
            0 <= a < self.actors@.len() && 0 <= h < self.seats()[a].hands.len()
                ==> crate::hand::resyncable(self.seats()[a].hands[h])
        &&& self.actor_cursor < self.actors@.len()
        &&& self.hand_cursor <= self.seats()[self.actor_cursor as int].hands.len()
    }

    /// Before the deal: one empty, open hand per seat.
    pub open spec fn undealt(&self) -> bool {
        forall|a: int|
            0 <= a < self.actors@.len() ==> (#[trigger] self.seats()[a]).hands == seq![
                open_hand(Seq::empty()),
            ]
    }

    /// A round with `number_of_user_players` players and the dealer, each
    /// holding one empty hand, every player betting `bet`, dealt from `deck`.
    pub fn with_deck(deck: Deck, number_of_user_players: usize, bet: i32) -> (r: Round)
        requires
            deck.wf(),
            number_of_user_players < usize::MAX,
        ensures
            r.wf(),
            r.undealt(),
            r.deck == deck,
            r.actors@.len() == number_of_user_players + 1,
            forall|a: int| 0 <= a < r.actors@.len() ==> (#[trigger] r.seats()[a]).actor_idx == a,
            r.actor_bets@ == Seq::new(number_of_user_players as nat, |i: int| bet),
            r.actor_cursor == 0,
            r.hand_cursor == 0,
    {
        let mut actors: Vec<Actor> = Vec::new();
        let mut actor_bets: Vec<i32> = Vec::new();
        let mut i: usize = 0;
        while i < number_of_user_players
            invariant
                i <= number_of_user_players,
                actors@.len() == i,
                actor_bets@ == Seq::new(i as nat, |j: int| bet),
                forall|a: int|
                    0 <= a < i ==> {
                        &&& (#[trigger] actors@[a])@.hands == seq![open_hand(Seq::empty())]
                        &&& actors@[a].role == ActorRole::Player
                        &&& actors@[a].actor_idx == a
                    },
            decreases number_of_user_players - i,
        {
            let actor = Actor::new(i, Hand::new());
            proof {
                assert(actor@.hands =~= seq![open_hand(Seq::empty())]);
            }
            actors.push(actor);
            actor_bets.push(bet);
            assert(actor_bets@ =~= Seq::new((i + 1) as nat, |j: int| bet));
            i = i + 1;
        }
        let mut dealer = Actor::new(number_of_user_players, Hand::new());
        dealer.role = ActorRole::Dealer;
        proof {
            assert(dealer@.hands =~= seq![open_hand(Seq::empty())]);
        }
        actors.push(dealer);
        let r = Round { deck, actors, actor_bets, actor_cursor: 0, hand_cursor: 0 };
        proof {
            assert forall|a: int| 0 <= a < r.actors@.len() implies seat_ok(
                #[trigger] r.seats()[a],
                a == r.actors@.len() - 1,
            ) by {
                assert(r.seats()[a].hands[0] == open_hand(Seq::empty()));
            }
        }
        r
    }

    /// Recomputes the total of every hand from its cards, and the state of
    /// every hand that is still open.
    pub fn update(&mut self)
        requires
            old(self).resyncable(),
        ensures
            final(self).wf(),
            final(self).actors@.len() == old(self).actors@.len(),
            forall|a: int|
                0 <= a < old(self).actors@.len() ==> {
                    &&& (#[trigger] final(self).seats()[a]).role == old(self).seats()[a].role
                    &&& final(self).seats()[a].actor_idx == old(self).seats()[a].actor_idx
                    &&& final(self).seats()[a].hands.len() == old(self).seats()[a].hands.len()
                },
            forall|a: int, h: int|
                #![trigger final(self).seats()[a].hands[h]]
                0 <= a < old(self).actors@.len() && 0 <= h < old(self).seats()[a].hands.len()
                    ==> final(self).seats()[a].hands[h] == crate::hand::resynced(
                    old(self).seats()[a].hands[h],
                ),
            final(self).deck == old(self).deck,
            final(self).actor_bets@ == old(self).actor_bets@,
            final(self).actor_cursor == old(self).actor_cursor,
            final(self).hand_cursor == old(self).hand_cursor,
    {
        let n = self.actors.len();
        let ghost seats0 = self.seats();
        let mut a: usize = 0;
        while a < n
            invariant
                n == old(self).actors@.len() == self.actors@.len(),
                seats0 == old(self).seats(),
                old(self).resyncable(),
                a <= n,
                forall|j: int|
                    0 <= j < n ==> {
                        &&& (#[trigger] self.seats()[j]).role == seats0[j].role
                        &&& self.seats()[j].actor_idx == seats0[j].actor_idx
                        &&& self.seats()[j].hands.len() == seats0[j].hands.len()
                    },
                forall|j: int, h: int|
                    #![trigger self.seats()[j].hands[h]]
                    0 <= j < n && 0 <= h < seats0[j].hands.len() ==> self.seats()[j].hands[h] == if j
                        < a {
                        crate::hand::resynced(seats0[j].hands[h])
                    } else {
                        seats0[j].hands[h]
                    },
                self.deck == old(self).deck,
                self.actor_bets@ == old(self).actor_bets@,
                self.actor_cursor == old(self).actor_cursor,
                self.hand_cursor == old(self).hand_cursor,
            decreases n - a,
        {
            proof {
                assert(self.seats()[a as int] == self.actors@[a as int]@);
            }
            let m = self.actors[a].hands.len();
            let mut h: usize = 0;
            while h < m
                invariant
                    n == old(self).actors@.len() == self.actors@.len(),
                    seats0 == old(self).seats(),
                    old(self).resyncable(),
                    a < n,
                    m == seats0[a as int].hands.len(),
                    h <= m,
                    forall|j: int|
                        0 <= j < n ==> {
                            &&& (#[trigger] self.seats()[j]).role == seats0[j].role
                            &&& self.seats()[j].actor_idx == seats0[j].actor_idx
                            &&& self.seats()[j].hands.len() == seats0[j].hands.len()
                        },
                    forall|j: int, k: int|
                        #![trigger self.seats()[j].hands[k]]
                        0 <= j < n && 0 <= k < seats0[j].hands.len() ==> self.seats()[j].hands[k]
                            == if j < a || (j == a && k < h) {
                            crate::hand::resynced(seats0[j].hands[k])
                        } else {
                            seats0[j].hands[k]
                        },
                    self.deck == old(self).deck,
                    self.actor_bets@ == old(self).actor_bets@,
                    self.actor_cursor == old(self).actor_cursor,
                    self.hand_cursor == old(self).hand_cursor,
                decreases m - h,
            {
                let ghost before = *self;
                let ghost actor0 = self.actors@[a as int];
                proof {
                    assert(before.seats()[a as int] == actor0@);
                    assert(actor0@.hands[h as int] == actor0.hands@[h as int]@);
                    assert(before.seats()[a as int].hands[h as int] == seats0[a as int].hands[h as int]);
                    assert(seats0[a as int].hands[h as int] == old(self).seats()[a as int].hands[h as int]);
                }
                self.actors[a].hands[h].update_state();
                proof {
                    let x = self.actors@[a as int].hands@[h as int];
                    lemma_hands_changed(actor0, self.actors@[a as int], h as int, x, None);
                    lemma_one_seat_changed(before, *self, a as int);
                    assert forall|j: int, k: int|
                        0 <= j < n && 0 <= k < seats0[j].hands.len() implies #[trigger] self.seats()[j].hands[k]
                        == if j < a || (j == a && k < h + 1) {
                        crate::hand::resynced(seats0[j].hands[k])
                    } else {
                        seats0[j].hands[k]
                    } by {
                        assert(before.seats()[j].hands[k] == if j < a || (j == a && k < h) {
                            crate::hand::resynced(seats0[j].hands[k])
                        } else {
                            seats0[j].hands[k]
                        });
                    }
                    assert forall|j: int| 0 <= j < n implies {
                        &&& (#[trigger] self.seats()[j]).role == seats0[j].role
                        &&& self.seats()[j].actor_idx == seats0[j].actor_idx
                        &&& self.seats()[j].hands.len() == seats0[j].hands.len()
                    } by {
                        assert(before.seats()[j].role == seats0[j].role);
                    }
                }
                h = h + 1;
            }
            a = a + 1;
        }
        proof {
            assert forall|j: int| 0 <= j < n implies seat_ok(
                #[trigger] self.seats()[j],
                j == n - 1,
            ) by {
                assert(seat_shape(seats0[j], j == n - 1));
                assert forall|k: int| 0 <= k < self.seats()[j].hands.len() implies (
                #[trigger] self.seats()[j].hands[k]).wf() by {
                    assert(crate::hand::resyncable(seats0[j].hands[k]));
                }
            }
        }
    }

    /// Deals two cards to every seat from the front of the deck, round-robin:
    /// a first card to each seat in order, then a second card to each.
    pub fn deal_initial_cards(&mut self)
        requires
            old(self).wf(),
            old(self).undealt(),
            old(self).deck.cards@.len() >= 2 * old(self).actors@.len(),
        ensures
            final(self).wf(),
            final(self).actors@.len() == old(self).actors@.len(),
            forall|a: int|
                0 <= a < old(self).actors@.len() ==> #[trigger] final(self).seats()[a]
                    == with_hands(
                    old(self).seats()[a],
                    seq![
                        open_hand(
                            seq![
                                old(self).deck.cards@[a],
                                old(self).deck.cards@[old(self).actors@.len() + a],
                            ],
                        ),
                    ],
                ),
            final(self).deck.cards@ == old(self).deck.cards@.skip(2 * old(self).actors@.len() as int),
            final(self).actor_bets@ == old(self).actor_bets@,
            final(self).actor_cursor == old(self).actor_cursor,
            final(self).hand_cursor == old(self).hand_cursor,
    {
        let n = self.actors.len();
        let ghost deck0 = self.deck.cards@;
        let ghost seats0 = self.seats();
        let mut i: usize = 0;
        while i < n
            invariant
                n == old(self).actors@.len() == self.actors@.len(),
                i <= n,
                deck0 == old(self).deck.cards@,
                seats0 == old(self).seats(),
                deck0.len() >= 2 * n,
                self.deck.wf(),
                self.deck.cards@ == deck0.skip(i as int),
                self.actor_bets@ == old(self).actor_bets@,
                self.actor_cursor == old(self).actor_cursor,
                self.hand_cursor == old(self).hand_cursor,
                forall|a: int|
                    0 <= a < n ==> #[trigger] self.seats()[a] == if a < i {
                        with_hands(seats0[a], seq![open_hand(seq![deck0[a]])])
                    } else {
                        seats0[a]
                    },
                old(self).wf(),
                old(self).undealt(),
            decreases n - i,
        {
            let ghost before = self.seats();
            let ghost before_actors = self.actors@;
            proof {
                assert(before[i as int] == seats0[i as int]);
                assert(seats0[i as int] == old(self).seats()[i as int]);
                assert(seats0[i as int].hands == seq![open_hand(Seq::<Card>::empty())]);
            }
            let card = self.deck.draw_card();
            proof {
                assert(self.actors@ == before_actors);
                assert(before[i as int] == self.actors@[i as int]@);
                assert(self.actors@[i as int]@.hands.len() == 1);
                assert(self.actors@[i as int].hands@.len() == 1);
                assert(self.actors@[i as int]@.hands[0] == self.actors@[i as int].hands@[0]@);
                assert(self.actors@[i as int].hands@[0]@ == open_hand(Seq::empty()));
            }
            self.actors[i].hands[0].deal_card(card);
            proof {
                assert(card == deck0[i as int]);
                assert(self.deck.cards@ =~= deck0.skip(i + 1));
                assert(Seq::<Card>::empty().push(card) =~= seq![card]);
                assert(self.seats()[i as int] == self.actors@[i as int]@);
                assert(self.actors@[i as int]@.hands =~= seq![open_hand(seq![card])]);
                assert forall|a: int| 0 <= a < n implies #[trigger] self.seats()[a] == if a < i + 1 {
                    with_hands(seats0[a], seq![open_hand(seq![deck0[a]])])
                } else {
                    seats0[a]
                } by {
                    assert(self.seats()[a] == self.actors@[a]@);
                    if a != i {
                        assert(before[a] == before_actors[a]@);
                        assert(self.actors@[a] == before_actors[a]);
                    }
                }
            }
            i = i + 1;
        }
        let mut i: usize = 0;
        while i < n
            invariant
                n == old(self).actors@.len() == self.actors@.len(),
                i <= n,
                deck0 == old(self).deck.cards@,
                seats0 == old(self).seats(),
                deck0.len() >= 2 * n,
                self.deck.wf(),
                self.deck.cards@ == deck0.skip(n + i),
                self.actor_bets@ == old(self).actor_bets@,
                self.actor_cursor == old(self).actor_cursor,
                self.hand_cursor == old(self).hand_cursor,
                forall|a: int|
                    0 <= a < n ==> #[trigger] self.seats()[a] == if a < i {
                        with_hands(seats0[a], seq![open_hand(seq![deck0[a], deck0[n + a]])])
                    } else {
                        with_hands(seats0[a], seq![open_hand(seq![deck0[a]])])
                    },
                old(self).wf(),
                old(self).undealt(),
            decreases n - i,
        {
            let ghost before = self.seats();
            let ghost before_actors = self.actors@;
            proof {
                assert(before[i as int] == with_hands(seats0[i as int], seq![open_hand(seq![deck0[i as int]])]));
            }
            let card = self.deck.draw_card();
            proof {
                let first = deck0[i as int];
                assert(self.actors@ == before_actors);
                assert(before[i as int] == self.actors@[i as int]@);
                assert(self.actors@[i as int]@.hands.len() == 1);
                assert(self.actors@[i as int].hands@.len() == 1);
                assert(self.actors@[i as int]@.hands[0] == self.actors@[i as int].hands@[0]@);
                assert(self.actors@[i as int].hands@[0]@ == open_hand(seq![first]));
                assert(old(self).deck.wf());
                assert(crate::cards::dealable(deck0[i as int]));
                crate::hand::lemma_total_at_least_len(seq![first]);
            }
            self.actors[i].hands[0].deal_card(card);
            proof {
                assert(card == deck0[n + i]);
                assert(self.deck.cards@ =~= deck0.skip(n + i + 1));
                assert(seq![deck0[i as int]].push(card) =~= seq![deck0[i as int], deck0[n + i]]);
                assert(self.seats()[i as int] == self.actors@[i as int]@);
                assert(self.actors@[i as int]@.hands =~= seq![
                    open_hand(seq![deck0[i as int], deck0[n + i]]),
                ]);
                assert forall|a: int| 0 <= a < n implies #[trigger] self.seats()[a] == if a < i + 1 {
                    with_hands(seats0[a], seq![open_hand(seq![deck0[a], deck0[n + a]])])
                } else {
                    with_hands(seats0[a], seq![open_hand(seq![deck0[a]])])
                } by {
                    assert(self.seats()[a] == self.actors@[a]@);
                    if a != i {
                        assert(before[a] == before_actors[a]@);
                        assert(self.actors@[a] == before_actors[a]);
                    }
                }
            }
            i = i + 1;
        }
        proof {
            assert forall|a: int| 0 <= a < n implies seat_ok(
                #[trigger] self.seats()[a],
                a == n - 1,
            ) by {
                let cards = seq![deck0[a], deck0[n + a]];
                assert(old(self).deck.wf());
                assert(crate::cards::dealable(deck0[a]));
                assert(crate::cards::dealable(deck0[n + a]));
                crate::hand::lemma_total_at_least_len(cards);
            }
        }
    }

    /// Marks the last seat as the dealer's and turns its second card face down.
    pub fn setup_dealer(&mut self)
        requires
            old(self).wf(),
            old(self).dealer_view().cards.len() >= 2,
        ensures
            final(self).wf(),
            final(self).seats() == old(self).seats().update(
                old(self).dealer_seat(),
                with_hands(
                    old(self).seats()[old(self).dealer_seat()],
                    seq![with_hole_card(old(self).dealer_view(), false)],
                ),
            ),
            final(self).deck == old(self).deck,
            final(self).actor_bets@ == old(self).actor_bets@,
            final(self).actor_cursor == old(self).actor_cursor,
            final(self).hand_cursor == old(self).hand_cursor,
    {
        let d = self.actors.len() - 1;
        let ghost seats0 = self.seats();
        let ghost actors0 = self.actors@;
        proof {
            assert(seats0[d as int] == actors0[d as int]@);
            assert(actors0[d as int]@.hands[0] == actors0[d as int].hands@[0]@);
            assert(seat_ok(seats0[d as int], true));
            lemma_hole_card_keeps_wf(self.dealer_view(), false);
        }
        self.actors[d].role = ActorRole::Dealer;
        self.actors[d].hands[0].cards[1].unreveal();
        proof {
            let target = seats0.update(
                d as int,
                with_hands(seats0[d as int], seq![with_hole_card(seats0[d as int].hands[0], false)]),
            );
            assert(self.actors@[d as int].hands@[0].cards@ =~= actors0[d as int].hands@[0].cards@.update(
                1,
                Card { revealed: false, ..actors0[d as int].hands@[0].cards@[1] },
            ));
            assert(self.actors@[d as int]@.hands =~= seq![with_hole_card(seats0[d as int].hands[0], false)]);
            assert forall|a: int| 0 <= a < seats0.len() implies #[trigger] self.seats()[a] == target[a] by {
                assert(self.seats()[a] == self.actors@[a]@);
                if a != d {
                    assert(self.actors@[a] == actors0[a]);
                }
            }
            assert(self.seats() =~= target);
            assert forall|a: int| 0 <= a < self.actors@.len() implies seat_ok(
                #[trigger] self.seats()[a],
                a == self.actors@.len() - 1,
            ) by {
                if a != d {
                    assert(seats0[a] == old(self).seats()[a]);
                }
            }
        }
    }

    /// The initial deal: two cards to every seat round-robin, then the
    /// dealer's second card turned face down.
    pub fn deal_cards(&mut self)
        requires
            old(self).wf(),
            old(self).undealt(),
            old(self).deck.cards@.len() >= 2 * old(self).actors@.len(),
        ensures
            final(self).wf(),
            final(self).actors@.len() == old(self).actors@.len(),
            forall|a: int|
                0 <= a < old(self).actors@.len() ==> #[trigger] final(self).seats()[a]
                    == with_hands(
                    old(self).seats()[a],
                    seq![dealt_hand(old(self).deck.cards@, old(self).actors@.len() as int, a)],
                ),
            final(self).deck.cards@ == old(self).deck.cards@.skip(2 * old(self).actors@.len() as int),
            final(self).actor_bets@ == old(self).actor_bets@,
            final(self).actor_cursor == old(self).actor_cursor,
            final(self).hand_cursor == old(self).hand_cursor,
    {
        self.deal_initial_cards();
        let ghost mid = self.seats();
        proof {
            let d = self.dealer_seat();
            assert(mid[d] == with_hands(
                old(self).seats()[d],
                seq![open_hand(seq![old(self).deck.cards@[d], old(self).deck.cards@[d + 1 + d]])],
            ));
        }
        self.setup_dealer();
        proof {
            let n = old(self).actors@.len() as int;
            assert forall|a: int| 0 <= a < n implies #[trigger] self.seats()[a] == with_hands(
                old(self).seats()[a],
                seq![dealt_hand(old(self).deck.cards@, n, a)],
            ) by {
                assert(mid[a] == with_hands(
                    old(self).seats()[a],
                    seq![open_hand(seq![old(self).deck.cards@[a], old(self).deck.cards@[n + a]])],
                ));
            }
        }
    }

    pub fn dealer(&self) -> (d: &Actor)
        requires
            self.actors@.len() >= 1,
        ensures
            *d == self.actors@[self.dealer_seat()],
    {
        &self.actors[self.actors.len() - 1]
    }

    pub fn dealer_hand(&self) -> (h: &Hand)
        requires
            self.wf(),
        ensures
            h@ == self.dealer_view(),
    {
        proof {
            assert(seat_ok(self.seats()[self.dealer_seat()], true));
        }
        self.dealer().hand_at(0)
    }

    /// Moves the cursor forward, in turn order, past every closed player hand,
    /// to the next hand that waits for a decision. Returns whether there is
    /// one; if not, the cursor stands at the dealer's seat.
    pub fn advance_turn(&mut self) -> (r: bool)
        requires
            old(self).wf(),
        ensures
            final(self).wf(),
            final(self).actors@ == old(self).actors@,
            final(self).deck == old(self).deck,
            final(self).actor_bets@ == old(self).actor_bets@,
            r == final(self).awaiting_decision(),
            !r ==> final(self).actor_cursor == final(self).dealer_seat(),
            !turn_before(
                final(self).actor_cursor as int,
                final(self).hand_cursor as int,
                old(self).actor_cursor as int,
                old(self).hand_cursor as int,
            ),
            forall|a: int, h: int|
                #![trigger old(self).seats()[a].hands[h]]
                0 <= a < old(self).dealer_seat() && 0 <= h < old(self).seats()[a].hands.len()
                    && !turn_before(
                    a,
                    h,
                    old(self).actor_cursor as int,
                    old(self).hand_cursor as int,
                ) && turn_before(
                    a,
                    h,
                    final(self).actor_cursor as int,
                    final(self).hand_cursor as int,
                ) ==> is_terminal(old(self).seats()[a].hands[h].state),
    {
        let d = self.actors.len() - 1;
        while self.actor_cursor < d
            invariant
                d == old(self).dealer_seat(),
                self.wf(),
                self.actors@ == old(self).actors@,
                self.deck == old(self).deck,
                self.actor_bets@ == old(self).actor_bets@,
                !turn_before(
                    self.actor_cursor as int,
                    self.hand_cursor as int,
                    old(self).actor_cursor as int,
                    old(self).hand_cursor as int,
                ),
                forall|a: int, h: int|
                    #![trigger old(self).seats()[a].hands[h]]
                    0 <= a < d && 0 <= h < old(self).seats()[a].hands.len() && !turn_before(
                        a,
                        h,
                        old(self).actor_cursor as int,
                        old(self).hand_cursor as int,
                    ) && turn_before(a, h, self.actor_cursor as int, self.hand_cursor as int)
                        ==> is_terminal(old(self).seats()[a].hands[h].state),
            decreases d - self.actor_cursor, self.seats()[self.actor_cursor as int].hands.len()
                - self.hand_cursor,
        {
            let ac = self.actor_cursor;
            let hc = self.hand_cursor;
            proof {
                assert(self.seats()[ac as int] == self.actors@[ac as int]@);
            }
            if hc >= self.actors[ac].hands.len() {
                self.actor_cursor = ac + 1;
                self.hand_cursor = 0;
            } else {
                proof {
                    assert(self.actors@[ac as int]@.hands[hc as int] == self.actors@[ac as int].hands@[hc as int]@);
                }
                if self.actors[ac].hands[hc].state == HandState::Undefined {
                    return true;
                }
                self.hand_cursor = hc + 1;
            }
        }
        false
    }

    /// Applies a player's decision to the hand under the cursor. A hit or a
    /// split draws from the front of the deck; a stay closes the hand and moves
    /// the cursor to the next hand. After a split the cursor stays, so the
    /// first of the two hands is played next.
    pub fn apply_action(&mut self, action: UserAction)
        requires
            old(self).wf(),
            old(self).awaiting_decision(),
            old(self).deck.cards@.len() >= cards_taken(action),
            action == UserAction::Split ==> old(self).current_hand().splittable(),
        ensures
            final(self).wf(),
            final(self).actors@.len() == old(self).actors@.len(),
            final(self).seats() == old(self).seats().update(
                old(self).actor_cursor as int,
                with_hands(
                    old(self).seats()[old(self).actor_cursor as int],
                    hands_after(
                        old(self).seats()[old(self).actor_cursor as int].hands,
                        old(self).hand_cursor as int,
                        action,
                        old(self).deck.cards@,
                    ),
                ),
            ),
            final(self).deck.cards@ == old(self).deck.cards@.skip(cards_taken(action)),
            final(self).actor_bets@ == old(self).actor_bets@,
            final(self).actor_cursor == old(self).actor_cursor,
            final(self).hand_cursor == old(self).hand_cursor + if action == UserAction::Stay {
                1int
            } else {
                0int
            },
    {
        let ac = self.actor_cursor;
        let hc = self.hand_cursor;
        let ghost deck0 = self.deck.cards@;
        let ghost actor0 = self.actors@[ac as int];
        proof {
            assert(self.seats()[ac as int] == actor0@);
            assert(actor0@.hands[hc as int] == actor0.hands@[hc as int]@);
            assert(seat_ok(self.seats()[ac as int], false));
            assert(actor0.hands.len() == actor0.hands@.len());
        }
        match action {
            UserAction::Hit => {
                let card = self.deck.draw_card();
                self.actors[ac].hands[hc].deal_card(card);
                proof {
                    assert(self.deck.cards@ =~= deck0.skip(1));
                    lemma_hands_changed(actor0, self.actors@[ac as int], hc as int, self.actors@[ac as int].hands@[hc as int], None);
                }
            },
            UserAction::Stay => {
                self.actors[ac].hands[hc].state = HandState::Finished;
                self.hand_cursor = hc + 1;
                proof {
                    assert(self.deck.cards@ =~= deck0.skip(0));
                    lemma_hands_changed(actor0, self.actors@[ac as int], hc as int, self.actors@[ac as int].hands@[hc as int], None);
                }
            },
            UserAction::Split => {
                let first = self.deck.draw_card();
                let second = self.deck.draw_card();
                let new_hand = self.actors[ac].hands[hc].split(first, second);
                let ghost split_hand = self.actors@[ac as int].hands@[hc as int];
                self.actors[ac].hands.insert(hc + 1, new_hand);
                proof {
                    assert(self.deck.cards@ =~= deck0.skip(2));
                    assert(self.actors@[ac as int].hands@ == actor0.hands@.update(hc as int, split_hand).insert(hc + 1, new_hand));
                    lemma_hands_changed(actor0, self.actors@[ac as int], hc as int, split_hand, Some(new_hand));
                }
            },
        }
        proof {
            lemma_one_seat_changed(*old(self), *self, ac as int);
            let hands1 = self.seats()[ac as int].hands;
            assert forall|h: int| 0 <= h < hands1.len() implies (#[trigger] hands1[h]).wf() by {
                let hands0 = old(self).seats()[ac as int].hands;
                if action == UserAction::Split && h > hc + 1 {
                    assert(hands1[h] == hands0[h - 1]);
                }
            }
            assert forall|a: int| 0 <= a < self.actors@.len() implies seat_ok(
                #[trigger] self.seats()[a],
                a == self.actors@.len() - 1,
            ) by {
                if a != ac {
                    assert(self.seats()[a] == old(self).seats()[a]);
                }
            }
        }
    }

    /// Turns the dealer's second card face up.
    pub fn reveal_hole_card(&mut self)
        requires
            old(self).wf(),
            old(self).dealer_view().cards.len() >= 2,
        ensures
            final(self).wf(),
            final(self).seats() == old(self).seats().update(
                old(self).dealer_seat(),
                with_hands(
                    old(self).seats()[old(self).dealer_seat()],
                    seq![with_hole_card(old(self).dealer_view(), true)],
                ),
            ),
            final(self).deck == old(self).deck,
            final(self).actor_bets@ == old(self).actor_bets@,
            final(self).actor_cursor == old(self).actor_cursor,
            final(self).hand_cursor == old(self).hand_cursor,
    {
        let d = self.actors.len() - 1;
        let ghost actor0 = self.actors@[d as int];
        proof {
            assert(self.seats()[d as int] == actor0@);
            assert(actor0@.hands[0] == actor0.hands@[0]@);
            assert(seat_ok(self.seats()[d as int], true));
            lemma_hole_card_keeps_wf(self.dealer_view(), true);
        }
        self.actors[d].hands[0].cards[1].turn_face_up();
        proof {
            let h1 = self.actors@[d as int].hands@[0];
            assert(h1.cards@ =~= actor0.hands@[0].cards@.update(
                1,
                Card { revealed: true, ..actor0.hands@[0].cards@[1] },
            ));
            assert(h1@ == with_hole_card(actor0.hands@[0]@, true));
            lemma_hands_changed(actor0, self.actors@[d as int], 0, h1, None);
            lemma_one_seat_changed(*old(self), *self, d as int);
            assert(actor0@.hands.update(0, h1@) =~= seq![h1@]);
            assert forall|a: int| 0 <= a < self.actors@.len() implies seat_ok(
                #[trigger] self.seats()[a],
                a == self.actors@.len() - 1,
            ) by {
                if a != d {
                    assert(self.seats()[a] == old(self).seats()[a]);
                }
            }
        }
    }

    /// One move of the dealer under its fixed policy.
    pub fn dealer_step(&mut self) -> (m: DealerAction)
        requires
            old(self).wf(),
            dealer_policy(old(self).dealer_view()) == DealerAction::Hit ==> old(
                self,
            ).deck.cards@.len() >= 1,
        ensures
            m == dealer_policy(old(self).dealer_view()),
            final(self).wf(),
            final(self).seats() == old(self).seats().update(
                old(self).dealer_seat(),
                with_hands(
                    old(self).seats()[old(self).dealer_seat()],
                    seq![dealer_after(old(self).dealer_view(), m, old(self).deck.cards@)],
                ),
            ),
            final(self).deck.cards@ == old(self).deck.cards@.skip(
                if m == DealerAction::Hit {
                    1int
                } else {
                    0int
                },
            ),
            final(self).actor_bets@ == old(self).actor_bets@,
            final(self).actor_cursor == old(self).actor_cursor,
            final(self).hand_cursor == old(self).hand_cursor,
    {
        let d = self.actors.len() - 1;
        let ghost actor0 = self.actors@[d as int];
        let ghost deck0 = self.deck.cards@;
        proof {
            assert(self.seats()[d as int] == actor0@);
            assert(actor0@.hands[0] == actor0.hands@[0]@);
            assert(seat_ok(self.seats()[d as int], true));
        }
        let m = dealer_decision(&self.actors[d].hands[0]);
        match m {
            DealerAction::Hit => {
                let card = self.deck.draw_card();
                self.actors[d].hands[0].deal_card(card);
            },
            DealerAction::Stand => {
                self.actors[d].hands[0].state = HandState::Finished;
            },
            DealerAction::Done => {},
        }
        proof {
            let h1 = self.actors@[d as int].hands@[0];
            if m == DealerAction::Done {
                assert(self.actors@[d as int].hands@ =~= actor0.hands@.update(0, h1));
            }
            lemma_hands_changed(actor0, self.actors@[d as int], 0, h1, None);
            lemma_one_seat_changed(*old(self), *self, d as int);
            assert(actor0@.hands.update(0, h1@) =~= seq![h1@]);
            assert(self.deck.cards@ =~= deck0.skip(if m == DealerAction::Hit { 1int } else { 0int }));
            assert forall|a: int| 0 <= a < self.actors@.len() implies seat_ok(
                #[trigger] self.seats()[a],
                a == self.actors@.len() - 1,
            ) by {
                if a != d {
                    assert(self.seats()[a] == old(self).seats()[a]);
                }
            }
        }
        m
    }

    /// The dealer's turn: its second card is turned face up, then it draws
    /// while its total is below 17 and stands from 17 on.
    pub fn play(&mut self)
        requires
            old(self).wf(),
            old(self).dealer_view().cards.len() >= 2,
            old(self).dealer_view().state != HandState::Finished,
            old(self).deck.cards@.len() + old(self).dealer_view().cards.len() >= 17,
        ensures
            final(self).wf(),
            final(self).actors@.len() == old(self).actors@.len(),
            forall|a: int|
                0 <= a < old(self).dealer_seat() ==> #[trigger] final(self).seats()[a] == old(
                    self,
                ).seats()[a],
            final(self).seats()[final(self).dealer_seat()] == with_hands(
                old(self).seats()[old(self).dealer_seat()],
                seq![
                    dealer_outcome(
                        dealer_draw(
                            with_hole_card(old(self).dealer_view(), true).cards,
                            old(self).deck.cards@,
                        ),
                    ),
                ],
            ),
            final(self).deck.cards@ == old(self).deck.cards@.skip(
                final(self).dealer_view().cards.len() - old(self).dealer_view().cards.len(),
            ),
            final(self).actor_bets@ == old(self).actor_bets@,
            final(self).actor_cursor == old(self).actor_cursor,
            final(self).hand_cursor == old(self).hand_cursor,
    {
        let ghost d = old(self).dealer_seat();
        let ghost deck0 = old(self).deck.cards@;
        let ghost base = with_hole_card(old(self).dealer_view(), true).cards;
        let ghost target = dealer_draw(base, deck0);
        proof {
            assert(seat_ok(old(self).seats()[d], true));
            crate::hand::lemma_total_at_least_len(old(self).dealer_view().cards);
            crate::hand::lemma_hard_sum_bounds(base);
            crate::hand::lemma_hard_sum_bounds(old(self).dealer_view().cards);
        }
        self.reveal_hole_card();
        proof {
            assert(self.dealer_view() == with_hole_card(old(self).dealer_view(), true));
            assert(self.deck.cards@ =~= deck0.skip(0));
            lemma_hole_card_keeps_wf(old(self).dealer_view(), true);
        }
        loop
            invariant_except_break
                self.dealer_view() == open_hand(self.dealer_view().cards),
                dealer_draw(self.dealer_view().cards, self.deck.cards@) == target,
                self.deck.cards@.len() + crate::hand::hard_total(self.dealer_view().cards) >= 17,
            invariant
                d == self.dealer_seat(),
                self.wf(),
                self.actors@.len() == old(self).actors@.len(),
                forall|a: int| 0 <= a < d ==> #[trigger] self.seats()[a] == old(self).seats()[a],
                self.seats()[d].role == old(self).seats()[d].role,
                self.seats()[d].actor_idx == old(self).seats()[d].actor_idx,
                self.dealer_view().cards.len() >= base.len(),
                self.dealer_view().cards.len() - base.len() <= deck0.len(),
                self.deck.cards@ == deck0.skip(self.dealer_view().cards.len() - base.len()),
                self.actor_bets@ == old(self).actor_bets@,
                self.actor_cursor == old(self).actor_cursor,
                self.hand_cursor == old(self).hand_cursor,
            ensures
                self.wf(),
                self.actors@.len() == old(self).actors@.len(),
                forall|a: int| 0 <= a < d ==> #[trigger] self.seats()[a] == old(self).seats()[a],
                self.seats()[d].role == old(self).seats()[d].role,
                self.seats()[d].actor_idx == old(self).seats()[d].actor_idx,
                self.dealer_view() == dealer_outcome(target),
                self.deck.cards@ == deck0.skip(self.dealer_view().cards.len() - base.len()),
                self.actor_bets@ == old(self).actor_bets@,
                self.actor_cursor == old(self).actor_cursor,
                self.hand_cursor == old(self).hand_cursor,
            decreases self.deck.cards@.len(),
        {
            let ghost cur = self.dealer_view().cards;
            let ghost deck_now = self.deck.cards@;
            let ghost seats_now = self.seats();
            proof {
                crate::hand::lemma_demote_bounds(crate::hand::raw_sum(cur), crate::hand::ace_count(cur));
            }
            let m = self.dealer_step();
            proof {
                assert(self.seats()[d] == with_hands(seats_now[d], seq![dealer_after(open_hand(cur), m, deck_now)]));
                assert forall|a: int| 0 <= a < d implies #[trigger] self.seats()[a] == old(self).seats()[a] by {
                    assert(self.seats()[a] == seats_now[a]);
                }
                if m == DealerAction::Hit {
                    let c = deck_now[0];
                    assert(crate::cards::dealable(c));
                    crate::hand::lemma_hard_total_grows(cur, c);
                    assert(deck_now.skip(1) =~= deck0.skip(cur.len() + 1 - base.len()));
                    assert(self.dealer_view().cards == cur.push(c));
                } else {
                    assert(hand_total(cur) >= 17);
                    assert(target == cur);
                    assert(self.deck.cards@ =~= deck_now);
                }
            }
            if m != DealerAction::Hit {
                break;
            }
        }
        proof {
            assert(seat_ok(self.seats()[d], true));
            assert(self.seats()[d].hands =~= seq![self.dealer_view()]);
        }
    }
}

/// A shuffled deck and a round of `number_of_user_players` players and the
/// dealer, each player betting `bet`.
pub fn blackjack_round(number_of_user_players: usize, bet: i32) -> (r: Round)
    requires
        number_of_user_players < usize::MAX,
    ensures
        r.wf(),
        r.undealt(),
        r.deck.cards@.to_multiset() == crate::cards::fresh_cards().to_multiset(),
        r.deck.cards@.len() == crate::cards::DECK_SIZE,
        r.deck.cards@.no_duplicates(),
        r.actors@.len() == number_of_user_players + 1,
        forall|a: int| 0 <= a < r.actors@.len() ==> (#[trigger] r.seats()[a]).actor_idx == a,
        r.actor_bets@ == Seq::new(number_of_user_players as nat, |i: int| bet),
        r.actor_cursor == 0,
        r.hand_cursor == 0,
{
    Round::with_deck(Deck::new_shuffled(), number_of_user_players, bet)
}

} // verus!

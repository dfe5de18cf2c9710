use vstd::prelude::*;

use crate::cards::{Card, CardSymbol, DECK_SIZE};
use crate::text::{decimal, push_decimal};

verus! {

/// Blackjack points of a rank, with the ace counted high.
pub open spec fn card_points(s: CardSymbol) -> int {
    match s {
        CardSymbol::Ace => 11,
        CardSymbol::Two => 2,
        CardSymbol::Three => 3,
        CardSymbol::Four => 4,
        CardSymbol::Five => 5,
        CardSymbol::Six => 6,
        CardSymbol::Seven => 7,
        CardSymbol::Eight => 8,
        CardSymbol::Nine => 9,
        CardSymbol::Ten | CardSymbol::Jack | CardSymbol::Queen | CardSymbol::King => 10,
        CardSymbol::Joker => 0,
    }
}

/// Sum of the cards' points, every ace counted as 11.
pub open spec fn raw_sum(cards: Seq<Card>) -> int
    decreases cards.len(),
{
    if cards.len() == 0 {
        0
    } else {
        raw_sum(cards.drop_last()) + card_points(cards.last().value)
    }
}

pub open spec fn ace_count(cards: Seq<Card>) -> nat
    decreases cards.len(),
{
    if cards.len() == 0 {
        0
    } else {
        ace_count(cards.drop_last()) + if cards.last().value == CardSymbol::Ace {
            1nat
        } else {
            0nat
        }
    }
}

/// Demotes aces from 11 to 1, one at a time, while the sum is over 21 and an
/// ace is left to demote.
pub open spec fn demote_aces(sum: int, aces: nat) -> int
    decreases aces,
{
    if sum > 21 && aces > 0 {
        demote_aces(sum - 10, (aces - 1) as nat)
    } else {
        sum
    }
}

/// The blackjack total of a hand.
pub open spec fn hand_total(cards: Seq<Card>) -> int {
    demote_aces(raw_sum(cards), ace_count(cards))
}

pub open spec fn no_jokers(cards: Seq<Card>) -> bool {
    forall|i: int| 0 <= i < cards.len() ==> (#[trigger] cards[i]).value != CardSymbol::Joker
}

#[derive(Clone, Copy, PartialEq, Eq, Debug, Structural)]
pub enum HandState {
    Undefined,
    Finished,
    Bust,
    Blackjack,
}

/// The state that a total gives a hand that is still open.
pub open spec fn state_for_total(total: int) -> HandState {
    if total > 21 {
        HandState::Bust
    } else if total == 21 {
        HandState::Blackjack
    } else {
        HandState::Undefined
    }
}

/// A state agrees with a total: open and finished hands are under 21, a
/// blackjack is exactly 21, a bust is over it.
pub open spec fn state_fits(state: HandState, total: int) -> bool {
    match state {
        HandState::Undefined | HandState::Finished => total < 21,
        HandState::Bust => total > 21,
        HandState::Blackjack => total == 21,
    }
}

pub open spec fn is_terminal(state: HandState) -> bool {
    state != HandState::Undefined
}

/// The label of one card in a description: its rank, or `X` when face down.
pub open spec fn card_label(c: Card) -> Seq<char> {
    if c.revealed {
        crate::cards::symbol_label(c.value)
    } else {
        "X"@
    }
}

/// The labels of the cards joined by ` + `.
pub open spec fn joined_labels(cards: Seq<Card>) -> Seq<char>
    decreases cards.len(),
{
    if cards.len() == 0 {
        Seq::empty()
    } else if cards.len() == 1 {
        card_label(cards[0])
    } else {
        joined_labels(cards.drop_last()) + " + "@ + card_label(cards.last())
    }
}

pub open spec fn all_revealed(cards: Seq<Card>) -> bool {
    forall|i: int| 0 <= i < cards.len() ==> (#[trigger] cards[i]).revealed
}

/// `RANK + RANK + ... = TOTAL`, with `X` for a face-down card and `?` for the
/// total while any card is face down.
pub open spec fn hand_description(cards: Seq<Card>, sum: nat) -> Seq<char> {
    joined_labels(cards) + if all_revealed(cards) {
        " = "@ + decimal(sum)
    } else {
        " = ?"@
    }
}

pub proof fn lemma_demote_bounds(sum: int, aces: nat)
    ensures
        sum - 10 * aces <= demote_aces(sum, aces) <= sum,
        demote_aces(sum, aces) > 21 ==> demote_aces(sum, aces) == sum - 10 * aces,
    decreases aces,
{
    if sum > 21 && aces > 0 {
        lemma_demote_bounds(sum - 10, (aces - 1) as nat);
    }
}

/// Counting every ace as 1, each card is worth at least one point and at most
/// eleven.
pub proof fn lemma_hard_sum_bounds(cards: Seq<Card>)
    requires
        no_jokers(cards),
    ensures
        raw_sum(cards) - 10 * ace_count(cards) >= cards.len(),
        raw_sum(cards) <= 11 * cards.len(),
        ace_count(cards) <= cards.len(),
    decreases cards.len(),
{
    if cards.len() > 0 {
        assert(no_jokers(cards.drop_last()));
        lemma_hard_sum_bounds(cards.drop_last());
        assert(cards.last() == cards[cards.len() - 1]);
    }
}

/// Counting every ace as 1: the total never falls below it, and one more card
/// raises it by at least one.
pub open spec fn hard_total(cards: Seq<Card>) -> int {
    raw_sum(cards) - 10 * ace_count(cards)
}

pub proof fn lemma_hard_total_grows(cards: Seq<Card>, c: Card)
    requires
        c.value != CardSymbol::Joker,
    ensures
        hard_total(cards.push(c)) >= hard_total(cards) + 1,
        hand_total(cards) >= hard_total(cards),
{
    assert(cards.push(c).drop_last() =~= cards);
    lemma_demote_bounds(raw_sum(cards), ace_count(cards));
}

/// A hand's total is at least its number of cards.
pub proof fn lemma_total_at_least_len(cards: Seq<Card>)
    requires
        no_jokers(cards),
    ensures
        hand_total(cards) >= cards.len(),
        hand_total(cards) <= 11 * cards.len(),
{
    lemma_hard_sum_bounds(cards);
    lemma_demote_bounds(raw_sum(cards), ace_count(cards));
}

/// Turning cards over changes neither the total nor the joker check.
pub proof fn lemma_total_ignores_faces(a: Seq<Card>, b: Seq<Card>)
    requires
        a.len() == b.len(),
        forall|i: int| 0 <= i < a.len() ==> (#[trigger] a[i]).value == b[i].value,
    ensures
        raw_sum(a) == raw_sum(b),
        ace_count(a) == ace_count(b),
        hand_total(a) == hand_total(b),
        no_jokers(a) == no_jokers(b),
    decreases a.len(),
{
    if a.len() > 0 {
        lemma_total_ignores_faces(a.drop_last(), b.drop_last());
        assert(a.last().value == b.last().value);
    }
    if no_jokers(a) {
        assert forall|i: int| 0 <= i < b.len() implies (#[trigger] b[i]).value != CardSymbol::Joker by {
            assert(a[i].value == b[i].value);
        }
    }
    if no_jokers(b) {
        assert forall|i: int| 0 <= i < a.len() implies (#[trigger] a[i]).value != CardSymbol::Joker by {
            assert(a[i].value == b[i].value);
        }
    }
}

/// The hand with its second card turned over to show `face_up`.
pub open spec fn with_hole_card(h: HandView, face_up: bool) -> HandView {
    HandView { cards: h.cards.update(1, Card { revealed: face_up, ..h.cards[1] }), ..h }
}

/// Turning the second card over keeps a hand sound.
pub proof fn lemma_hole_card_keeps_wf(h: HandView, face_up: bool)
    requires
        h.wf(),
        h.cards.len() >= 2,
    ensures
        with_hole_card(h, face_up).wf(),
        with_hole_card(h, face_up).cards.len() == h.cards.len(),
{
    let c = with_hole_card(h, face_up).cards;
    assert forall|i: int| 0 <= i < h.cards.len() implies (#[trigger] h.cards[i]).value == c[i].value by {}
    lemma_total_ignores_faces(h.cards, c);
}

/// A sound hand is never over 21 without being a bust: its total is at most 21
/// or its state is `Bust`, and a total over 21 never sits with an open,
/// finished or blackjack state.
pub proof fn law_sound_hand_bust_or_at_most_21(h: HandView)
    requires
        h.wf(),
    ensures
        h.sum <= 21 || h.state == HandState::Bust,
        h.sum > 21 ==> h.state != HandState::Undefined && h.state != HandState::Finished
            && h.state != HandState::Blackjack,
{
}

/// Points of a rank, the ace counted as 11 (a joker is worth nothing).
pub fn blackjack_card_value(card_symbol: &CardSymbol) -> (r: i32)
    ensures
        r == card_points(*card_symbol),
{
    match card_symbol {
        CardSymbol::Two => 2,
        CardSymbol::Three => 3,
        CardSymbol::Four => 4,
        CardSymbol::Five => 5,
        CardSymbol::Six => 6,
        CardSymbol::Seven => 7,
        CardSymbol::Eight => 8,
        CardSymbol::Nine => 9,
        CardSymbol::Ten | CardSymbol::Jack | CardSymbol::Queen | CardSymbol::King => 10,
        CardSymbol::Ace => 11,
        CardSymbol::Joker => 0,
    }
}

impl HandState {
    pub fn from_value(value: i32) -> (r: HandState)
        ensures
            r == state_for_total(value as int),
    {
        if value > 21 {
            HandState::Bust
        } else if value == 21 {
            HandState::Blackjack
        } else {
            HandState::Undefined
        }
    }
}

pub struct Hand {
    pub state: HandState,
    pub sum: i32,
    pub cards: Vec<Card>,
}

/// What a hand holds, as values.
pub struct HandView {
    pub cards: Seq<Card>,
    pub sum: int,
    pub state: HandState,
}

impl HandView {
    /// The total is that of the cards, the state agrees with it, and no joker
    /// is held.
    pub open spec fn wf(self) -> bool {
        &&& no_jokers(self.cards)
        &&& self.cards.len() <= DECK_SIZE
        &&& self.sum == hand_total(self.cards)
        &&& state_fits(self.state, self.sum)
    }
}

/// A hand whose total may be out of date: no joker, at most a deck's worth of
/// cards, and a closed state that agrees with the cards.
pub open spec fn resyncable(h: HandView) -> bool {
    &&& no_jokers(h.cards)
    &&& h.cards.len() <= DECK_SIZE
    &&& is_terminal(h.state) ==> state_fits(h.state, hand_total(h.cards))
}

/// The hand with its total recomputed from its cards, and its state set from
/// that total unless it was already closed.
pub open spec fn resynced(h: HandView) -> HandView {
    HandView {
        cards: h.cards,
        sum: hand_total(h.cards),
        state: if h.state == HandState::Undefined {
            state_for_total(hand_total(h.cards))
        } else {
            h.state
        },
    }
}

/// The open hand that holds `cards`: total and state computed from them.
pub open spec fn open_hand(cards: Seq<Card>) -> HandView {
    HandView { cards, sum: hand_total(cards), state: state_for_total(hand_total(cards)) }
}

impl HandView {
    /// Two cards of equal rank.
    pub open spec fn splittable(self) -> bool {
        self.cards.len() == 2 && self.cards[0].value == self.cards[1].value
    }
}

impl View for Hand {
    type V = HandView;

    open spec fn view(&self) -> HandView {
        HandView { cards: self.cards@, sum: self.sum as int, state: self.state }
    }
}

impl Hand {
    pub open spec fn wf(&self) -> bool {
        self@.wf()
    }

    pub open spec fn splittable(&self) -> bool {
        self@.splittable()
    }

    pub fn is_splitable(&self) -> (r: bool)
        ensures
            r == self.splittable(),
    {
        self.cards.len() == 2 && self.cards[0].value == self.cards[1].value
    }

    /// Same as `is_splitable`.
    pub fn splitable(&self) -> (r: bool)
        ensures
            r == self.splittable(),
    {
        self.is_splitable()
    }

    pub fn new() -> (h: Hand)
        ensures
            h.cards@ == Seq::<Card>::empty(),
            h.sum == 0,
            h.state == HandState::Undefined,
            h.wf(),
    {
        Hand { cards: Vec::new(), sum: 0, state: HandState::Undefined }
    }

    /// An open hand holding `cards`, with its total and state computed.
    pub fn from_cards(cards: Vec<Card>) -> (h: Hand)
        requires
            no_jokers(cards@),
            cards@.len() <= DECK_SIZE,
        ensures
            h.cards@ == cards@,
            h.sum == hand_total(cards@),
            h.state == state_for_total(hand_total(cards@)),
            h.wf(),
    {
        let mut h = Hand { cards, sum: 0, state: HandState::Undefined };
        h.update_state();
        h
    }

    /// The hand as text, in the form of `hand_description`.
    pub fn describe(&self) -> (r: String)
        requires
            self.wf(),
        ensures
            r@ == hand_description(self.cards@, self.sum as nat),
    {
        proof {
            lemma_total_at_least_len(self.cards@);
        }
        let mut out = String::new();
        let mut fully_revealed = true;
        let mut i: usize = 0;
        while i < self.cards.len()
            invariant
                i <= self.cards@.len(),
                out@ == joined_labels(self.cards@.take(i as int)),
                fully_revealed == all_revealed(self.cards@.take(i as int)),
            decreases self.cards@.len() - i,
        {
            let card = self.cards[i];
            let ghost prefix = self.cards@.take(i + 1);
            assert(prefix.drop_last() =~= self.cards@.take(i as int));
            assert(prefix.last() == card);
            if i > 0 {
                out.append(" + ");
            }
            if card.is_revealed() {
                out.append(card.value.to_str());
            } else {
                fully_revealed = false;
                out.append("X");
            }
            proof {
                if i == 0 {
                    assert(out@ =~= card_label(card));
                    assert(prefix[0] == card);
                }
                assert(out@ == joined_labels(prefix));
                if fully_revealed {
                    assert forall|j: int| 0 <= j < prefix.len() implies (#[trigger] prefix[j]).revealed by {
                        if j < i {
                            assert(prefix[j] == self.cards@.take(i as int)[j]);
                        }
                    }
                } else if card.revealed {
                    let k = choose|k: int|
                        0 <= k < i && !(#[trigger] self.cards@.take(i as int)[k]).revealed;
                    assert(!prefix[k].revealed);
                }
            }
            i = i + 1;
        }
        assert(self.cards@.take(self.cards@.len() as int) =~= self.cards@);
        if fully_revealed {
            out.append(" = ");
            push_decimal(&mut out, self.sum as u64);
        } else {
            out.append(" = ?");
        }
        out
    }

    pub fn card_at(&self, at: usize) -> (c: &Card)
        requires
            at < self.cards@.len(),
        ensures
            *c == self.cards@[at as int],
    {
        &self.cards[at]
    }

    pub fn card_at_mut(&mut self, at: usize) -> (c: &mut Card)
        requires
            at < old(self).cards@.len(),
        ensures
            *c == old(self).cards@[at as int],
            final(self).cards@ == old(self).cards@.update(at as int, *final(c)),
            final(self).sum == old(self).sum,
            final(self).state == old(self).state,
    {
        &mut self.cards[at]
    }

    /// Adds a card to an open hand and recomputes its total and state.
    pub fn deal_card(&mut self, card: Card)
        requires
            old(self).wf(),
            old(self).state == HandState::Undefined,
            card.value != CardSymbol::Joker,
        ensures
            final(self).cards@ == old(self).cards@.push(card),
            final(self).sum == hand_total(final(self).cards@),
            final(self).state == state_for_total(final(self).sum as int),
            final(self).wf(),
    {
        proof {
            lemma_total_at_least_len(self.cards@);
        }
        self.cards.push(card);
        self.update_state();
    }

    /// Splits a pair: the second card leaves for a new hand, each hand then
    /// receives one new card. The new hand is returned; the caller places it
    /// right after this one.
    pub fn split(&mut self, card_0_1: Card, card_1_1: Card) -> (new_hand: Hand)
        requires
            old(self).wf(),
            old(self).state == HandState::Undefined,
            old(self).splittable(),
            card_0_1.value != CardSymbol::Joker,
            card_1_1.value != CardSymbol::Joker,
        ensures
            final(self).cards@ == seq![old(self).cards@[0], card_0_1],
            new_hand.cards@ == seq![old(self).cards@[1], card_1_1],
            final(self).sum == hand_total(final(self).cards@),
            final(self).state == state_for_total(final(self).sum as int),
            new_hand.sum == hand_total(new_hand.cards@),
            new_hand.state == state_for_total(new_hand.sum as int),
            final(self).wf(),
            new_hand.wf(),
    {
        let card_1_0 = self.cards.pop().unwrap();
        self.cards.push(card_0_1);
        assert(self.cards@ =~= seq![old(self).cards@[0], card_0_1]);
        self.update_state();
        let v = vec![card_1_0, card_1_1];
        Hand::from_cards(v)
    }

    /// Recomputes the total, demoting aces while it is over 21, and sets the
    /// state from it unless the hand was already closed.
    pub fn update_state(&mut self)
        requires
            resyncable(old(self)@),
        ensures
            final(self)@ == resynced(old(self)@),
            final(self).wf(),
            final(self).sum <= 21 || final(self).state == HandState::Bust,
    {
        let mut sum: i32 = 0;
        let mut number_of_aces: u32 = 0;
        let mut i: usize = 0;
        while i < self.cards.len()
            invariant
                i <= self.cards@.len() <= DECK_SIZE,
                sum == raw_sum(self.cards@.take(i as int)),
                number_of_aces == ace_count(self.cards@.take(i as int)),
                0 <= sum <= 11 * i,
                number_of_aces <= i,
            decreases self.cards@.len() - i,
        {
            let card = self.cards[i];
            let ghost prefix = self.cards@.take(i + 1);
            assert(prefix.drop_last() =~= self.cards@.take(i as int));
            assert(prefix.last() == card);
            sum = sum + blackjack_card_value(&card.value);
            if card.value == CardSymbol::Ace {
                number_of_aces = number_of_aces + 1;
            }
            i = i + 1;
        }
        assert(self.cards@.take(self.cards@.len() as int) =~= self.cards@);
        while number_of_aces > 0 && sum > 21
            invariant
                demote_aces(sum as int, number_of_aces as nat) == hand_total(self.cards@),
                sum <= 11 * DECK_SIZE,
                sum >= -10,
            decreases number_of_aces,
        {
            sum = sum - 10;
            number_of_aces = number_of_aces - 1;
        }
        assert(demote_aces(sum as int, number_of_aces as nat) == sum);
        self.sum = sum;
        if self.state == HandState::Undefined {
            self.state = HandState::from_value(sum);
        }
    }
}

} // verus!

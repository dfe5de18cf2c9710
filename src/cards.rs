use std::collections::VecDeque;

use rand::seq::SliceRandom;
use vstd::prelude::*;

verus! {

/// Number of cards in a fresh deck: four suits of thirteen ranks, no joker.
pub const DECK_SIZE: usize = 52;

#[derive(Clone, Copy, PartialEq, Eq, Debug, Structural)]
pub enum CardSymbol {
    Ace,
    Two,
    Three,
    Four,
    Five,
    Six,
    Seven,
    Eight,
    Nine,
    Ten,
    Jack,
    Queen,
    King,
    Joker,
}

/// The rank whose ordinal is `value` (ace is 1, king 13, joker 14).
pub open spec fn symbol_of(value: int) -> CardSymbol {
    if value == 1 {
        CardSymbol::Ace
    } else if value == 2 {
        CardSymbol::Two
    } else if value == 3 {
        CardSymbol::Three
    } else if value == 4 {
        CardSymbol::Four
    } else if value == 5 {
        CardSymbol::Five
    } else if value == 6 {
        CardSymbol::Six
    } else if value == 7 {
        CardSymbol::Seven
    } else if value == 8 {
        CardSymbol::Eight
    } else if value == 9 {
        CardSymbol::Nine
    } else if value == 10 {
        CardSymbol::Ten
    } else if value == 11 {
        CardSymbol::Jack
    } else if value == 12 {
        CardSymbol::Queen
    } else if value == 13 {
        CardSymbol::King
    } else {
        CardSymbol::Joker
    }
}

/// The short label printed for a rank.
pub open spec fn symbol_label(s: CardSymbol) -> Seq<char> {
    match s {
        CardSymbol::Ace => "A"@,
        CardSymbol::Two => "2"@,
        CardSymbol::Three => "3"@,
        CardSymbol::Four => "4"@,
        CardSymbol::Five => "5"@,
        CardSymbol::Six => "6"@,
        CardSymbol::Seven => "7"@,
        CardSymbol::Eight => "8"@,
        CardSymbol::Nine => "9"@,
        CardSymbol::Ten => "10"@,
        CardSymbol::Jack => "J"@,
        CardSymbol::Queen => "Q"@,
        CardSymbol::King => "K"@,
        CardSymbol::Joker => "X"@,
    }
}

impl CardSymbol {
    pub fn from_value(value: i32) -> (r: CardSymbol)
        requires
            1 <= value <= 14,
        ensures
            r == symbol_of(value as int),
    {
        match value {
            1 => CardSymbol::Ace,
            2 => CardSymbol::Two,
            3 => CardSymbol::Three,
            4 => CardSymbol::Four,
            5 => CardSymbol::Five,
            6 => CardSymbol::Six,
            7 => CardSymbol::Seven,
            8 => CardSymbol::Eight,
            9 => CardSymbol::Nine,
            10 => CardSymbol::Ten,
            11 => CardSymbol::Jack,
            12 => CardSymbol::Queen,
            13 => CardSymbol::King,
            _ => CardSymbol::Joker,
        }
    }

    pub fn to_str(&self) -> (r: &'static str)
        ensures
            r@ == symbol_label(*self),
    {
        match self {
            CardSymbol::Ace => "A",
            CardSymbol::Two => "2",
            CardSymbol::Three => "3",
            CardSymbol::Four => "4",
            CardSymbol::Five => "5",
            CardSymbol::Six => "6",
            CardSymbol::Seven => "7",
            CardSymbol::Eight => "8",
            CardSymbol::Nine => "9",
            CardSymbol::Ten => "10",
            CardSymbol::Jack => "J",
            CardSymbol::Queen => "Q",
            CardSymbol::King => "K",
            CardSymbol::Joker => "X",
        }
    }
}

#[derive(Clone, Copy, PartialEq, Eq, Debug, Structural)]
pub enum Colors {
    Red,
    Black,
}

pub open spec fn color_label(c: Colors) -> Seq<char> {
    match c {
        Colors::Red => "Red"@,
        Colors::Black => "Black"@,
    }
}

impl Colors {
    pub fn to_str(&self) -> (r: &'static str)
        ensures
            r@ == color_label(*self),
    {
        match self {
            Colors::Red => "Red",
            Colors::Black => "Black",
        }
    }
}

#[derive(Clone, Copy, PartialEq, Eq, Debug, Structural)]
pub enum Suit {
    Spade,
    Club,
    Heart,
    Diamond,
}

/// Spades and clubs are black, hearts and diamonds red.
pub open spec fn suit_color(s: Suit) -> Colors {
    match s {
        Suit::Spade | Suit::Club => Colors::Black,
        Suit::Heart | Suit::Diamond => Colors::Red,
    }
}

/// The order in which a fresh deck lays out its suits.
pub open spec fn suit_at(i: int) -> Suit {
    if i == 0 {
        Suit::Spade
    } else if i == 1 {
        Suit::Heart
    } else if i == 2 {
        Suit::Club
    } else {
        Suit::Diamond
    }
}

pub open spec fn suit_label(s: Suit) -> Seq<char> {
    match s {
        Suit::Spade => "S"@,
        Suit::Club => "C"@,
        Suit::Heart => "H"@,
        Suit::Diamond => "D"@,
    }
}

impl Suit {
    pub fn color(&self) -> (r: Colors)
        ensures
            r == suit_color(*self),
    {
        match self {
            Suit::Spade => Colors::Black,
            Suit::Club => Colors::Black,
            Suit::Heart => Colors::Red,
            Suit::Diamond => Colors::Red,
        }
    }

    pub fn to_str(self) -> (r: &'static str)
        ensures
            r@ == suit_label(self),
    {
        match self {
            Suit::Spade => "S",
            Suit::Club => "C",
            Suit::Heart => "H",
            Suit::Diamond => "D",
        }
    }
}

#[derive(Clone, Copy, PartialEq, Eq, Debug, Structural)]
pub struct Card {
    pub suit: Suit,
    pub value: CardSymbol,
    pub revealed: bool,
}

impl Card {
    /// A face-up card.
    pub fn new(suit: Suit, value: CardSymbol) -> (c: Card)
        ensures
            c == (Card { suit, value, revealed: true }),
    {
        Card { suit, value, revealed: true }
    }

    /// Turns the card face up.
    pub fn turn_face_up(&mut self)
        ensures
            *final(self) == (Card { revealed: true, ..*old(self) }),
    {
        self.revealed = true
    }

    /// Turns the card face down.
    pub fn unreveal(&mut self)
        ensures
            *final(self) == (Card { revealed: false, ..*old(self) }),
    {
        self.revealed = false
    }

    pub fn is_revealed(&self) -> (r: bool)
        ensures
            r == self.revealed,
    {
        self.revealed
    }

    /// `Card: color=COLOR, suit=SUIT, value=RANK`.
    pub fn describe(&self) -> (r: String)
        ensures
            r@ == "Card: color="@ + color_label(suit_color(self.suit)) + ", suit="@ + suit_label(
                self.suit,
            ) + ", value="@ + symbol_label(self.value),
    {
        let mut out = String::from_str("Card: color=");
        out.append(self.suit.color().to_str());
        out.append(", suit=");
        out.append(self.suit.to_str());
        out.append(", value=");
        out.append(self.value.to_str());
        out
    }
}

/// The cards of a fresh deck, in order: for each suit of `suit_at`, ace to king.
pub open spec fn fresh_cards() -> Seq<Card> {
    Seq::new(
        DECK_SIZE as nat,
        |i: int| Card { suit: suit_at(i / 13), value: symbol_of(i % 13 + 1), revealed: true },
    )
}

/// A fresh deck holds no card twice.
pub proof fn lemma_fresh_cards_distinct()
    ensures
        fresh_cards().no_duplicates(),
{
    assert forall|i: int, j: int|
        0 <= i < fresh_cards().len() && 0 <= j < fresh_cards().len() && i != j implies fresh_cards()[i]
        != fresh_cards()[j] by {
        vstd::arithmetic::div_mod::lemma_fundamental_div_mod(i, 13);
        vstd::arithmetic::div_mod::lemma_fundamental_div_mod(j, 13);
        if i / 13 == j / 13 {
            assert(i % 13 != j % 13);
        } else {
            assert(0 <= i / 13 < 4 && 0 <= j / 13 < 4);
        }
    }
}

/// A card that may be dealt: face up and not a joker.
pub open spec fn dealable(c: Card) -> bool {
    c.value != CardSymbol::Joker && c.revealed
}

pub struct Deck {
    pub cards: VecDeque<Card>,
}

/// Relies on rand's `SliceRandom::shuffle`, driven by `rand::thread_rng`: the
/// shuffle only swaps elements, so the result is a permutation of the input.
/// Which permutation is left to chance.
#[verifier::external_body]
fn shuffle_cards(cards: &mut Vec<Card>)
    ensures
        final(cards)@.to_multiset() == old(cards)@.to_multiset(),
{
    cards.shuffle(&mut rand::thread_rng());
}

impl Deck {
    /// Every card left in the deck may be dealt.
    pub open spec fn wf(&self) -> bool {
        forall|i: int| 0 <= i < self.cards@.len() ==> dealable(#[trigger] self.cards@[i])
    }

    /// An unshuffled deck.
    pub fn new() -> (d: Deck)
        ensures
            d.cards@ == fresh_cards(),
            d.cards@.no_duplicates(),
            d.wf(),
    {
        proof {
            lemma_fresh_cards_distinct();
        }
        Self::from_cards(Self::fresh_cards_vec())
    }

    /// A deck holding the 52 cards of `fresh_cards` in random order.
    pub fn new_shuffled() -> (d: Deck)
        ensures
            d.cards@.to_multiset() == fresh_cards().to_multiset(),
            d.cards@.len() == DECK_SIZE,
            d.cards@.no_duplicates(),
            d.wf(),
    {
        let mut cards = Self::fresh_cards_vec();
        shuffle_cards(&mut cards);
        proof {
            lemma_fresh_cards_distinct();
            fresh_cards().lemma_multiset_has_no_duplicates();
            cards@.lemma_multiset_has_no_duplicates_conv();
            broadcast use vstd::seq_lib::group_to_multiset_ensures;

            assert forall|i: int| 0 <= i < cards@.len() implies dealable(#[trigger] cards@[i]) by {
                assert(cards@.to_multiset().count(cards@[i]) > 0);
                assert(fresh_cards().contains(cards@[i]));
            }
            assert(cards@.len() == cards@.to_multiset().len());
            assert(fresh_cards().len() == fresh_cards().to_multiset().len());
        }
        Self::from_cards(cards)
    }

    pub fn fresh_cards_vec() -> (v: Vec<Card>)
        ensures
            v@ == fresh_cards(),
    {
        let mut cards: Vec<Card> = Vec::new();
        let suits = [Suit::Spade, Suit::Heart, Suit::Club, Suit::Diamond];
        let mut s: usize = 0;
        while s < 4
            invariant
                s <= 4,
                suits@ == seq![Suit::Spade, Suit::Heart, Suit::Club, Suit::Diamond],
                cards@ == fresh_cards().take(13 * s as int),
            decreases 4 - s,
        {
            let suit = suits[s];
            let mut value: i32 = 1;
            while value < 14
                invariant
                    s < 4,
                    1 <= value <= 14,
                    suit == suit_at(s as int),
                    cards@ == fresh_cards().take(13 * s + value - 1),
                decreases 14 - value,
            {
                cards.push(Card::new(suit, CardSymbol::from_value(value)));
                proof {
                    let k = 13 * s + value - 1;
                    assert(k / 13 == s as int && k % 13 + 1 == value);
                    assert(cards@ =~= fresh_cards().take(k + 1));
                }
                value = value + 1;
            }
            s = s + 1;
        }
        assert(cards@ =~= fresh_cards());
        cards
    }

    /// A deck that deals `cards` from the front, in the order given.
    pub fn from_cards(cards: Vec<Card>) -> (d: Deck)
        requires
            forall|i: int| 0 <= i < cards@.len() ==> dealable(#[trigger] cards@[i]),
        ensures
            d.cards@ == cards@,
            d.wf(),
    {
        let mut deque: VecDeque<Card> = VecDeque::new();
        let mut i: usize = 0;
        while i < cards.len()
            invariant
                i <= cards@.len(),
                deque@ == cards@.take(i as int),
            decreases cards@.len() - i,
        {
            deque.push_back(cards[i]);
            assert(deque@ =~= cards@.take(i + 1));
            i = i + 1;
        }
        assert(cards@.take(cards@.len() as int) =~= cards@);
        Deck { cards: deque }
    }

    pub fn len(&self) -> (n: usize)
        ensures
            n == self.cards@.len(),
    {
        self.cards.len()
    }

    /// Takes the front card.
    pub fn draw_card(&mut self) -> (c: Card)
        requires
            old(self).cards@.len() > 0,
        ensures
            c == old(self).cards@[0],
            final(self).cards@ == old(self).cards@.skip(1),
            old(self).wf() ==> final(self).wf() && dealable(c),
    {
        self.cards.pop_front().unwrap()
    }
}

} // verus!

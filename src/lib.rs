//! Blackjack: cards and decks, hands with ace-adjusted totals, the round's
//! turn-by-turn state machine with the dealer's fixed policy, and judging.
pub mod actor;
pub mod cards;
pub mod hand;
pub mod judge;
pub mod round;
pub mod text;

pub use actor::{Actor, ActorRole};
pub use cards::{Card, CardSymbol, Colors, Deck, Suit};
pub use hand::{blackjack_card_value, Hand, HandState};
pub use judge::{calculate_hand_result, payout, HandResult};
pub use round::{blackjack_round, DealerAction, Round, UserAction};

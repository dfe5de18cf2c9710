use vstd::prelude::*;

use crate::hand::{Hand, HandView};

verus! {

#[derive(Clone, Copy, PartialEq, Eq, Debug, Structural)]
pub enum ActorRole {
    Player,
    Dealer,
}

impl ActorRole {
    pub fn as_str(&self) -> (r: &'static str)
        ensures
            r@ == (match *self {
                ActorRole::Player => "player"@,
                ActorRole::Dealer => "dealer"@,
            }),
    {
        match self {
            ActorRole::Player => "player",
            ActorRole::Dealer => "dealer",
        }
    }
}

/// A seat at the table: a player, or the dealer, with its hands in play order.
pub struct Actor {
    pub role: ActorRole,
    pub hands: Vec<Hand>,
    pub actor_idx: usize,
}

/// What a seat holds, as values.
pub struct ActorView {
    pub role: ActorRole,
    pub hands: Seq<HandView>,
    pub actor_idx: usize,
}

impl View for Actor {
    type V = ActorView;

    open spec fn view(&self) -> ActorView {
        ActorView {
            role: self.role,
            hands: self.hands@.map_values(|h: Hand| h@),
            actor_idx: self.actor_idx,
        }
    }
}

impl Actor {
    pub fn hand_at(&self, at: usize) -> (h: &Hand)
        requires
            at < self.hands@.len(),
        ensures
            *h == self.hands@[at as int],
    {
        &self.hands[at]
    }

    pub fn hand_at_mut(&mut self, at: usize) -> (h: &mut Hand)
        requires
            at < old(self).hands@.len(),
        ensures
            *h == old(self).hands@[at as int],
            final(self).hands@ == old(self).hands@.update(at as int, *final(h)),
            final(self).role == old(self).role,
            final(self).actor_idx == old(self).actor_idx,
    {
        &mut self.hands[at]
    }

    /// A player seat holding one hand.
    pub fn new(actor_idx: usize, hand: Hand) -> (a: Actor)
        ensures
            a.role == ActorRole::Player,
            a.hands@ == seq![hand],
            a.actor_idx == actor_idx,
    {
        Actor { actor_idx, role: ActorRole::Player, hands: vec![hand] }
    }
}

} // verus!

use vstd::prelude::*;

use crate::card::{copy_cards, Card};

verus! {

/// A seat at the table.
#[derive(Debug, Clone)]
pub struct Player {
    pub id: usize,
    pub name: String,
    pub chips: u32,
    pub hole_cards: Vec<Card>,
    /// What the player has put in during the current betting round.
    pub current_bet: u32,
    /// What the player has put in during the whole hand.
    pub invested_in_hand: u32,
    pub is_folded: bool,
    pub is_all_in: bool,
    pub has_acted: bool,
}

/// A `Player` with its name and cards as sequences.
#[verifier::ext_equal]
pub struct PlayerModel {
    pub id: usize,
    pub name: Seq<char>,
    pub chips: u32,
    pub hole_cards: Seq<Card>,
    pub current_bet: u32,
    pub invested_in_hand: u32,
    pub is_folded: bool,
    pub is_all_in: bool,
    pub has_acted: bool,
}

impl View for Player {
    type V = PlayerModel;

    open spec fn view(&self) -> PlayerModel {
        PlayerModel {
            id: self.id,
            name: self.name@,
            chips: self.chips,
            hole_cards: self.hole_cards@,
            current_bet: self.current_bet,
            invested_in_hand: self.invested_in_hand,
            is_folded: self.is_folded,
            is_all_in: self.is_all_in,
            has_acted: self.has_acted,
        }
    }
}

/// A newcomer: no cards, nothing bet, still in the hand.
pub open spec fn fresh_player(id: usize, name: Seq<char>, chips: u32) -> PlayerModel {
    PlayerModel {
        id,
        name,
        chips,
        hole_cards: Seq::empty(),
        current_bet: 0,
        invested_in_hand: 0,
        is_folded: false,
        is_all_in: false,
        has_acted: false,
    }
}

impl Player {
    pub fn new(id: usize, name: String, chips: u32) -> (p: Player)
        ensures
            p@ == fresh_player(id, name@, chips),
    {
        Player {
            id,
            name,
            chips,
            hole_cards: Vec::with_capacity(2),
            current_bet: 0,
            invested_in_hand: 0,
            is_folded: false,
            is_all_in: false,
            has_acted: false,
        }
    }

    /// A copy of this seat.
    pub fn copy(&self) -> (r: Player)
        ensures
            r@ == self@,
    {
        Player {
            id: self.id,
            name: self.name.clone(),
            chips: self.chips,
            hole_cards: copy_cards(&self.hole_cards),
            current_bet: self.current_bet,
            invested_in_hand: self.invested_in_hand,
            is_folded: self.is_folded,
            is_all_in: self.is_all_in,
            has_acted: self.has_acted,
        }
    }
}

} // verus!

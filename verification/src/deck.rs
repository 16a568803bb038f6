use vstd::prelude::*;

use crate::card::{full_deck, lemma_full_deck_distinct, rank_of_value, suit_at, Card, Rank, Suit};
use rand::seq::SliceRandom;

verus! {

/// A pile of cards; cards are drawn from the end of `cards`.
#[derive(Debug, Clone)]
pub struct Deck {
    cards: Vec<Card>,
}

impl View for Deck {
    type V = Seq<Card>;

    closed spec fn view(&self) -> Seq<Card> {
        self.cards@
    }
}

/// `SliceRandom::shuffle` of the `rand` crate, with the thread-local generator of
/// `rand::rng()`. The outcome depends on chance; what holds of every outcome is that
/// the cards are permuted: same length, same cards with the same multiplicities.
/// Not said: which permutation comes out. `rand::rng()` panics if the operating
/// system's random source fails while seeding.
#[verifier::external_body]
pub(crate) fn shuffle_cards(cards: &mut Vec<Card>)
    ensures
        final(cards)@.len() == old(cards)@.len(),
        final(cards)@.to_multiset() == old(cards)@.to_multiset(),
{
    let mut rng = rand::rng();
    cards.shuffle(&mut rng);
}

/// The 52 cards in building order (`full_deck()`), unshuffled.
pub(crate) fn ordered_cards() -> (v: Vec<Card>)
    ensures
        v@ == full_deck(),
{
    let mut cards: Vec<Card> = Vec::with_capacity(52);
    let suits = Suit::all();
    let ranks = Rank::all();
    let mut s: usize = 0;
    while s < 4
        invariant
            s <= 4,
            cards@ == full_deck().take(13 * s as int),
            forall|k: int| 0 <= k < 4 ==> suits@[k] == suit_at(k),
            forall|k: int| 0 <= k < 13 ==> ranks@[k] == rank_of_value(k + 2),
        decreases 4 - s,
    {
        let mut r: usize = 0;
        while r < 13
            invariant
                s < 4,
                r <= 13,
                cards@ == full_deck().take(13 * s + r),
                forall|k: int| 0 <= k < 4 ==> suits@[k] == suit_at(k),
                forall|k: int| 0 <= k < 13 ==> ranks@[k] == rank_of_value(k + 2),
            decreases 13 - r,
        {
            let c = Card::new(ranks[r], suits[s]);
            proof {
                let i = 13 * s + r;
                assert(i / 13 == s && i % 13 == r);
                assert(full_deck()[i] == c);
                assert(full_deck().take(i + 1) =~= full_deck().take(i).push(c));
            }
            cards.push(c);
            r = r + 1;
        }
        s = s + 1;
    }
    assert(full_deck().take(52) =~= full_deck());
    cards
}

impl Deck {
    /// A fresh deck of the 52 cards, shuffled.
    pub fn new() -> (d: Deck)
        ensures
            d@.len() == 52,
            d@.to_multiset() == full_deck().to_multiset(),
            forall|c: Card| #[trigger] d@.to_multiset().count(c) == 1,
    {
        let mut deck = Deck { cards: ordered_cards() };
        deck.shuffle();
        proof {
            lemma_full_deck_distinct();
            full_deck().lemma_multiset_has_no_duplicates();
            assert forall|c: Card| #[trigger] deck@.to_multiset().count(c) == 1 by {
                vstd::seq_lib::to_multiset_contains(full_deck(), c);
            }
        }
        deck
    }

    /// A deck holding exactly `cards`, drawn from the end.
    pub fn from_cards(cards: Vec<Card>) -> (d: Deck)
        ensures
            d@ == cards@,
    {
        Deck { cards }
    }

    /// The cards left, in order (the last one is drawn next).
    pub fn cards(&self) -> (v: &Vec<Card>)
        ensures
            v@ == self@,
    {
        &self.cards
    }

    /// Puts the remaining cards in a random order.
    pub fn shuffle(&mut self)
        ensures
            final(self)@.len() == old(self)@.len(),
            final(self)@.to_multiset() == old(self)@.to_multiset(),
    {
        shuffle_cards(&mut self.cards);
    }

    /// Takes the top card (the last of the sequence), if any.
    pub fn draw(&mut self) -> (c: Option<Card>)
        ensures
            old(self)@.len() == 0 ==> c is None && final(self)@ == old(self)@,
            old(self)@.len() > 0 ==> c == Some(old(self)@.last()) && final(self)@
                == old(self)@.drop_last(),
    {
        self.cards.pop()
    }

    /// How many cards are left.
    pub fn remaining_cards(&self) -> (n: usize)
        ensures
            n == self@.len(),
    {
        self.cards.len()
    }
}

} // verus!

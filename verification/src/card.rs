use vstd::prelude::*;

verus! {

/// The four suits of a standard deck, in the order a fresh deck is built.
#[derive(Clone, Copy, Debug, PartialEq, Eq, Structural, PartialOrd, Ord, Hash)]
pub enum Suit {
    Hearts,
    Diamonds,
    Clubs,
    Spades,
}

/// The thirteen ranks, from lowest to highest.
#[derive(Clone, Copy, Debug, PartialEq, Eq, Structural, PartialOrd, Ord, Hash)]
pub enum Rank {
    Two,
    Three,
    Four,
    Five,
    Six,
    Seven,
    Eight,
    Nine,
    Ten,
    Jack,
    Queen,
    King,
    Ace,
}

/// A playing card. Cards order by rank first, then by suit.
#[derive(Clone, Copy, Debug, PartialEq, Eq, Structural, PartialOrd, Ord, Hash)]
pub struct Card {
    pub rank: Rank,
    pub suit: Suit,
}

/// The numeric value of a rank: Two is 2, ..., Ace is 14.
pub open spec fn rank_value(r: Rank) -> int {
    match r {
        Rank::Two => 2,
        Rank::Three => 3,
        Rank::Four => 4,
        Rank::Five => 5,
        Rank::Six => 6,
        Rank::Seven => 7,
        Rank::Eight => 8,
        Rank::Nine => 9,
        Rank::Ten => 10,
        Rank::Jack => 11,
        Rank::Queen => 12,
        Rank::King => 13,
        Rank::Ace => 14,
    }
}

/// The rank whose value is `v` (meaningful for 2 <= v <= 14).
pub open spec fn rank_of_value(v: int) -> Rank {
    if v <= 2 {
        Rank::Two
    } else if v == 3 {
        Rank::Three
    } else if v == 4 {
        Rank::Four
    } else if v == 5 {
        Rank::Five
    } else if v == 6 {
        Rank::Six
    } else if v == 7 {
        Rank::Seven
    } else if v == 8 {
        Rank::Eight
    } else if v == 9 {
        Rank::Nine
    } else if v == 10 {
        Rank::Ten
    } else if v == 11 {
        Rank::Jack
    } else if v == 12 {
        Rank::Queen
    } else if v == 13 {
        Rank::King
    } else {
        Rank::Ace
    }
}

/// The suit at position `k` (0..4) of the building order.
pub open spec fn suit_at(k: int) -> Suit {
    if k <= 0 {
        Suit::Hearts
    } else if k == 1 {
        Suit::Diamonds
    } else if k == 2 {
        Suit::Clubs
    } else {
        Suit::Spades
    }
}

pub open spec fn suit_index(s: Suit) -> int {
    match s {
        Suit::Hearts => 0,
        Suit::Diamonds => 1,
        Suit::Clubs => 2,
        Suit::Spades => 3,
    }
}

/// The 52 cards in building order: suit by suit, each from Two up to Ace.
pub open spec fn full_deck() -> Seq<Card> {
    Seq::new(52, |i: int| Card { rank: rank_of_value(i % 13 + 2), suit: suit_at(i / 13) })
}

/// The position of a card in `full_deck()`.
pub open spec fn card_index(c: Card) -> int {
    suit_index(c.suit) * 13 + rank_value(c.rank) - 2
}

pub proof fn lemma_rank_value_bounds(r: Rank)
    ensures
        2 <= rank_value(r) <= 14,
        rank_of_value(rank_value(r)) == r,
{
}

/// Every card sits in `full_deck()` at `card_index`, and nowhere else.
pub proof fn lemma_full_deck_index(c: Card)
    ensures
        0 <= card_index(c) < 52,
        full_deck()[card_index(c)] == c,
{
    let k = card_index(c);
    assert(k / 13 == suit_index(c.suit) && k % 13 == rank_value(c.rank) - 2) by {
        lemma_rank_value_bounds(c.rank);
    }
}

/// The fresh-deck order holds each of the 52 cards exactly once.
pub proof fn lemma_full_deck_distinct()
    ensures
        full_deck().len() == 52,
        full_deck().no_duplicates(),
        forall|c: Card| full_deck().contains(c),
{
    assert forall|i: int| 0 <= i < 52 implies card_index(#[trigger] full_deck()[i]) == i by {
        let c = full_deck()[i];
        assert(suit_index(suit_at(i / 13)) == i / 13);
        assert(rank_value(rank_of_value(i % 13 + 2)) == i % 13 + 2);
    }
    assert forall|c: Card| full_deck().contains(c) by {
        lemma_full_deck_index(c);
    }
}

impl Suit {
    /// All suits in building order.
    pub fn all() -> (r: [Suit; 4])
        ensures
            forall|k: int| 0 <= k < 4 ==> r@[k] == suit_at(k),
    {
        [Suit::Hearts, Suit::Diamonds, Suit::Clubs, Suit::Spades]
    }

    /// The suit's symbol.
    pub fn to_string(&self) -> (s: String)
        ensures
            s@ == suit_text(*self),
    {
        match self {
            Suit::Hearts => String::from_str("♥"),
            Suit::Diamonds => String::from_str("♦"),
            Suit::Clubs => String::from_str("♣"),
            Suit::Spades => String::from_str("♠"),
        }
    }
}

pub open spec fn suit_text(s: Suit) -> Seq<char> {
    match s {
        Suit::Hearts => "♥"@,
        Suit::Diamonds => "♦"@,
        Suit::Clubs => "♣"@,
        Suit::Spades => "♠"@,
    }
}

pub open spec fn rank_text(r: Rank) -> Seq<char> {
    match r {
        Rank::Two => "2"@,
        Rank::Three => "3"@,
        Rank::Four => "4"@,
        Rank::Five => "5"@,
        Rank::Six => "6"@,
        Rank::Seven => "7"@,
        Rank::Eight => "8"@,
        Rank::Nine => "9"@,
        Rank::Ten => "10"@,
        Rank::Jack => "J"@,
        Rank::Queen => "Q"@,
        Rank::King => "K"@,
        Rank::Ace => "A"@,
    }
}

impl Rank {
    /// All ranks from Two up to Ace.
    pub fn all() -> (r: [Rank; 13])
        ensures
            forall|k: int| 0 <= k < 13 ==> r@[k] == rank_of_value(k + 2),
    {
        [
            Rank::Two,
            Rank::Three,
            Rank::Four,
            Rank::Five,
            Rank::Six,
            Rank::Seven,
            Rank::Eight,
            Rank::Nine,
            Rank::Ten,
            Rank::Jack,
            Rank::Queen,
            Rank::King,
            Rank::Ace,
        ]
    }

    /// The rank's numeric value (Two is 2, Ace is 14).
    pub fn value(&self) -> (v: u8)
        ensures
            v == rank_value(*self),
    {
        match self {
            Rank::Two => 2,
            Rank::Three => 3,
            Rank::Four => 4,
            Rank::Five => 5,
            Rank::Six => 6,
            Rank::Seven => 7,
            Rank::Eight => 8,
            Rank::Nine => 9,
            Rank::Ten => 10,
            Rank::Jack => 11,
            Rank::Queen => 12,
            Rank::King => 13,
            Rank::Ace => 14,
        }
    }

    /// The rank as printed on a card ("2" .. "10", "J", "Q", "K", "A").
    pub fn to_string(&self) -> (s: String)
        ensures
            s@ == rank_text(*self),
    {
        match self {
            Rank::Two => String::from_str("2"),
            Rank::Three => String::from_str("3"),
            Rank::Four => String::from_str("4"),
            Rank::Five => String::from_str("5"),
            Rank::Six => String::from_str("6"),
            Rank::Seven => String::from_str("7"),
            Rank::Eight => String::from_str("8"),
            Rank::Nine => String::from_str("9"),
            Rank::Ten => String::from_str("10"),
            Rank::Jack => String::from_str("J"),
            Rank::Queen => String::from_str("Q"),
            Rank::King => String::from_str("K"),
            Rank::Ace => String::from_str("A"),
        }
    }
}

impl Card {
    pub fn new(rank: Rank, suit: Suit) -> (c: Card)
        ensures
            c.rank == rank,
            c.suit == suit,
    {
        Card { rank, suit }
    }

    /// The card as rank followed by suit symbol, e.g. "10♥".
    pub fn to_string(&self) -> (s: String)
        ensures
            s@ == rank_text(self.rank) + suit_text(self.suit),
    {
        let r = self.rank.to_string();
        let s = self.suit.to_string();
        r.concat(s.as_str())
    }
}

/// A copy of `v`.
pub fn copy_cards(v: &Vec<Card>) -> (r: Vec<Card>)
    ensures
        r@ == v@,
{
    let mut r: Vec<Card> = Vec::new();
    let mut i: usize = 0;
    while i < v.len()
        invariant
            i <= v@.len(),
            r@ == v@.take(i as int),
        decreases v@.len() - i,
    {
        r.push(v[i]);
        i = i + 1;
        assert(r@ =~= v@.take(i as int));
    }
    assert(v@.take(v@.len() as int) =~= v@);
    r
}

} // verus!

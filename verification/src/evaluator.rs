use vstd::prelude::*;

use crate::card::{lemma_rank_value_bounds, rank_of_value, rank_value, Card, Rank};

verus! {

/// The hierarchy of poker hands, from lowest to highest.
/// Because of the order in the enum and the derived traits,
/// RoyalFlush > OnePair, and hands of one kind compare by their ranks in order.
#[derive(Debug, Clone, Copy, PartialEq, Eq, PartialOrd, Ord)]
pub enum HandRank {
    HighCard([Rank; 5]),
    OnePair(Rank, [Rank; 3]),
    TwoPair(Rank, Rank, Rank),
    ThreeOfAKind(Rank, [Rank; 2]),
    Straight(Rank),
    Flush([Rank; 5]),
    FullHouse(Rank, Rank),
    FourOfAKind(Rank, Rank),
    StraightFlush(Rank),
    RoyalFlush,
}

/// How many of `cards` have a rank of value `v`.
pub open spec fn count_value(cards: Seq<Card>, v: int) -> nat
    decreases cards.len(),
{
    if cards.len() == 0 {
        0
    } else {
        count_value(cards.drop_last(), v) + if rank_value(cards.last().rank) == v {
            1nat
        } else {
            0nat
        }
    }
}

/// How many of `cards` have a rank of value above `v`.
pub open spec fn count_above(cards: Seq<Card>, v: int) -> nat
    decreases cards.len(),
{
    if cards.len() == 0 {
        0
    } else {
        count_above(cards.drop_last(), v) + if rank_value(cards.last().rank) > v {
            1nat
        } else {
            0nat
        }
    }
}

/// The ranks of `cards` whose value is above `v`, from highest to lowest,
/// each repeated as often as it occurs.
pub open spec fn ranks_above(cards: Seq<Card>, v: int) -> Seq<Rank>
    decreases 14 - v,
{
    if v >= 14 {
        Seq::empty()
    } else {
        ranks_above(cards, v + 1) + Seq::new(count_value(cards, v + 1), |i: int| rank_of_value(v + 1))
    }
}

/// The ranks of all `cards`, sorted from highest to lowest.
pub open spec fn ranks_high_to_low(cards: Seq<Card>) -> Seq<Rank> {
    ranks_above(cards, 1)
}

proof fn lemma_count_split(cards: Seq<Card>, v: int)
    ensures
        count_above(cards, v) == count_above(cards, v + 1) + count_value(cards, v + 1),
    decreases cards.len(),
{
    if cards.len() > 0 {
        lemma_count_split(cards.drop_last(), v);
    }
}

proof fn lemma_count_above_all(cards: Seq<Card>)
    ensures
        count_above(cards, 1) == cards.len(),
        count_above(cards, 14) == 0,
    decreases cards.len(),
{
    if cards.len() > 0 {
        lemma_count_above_all(cards.drop_last());
        lemma_rank_value_bounds(cards.last().rank);
    }
}

proof fn lemma_ranks_above_len(cards: Seq<Card>, v: int)
    requires
        v <= 14,
    ensures
        ranks_above(cards, v).len() == count_above(cards, v),
    decreases 14 - v,
{
    if v >= 14 {
        lemma_count_above_all(cards);
    } else {
        lemma_ranks_above_len(cards, v + 1);
        lemma_count_split(cards, v);
    }
}

/// The ranks of all cards, highest first, have as many entries as there are cards.
pub proof fn lemma_ranks_high_to_low_len(cards: Seq<Card>)
    ensures
        ranks_high_to_low(cards).len() == cards.len(),
{
    lemma_ranks_above_len(cards, 1);
    lemma_count_above_all(cards);
}

/// The value of each entry of `ranks_above(cards, v)` lies above `v`, and entries never increase.
pub proof fn lemma_ranks_above_sorted(cards: Seq<Card>, v: int)
    requires
        1 <= v <= 14,
    ensures
        forall|i: int|
            0 <= i < ranks_above(cards, v).len() ==> v < rank_value(
                #[trigger] ranks_above(cards, v)[i],
            ) <= 14,
        forall|i: int, j: int|
            0 <= i <= j < ranks_above(cards, v).len() ==> rank_value(
                #[trigger] ranks_above(cards, v)[i],
            ) >= rank_value(#[trigger] ranks_above(cards, v)[j]),
    decreases 14 - v,
{
    if v < 14 {
        lemma_ranks_above_sorted(cards, v + 1);
        let a = ranks_above(cards, v + 1);
        let b = Seq::new(count_value(cards, v + 1), |i: int| rank_of_value(v + 1));
        assert(rank_value(rank_of_value(v + 1)) == v + 1);
        assert forall|i: int| 0 <= i < (a + b).len() implies v < rank_value(#[trigger] (a + b)[i])
            <= 14 by {
            if i >= a.len() {
                assert((a + b)[i] == b[i - a.len()]);
            }
        }
    }
}

/// Evaluates a hand of at least five cards.
/// The evaluation is a skeleton that always reports a high-card hand: the five
/// highest ranks among the cards, highest first.
pub fn evaluate(cards: &[Card]) -> (h: HandRank)
    requires
        cards@.len() >= 5,
    ensures
        h matches HandRank::HighCard(top) && top@ == ranks_high_to_low(cards@).take(5),
{
    let n = cards.len();
    let mut counts: Vec<usize> = Vec::new();
    while counts.len() < 13
        invariant
            counts@.len() <= 13,
            forall|k: int| 0 <= k < counts@.len() ==> counts@[k] == 0,
        decreases 13 - counts@.len(),
    {
        counts.push(0);
    }
    assert forall|k: int| 0 <= k < 13 implies counts@[k] == count_value(cards@.take(0), k + 2) by {
    }
    let mut i: usize = 0;
    while i < n
        invariant
            n == cards@.len(),
            i <= n,
            counts@.len() == 13,
            forall|k: int| 0 <= k < 13 ==> #[trigger] counts@[k] == count_value(cards@.take(i as int), k + 2),
            forall|k: int| 0 <= k < 13 ==> #[trigger] counts@[k] <= i,
        decreases n - i,
    {
        let c = cards[i];
        let k = (c.rank.value() - 2) as usize;
        proof {
            lemma_rank_value_bounds(c.rank);
            assert(cards@.take(i + 1).drop_last() =~= cards@.take(i as int));
        }
        let old_count = counts[k];
        counts.set(k, old_count + 1);
        i = i + 1;
    }
    assert(cards@.take(n as int) =~= cards@);
    let ranks = Rank::all();
    let mut out: Vec<Rank> = Vec::new();
    let mut v: usize = 14;
    while v >= 2
        invariant
            1 <= v <= 14,
            counts@.len() == 13,
            forall|k: int| 0 <= k < 13 ==> #[trigger] counts@[k] == count_value(cards@, k + 2),
            forall|k: int| 0 <= k < 13 ==> ranks@[k] == rank_of_value(k + 2),
            out@ == ranks_above(cards@, v as int),
        decreases v,
    {
        let c = counts[v - 2];
        let r = ranks[v - 2];
        let mut j: usize = 0;
        while j < c
            invariant
                2 <= v <= 14,
                j <= c,
                r == rank_of_value(v as int),
                out@ == ranks_above(cards@, v as int) + Seq::new(j as nat, |t: int| rank_of_value(v as int)),
            decreases c - j,
        {
            out.push(r);
            j = j + 1;
            assert(out@ =~= ranks_above(cards@, v as int) + Seq::new(j as nat, |t: int| rank_of_value(v as int)));
        }
        assert(out@ =~= ranks_above(cards@, v - 1));
        v = v - 1;
    }
    proof {
        lemma_ranks_high_to_low_len(cards@);
    }
    let top = [out[0], out[1], out[2], out[3], out[4]];
    assert(top@ =~= ranks_high_to_low(cards@).take(5));
    HandRank::HighCard(top)
}

/// The comparison key of a hand: the position of its kind in the hierarchy,
/// then the values of its ranks in the order they are listed.
pub open spec fn hand_key(h: HandRank) -> Seq<u8> {
    match h {
        HandRank::HighCard(a) => seq![0u8] + ranks_key(a@),
        HandRank::OnePair(p, a) => seq![1u8, rank_value(p) as u8] + ranks_key(a@),
        HandRank::TwoPair(x, y, z) => seq![
            2u8,
            rank_value(x) as u8,
            rank_value(y) as u8,
            rank_value(z) as u8,
        ],
        HandRank::ThreeOfAKind(t, a) => seq![3u8, rank_value(t) as u8] + ranks_key(a@),
        HandRank::Straight(x) => seq![4u8, rank_value(x) as u8],
        HandRank::Flush(a) => seq![5u8] + ranks_key(a@),
        HandRank::FullHouse(x, y) => seq![6u8, rank_value(x) as u8, rank_value(y) as u8],
        HandRank::FourOfAKind(x, y) => seq![7u8, rank_value(x) as u8, rank_value(y) as u8],
        HandRank::StraightFlush(x) => seq![8u8, rank_value(x) as u8],
        HandRank::RoyalFlush => seq![9u8],
    }
}

pub open spec fn ranks_key(rs: Seq<Rank>) -> Seq<u8> {
    rs.map_values(|r: Rank| rank_value(r) as u8)
}

/// Lexicographic order on keys; a proper prefix comes first.
pub open spec fn key_less(a: Seq<u8>, b: Seq<u8>) -> bool
    decreases a.len(),
{
    if a.len() == 0 {
        b.len() > 0
    } else if b.len() == 0 {
        false
    } else if a[0] < b[0] {
        true
    } else if a[0] > b[0] {
        false
    } else {
        key_less(a.drop_first(), b.drop_first())
    }
}

fn push_ranks(key: &mut Vec<u8>, rs: &[Rank])
    ensures
        final(key)@ == old(key)@ + ranks_key(rs@),
{
    let mut i: usize = 0;
    while i < rs.len()
        invariant
            i <= rs@.len(),
            key@ == old(key)@ + ranks_key(rs@.take(i as int)),
        decreases rs@.len() - i,
    {
        key.push(rs[i].value());
        i = i + 1;
        assert(ranks_key(rs@.take(i as int)) =~= ranks_key(rs@.take(i - 1)).push(
            rank_value(rs@[i - 1]) as u8,
        ));
    }
    assert(rs@.take(rs@.len() as int) =~= rs@);
}

/// The comparison key of a hand (see `hand_key`).
pub fn hand_key_of(h: &HandRank) -> (k: Vec<u8>)
    ensures
        k@ == hand_key(*h),
{
    let mut k: Vec<u8> = Vec::new();
    match h {
        HandRank::HighCard(a) => {
            k.push(0);
            push_ranks(&mut k, a);
        },
        HandRank::OnePair(p, a) => {
            k.push(1);
            k.push(p.value());
            push_ranks(&mut k, a);
        },
        HandRank::TwoPair(x, y, z) => {
            k.push(2);
            k.push(x.value());
            k.push(y.value());
            k.push(z.value());
        },
        HandRank::ThreeOfAKind(t, a) => {
            k.push(3);
            k.push(t.value());
            push_ranks(&mut k, a);
        },
        HandRank::Straight(x) => {
            k.push(4);
            k.push(x.value());
        },
        HandRank::Flush(a) => {
            k.push(5);
            push_ranks(&mut k, a);
        },
        HandRank::FullHouse(x, y) => {
            k.push(6);
            k.push(x.value());
            k.push(y.value());
        },
        HandRank::FourOfAKind(x, y) => {
            k.push(7);
            k.push(x.value());
            k.push(y.value());
        },
        HandRank::StraightFlush(x) => {
            k.push(8);
            k.push(x.value());
        },
        HandRank::RoyalFlush => {
            k.push(9);
        },
    }
    assert(k@ =~= hand_key(*h));
    k
}

/// Whether key `a` comes before key `b` (see `key_less`).
pub fn key_before(a: &Vec<u8>, b: &Vec<u8>) -> (r: bool)
    ensures
        r == key_less(a@, b@),
{
    let mut i: usize = 0;
    assert(a@.skip(0) =~= a@ && b@.skip(0) =~= b@);
    while i < a.len() && i < b.len()
        invariant
            i <= a@.len(),
            i <= b@.len(),
            forall|j: int| 0 <= j < i ==> a@[j] == b@[j],
            key_less(a@, b@) == key_less(a@.skip(i as int), b@.skip(i as int)),
        decreases a@.len() - i,
    {
        if a[i] < b[i] {
            return true;
        }
        if a[i] > b[i] {
            return false;
        }
        assert(a@.skip(i as int).drop_first() =~= a@.skip(i + 1));
        assert(b@.skip(i as int).drop_first() =~= b@.skip(i + 1));
        i = i + 1;
    }
    i == a.len() && i < b.len()
}

pub open spec fn hand_name_text(h: HandRank) -> Seq<char> {
    match h {
        HandRank::HighCard(..) => "HighCard"@,
        HandRank::OnePair(..) => "OnePair"@,
        HandRank::TwoPair(..) => "TwoPair"@,
        HandRank::ThreeOfAKind(..) => "ThreeOfAKind"@,
        HandRank::Straight(..) => "Straight"@,
        HandRank::Flush(..) => "Flush"@,
        HandRank::FullHouse(..) => "FullHouse"@,
        HandRank::FourOfAKind(..) => "FourOfAKind"@,
        HandRank::StraightFlush(..) => "StraightFlush"@,
        HandRank::RoyalFlush => "RoyalFlush"@,
    }
}

/// The name of the hand's kind, as written in the enum (e.g. "FullHouse").
pub fn hand_name(h: &HandRank) -> (s: String)
    ensures
        s@ == hand_name_text(*h),
{
    match h {
        HandRank::HighCard(..) => String::from_str("HighCard"),
        HandRank::OnePair(..) => String::from_str("OnePair"),
        HandRank::TwoPair(..) => String::from_str("TwoPair"),
        HandRank::ThreeOfAKind(..) => String::from_str("ThreeOfAKind"),
        HandRank::Straight(..) => String::from_str("Straight"),
        HandRank::Flush(..) => String::from_str("Flush"),
        HandRank::FullHouse(..) => String::from_str("FullHouse"),
        HandRank::FourOfAKind(..) => String::from_str("FourOfAKind"),
        HandRank::StraightFlush(..) => String::from_str("StraightFlush"),
        HandRank::RoyalFlush => String::from_str("RoyalFlush"),
    }
}


/// The five ranks a high-card evaluation reports never increase from first to last,
/// and the sorted ranks hold as many entries as there are cards.
pub proof fn law_high_card_ranks_descend(cards: Seq<Card>)
    requires
        cards.len() >= 5,
    ensures
        ranks_high_to_low(cards).len() == cards.len(),
        forall|i: int, j: int|
            0 <= i <= j < 5 ==> rank_value(#[trigger] ranks_high_to_low(cards)[i]) >= rank_value(
                #[trigger] ranks_high_to_low(cards)[j],
            ),
{
    lemma_ranks_high_to_low_len(cards);
    lemma_ranks_above_sorted(cards, 1);
}

} // verus!

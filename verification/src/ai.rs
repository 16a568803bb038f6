//! Monte Carlo estimate of a hand's chances: deal the unseen cards at random many
//! times and count how often the hand wins or ties.
use vstd::prelude::*;

use crate::card::{copy_cards, full_deck, Card};
use crate::deck::shuffle_cards;
use crate::evaluator::{
    evaluate, hand_key, hand_key_of, key_before, key_less, ranks_high_to_low, ranks_key,
};
use crate::rules::drawn_cards;

verus! {

/// How one simulated deal ends for the hand.
#[derive(Debug, Clone, Copy, PartialEq, Eq, Structural)]
pub enum SimOutcome {
    Win,
    Tie,
    Loss,
}

/// The key of the hand the evaluator finds in `cards` (at least five of them).
pub open spec fn evaluation_key(cards: Seq<Card>) -> Seq<u8> {
    seq![0u8] + ranks_key(ranks_high_to_low(cards).take(5))
}

/// The cards of the fresh-deck order among the first `k` that are neither in `mine`
/// nor on the board, in that order.
pub open spec fn unseen_upto(mine: Seq<Card>, board: Seq<Card>, k: int) -> Seq<Card>
    decreases k,
{
    if k <= 0 {
        Seq::empty()
    } else {
        let prev = unseen_upto(mine, board, k - 1);
        let c = full_deck()[k - 1];
        if mine.contains(c) || board.contains(c) {
            prev
        } else {
            prev.push(c)
        }
    }
}

/// The 52 cards, in fresh-deck order, less the known ones.
pub open spec fn unseen(mine: Seq<Card>, board: Seq<Card>) -> Seq<Card> {
    unseen_upto(mine, board, 52)
}

/// The board once completed to five cards from the end of `deck`.
pub open spec fn completed_board(board: Seq<Card>, deck: Seq<Card>) -> Seq<Card> {
    board + drawn_cards(deck, 5 - board.len())
}

/// The two cards opponent `o` receives: drawn from `deck` after the board, two by two.
pub open spec fn opponent_cards(board: Seq<Card>, deck: Seq<Card>, o: int) -> Seq<Card> {
    let start = deck.len() - (5 - board.len()) - 2 * o;
    seq![deck[start - 1], deck[start - 2]]
}

pub open spec fn opponent_key(board: Seq<Card>, deck: Seq<Card>, o: int) -> Seq<u8> {
    evaluation_key(completed_board(board, deck) + opponent_cards(board, deck, o))
}

/// How a deal from `deck` ends for `mine` against `opponents` opponents: a loss when some
/// opponent's hand is stronger, else a tie when some opponent's hand is as strong, else a win.
pub open spec fn deal_outcome(mine: Seq<Card>, board: Seq<Card>, deck: Seq<Card>, opponents: int) -> SimOutcome {
    let my_key = evaluation_key(completed_board(board, deck) + mine);
    if exists|o: int| 0 <= o < opponents && key_less(my_key, #[trigger] opponent_key(board, deck, o)) {
        SimOutcome::Loss
    } else if exists|o: int| 0 <= o < opponents && #[trigger] opponent_key(board, deck, o) == my_key {
        SimOutcome::Tie
    } else {
        SimOutcome::Win
    }
}

/// Whether `c` is among `cards`.
fn holds_card(cards: &[Card], c: Card) -> (r: bool)
    ensures
        r == cards@.contains(c),
{
    let mut i: usize = 0;
    while i < cards.len()
        invariant
            i <= cards@.len(),
            forall|j: int| 0 <= j < i ==> cards@[j] != c,
        decreases cards@.len() - i,
    {
        if cards[i].suit == c.suit && cards[i].rank == c.rank {
            assert(cards@[i as int] == c);
            return true;
        }
        i = i + 1;
    }
    false
}

/// The cards neither in `my_cards` nor among `community_cards`, in fresh-deck order.
pub fn unseen_cards(my_cards: &[Card], community_cards: &[Card]) -> (r: Vec<Card>)
    ensures
        r@ == unseen(my_cards@, community_cards@),
{
    let ordered = crate::deck::ordered_cards();
    let mut r: Vec<Card> = Vec::new();
    let mut k: usize = 0;
    while k < 52
        invariant
            ordered@ == full_deck(),
            k <= 52,
            r@ == unseen_upto(my_cards@, community_cards@, k as int),
        decreases 52 - k,
    {
        let c = ordered[k];
        if !holds_card(my_cards, c) && !holds_card(community_cards, c) {
            r.push(c);
        }
        k = k + 1;
    }
    r
}

/// One deal from `deck` (cards are drawn from its end): the board is completed to five
/// cards, then each opponent receives two cards, and the hands are compared.
pub fn simulate_deal(
    my_cards: &[Card],
    community_cards: &[Card],
    deck: &Vec<Card>,
    num_opponents: usize,
) -> (r: SimOutcome)
    requires
        my_cards@.len() == 2,
        community_cards@.len() <= 5,
        deck@.len() >= (5 - community_cards@.len()) + 2 * num_opponents,
    ensures
        r == deal_outcome(my_cards@, community_cards@, deck@, num_opponents as int),
{
    let mut sim_deck = copy_cards(deck);
    let needed = 5 - community_cards.len();
    let mut board: Vec<Card> = Vec::new();
    let mut i: usize = 0;
    while i < community_cards.len()
        invariant
            i <= community_cards@.len(),
            board@ == community_cards@.take(i as int),
        decreases community_cards@.len() - i,
    {
        board.push(community_cards[i]);
        i = i + 1;
        assert(board@ =~= community_cards@.take(i as int));
    }
    assert(community_cards@.take(community_cards@.len() as int) =~= community_cards@);
    let ghost d0 = deck@;
    let mut t: usize = 0;
    while t < needed
        invariant
            needed == 5 - community_cards@.len(),
            t <= needed,
            d0.len() >= needed + 2 * num_opponents,
            sim_deck@ == d0.take(d0.len() - t),
            board@ == community_cards@ + drawn_cards(d0, t as int),
        decreases needed - t,
    {
        let c = sim_deck.pop().unwrap();
        board.push(c);
        t = t + 1;
        assert(board@ =~= community_cards@ + drawn_cards(d0, t as int));
        assert(sim_deck@ =~= d0.take(d0.len() - t));
    }
    let ghost full_board = completed_board(community_cards@, d0);
    assert(board@ == full_board);
    let mut mine: Vec<Card> = copy_cards(&board);
    mine.push(my_cards[0]);
    mine.push(my_cards[1]);
    assert(mine@ =~= full_board + my_cards@);
    let my_hand = evaluate(mine.as_slice());
    let my_key = hand_key_of(&my_hand);
    assert(my_key@ =~= evaluation_key(full_board + my_cards@));
    let mut tied = false;
    let mut o: usize = 0;
    while o < num_opponents
        invariant
            o <= num_opponents,
            d0.len() >= needed + 2 * num_opponents,
            needed == 5 - community_cards@.len(),
            board@ == full_board,
            full_board == completed_board(community_cards@, d0),
            d0 == deck@,
            full_board.len() == 5,
            sim_deck@ == d0.take(d0.len() - needed - 2 * o),
            my_key@ == evaluation_key(full_board + my_cards@),
            forall|q: int| 0 <= q < o ==> !key_less(my_key@, #[trigger] opponent_key(community_cards@, d0, q)),
            tied == exists|q: int| 0 <= q < o && #[trigger] opponent_key(community_cards@, d0, q) == my_key@,
        decreases num_opponents - o,
    {
        let c1 = sim_deck.pop().unwrap();
        let c2 = sim_deck.pop().unwrap();
        let mut opp: Vec<Card> = copy_cards(&board);
        opp.push(c1);
        opp.push(c2);
        assert(opp@ =~= full_board + opponent_cards(community_cards@, d0, o as int));
        let opp_hand = evaluate(opp.as_slice());
        let opp_key = hand_key_of(&opp_hand);
        assert(opp_key@ =~= evaluation_key(opp@));
        assert(opp@ == completed_board(community_cards@, d0) + opponent_cards(community_cards@, d0, o as int));
        assert(opp_key@ =~= opponent_key(community_cards@, d0, o as int));
        if key_before(&my_key, &opp_key) {
            assert(exists|q: int| 0 <= q < num_opponents && key_less(my_key@, #[trigger] opponent_key(community_cards@, d0, q)));
            return SimOutcome::Loss;
        }
        if !key_before(&opp_key, &my_key) && keys_match(&opp_key, &my_key) {
            tied = true;
        }
        o = o + 1;
        assert(sim_deck@ =~= d0.take(d0.len() - needed - 2 * o));
    }
    if tied {
        SimOutcome::Tie
    } else {
        SimOutcome::Win
    }
}

/// Whether two keys are equal.
fn keys_match(a: &Vec<u8>, b: &Vec<u8>) -> (r: bool)
    ensures
        r == (a@ == b@),
{
    if a.len() != b.len() {
        return false;
    }
    let mut i: usize = 0;
    while i < a.len()
        invariant
            a@.len() == b@.len(),
            i <= a@.len(),
            forall|j: int| 0 <= j < i ==> a@[j] == b@[j],
        decreases a@.len() - i,
    {
        if a[i] != b[i] {
            return false;
        }
        i = i + 1;
    }
    assert(a@ =~= b@);
    true
}

/// How many of the deals from `decks` end with `o` for `mine`.
pub open spec fn count_outcome(
    mine: Seq<Card>,
    board: Seq<Card>,
    decks: Seq<Seq<Card>>,
    opponents: int,
    o: SimOutcome,
) -> nat
    decreases decks.len(),
{
    if decks.len() == 0 {
        0
    } else {
        count_outcome(mine, board, decks.drop_last(), opponents, o) + if deal_outcome(
            mine,
            board,
            decks.last(),
            opponents,
        ) == o {
            1nat
        } else {
            0nat
        }
    }
}

/// Every deck of `decks` holds exactly the cards of `cards`, in some order.
pub open spec fn orders_of(decks: Seq<Seq<Card>>, cards: Seq<Card>) -> bool {
    forall|k: int|
        0 <= k < decks.len() ==> (#[trigger] decks[k]).len() == cards.len() && decks[k].to_multiset()
            == cards.to_multiset()
}

/// Plays `iterations` random deals of the unseen cards and counts the deals the hand
/// `my_cards` wins outright and those it ties, against `num_opponents` opponents.
/// Counts nothing when the hand is not two cards or there is no opponent. Each deal is
/// `simulate_deal` on a random order of `unseen_cards(my_cards, community_cards)`.
pub fn win_counts(
    my_cards: &[Card],
    community_cards: &[Card],
    num_opponents: usize,
    iterations: usize,
) -> (r: (u64, u64))
    requires
        community_cards@.len() <= 5,
        my_cards@.len() == 2 && num_opponents > 0 ==> unseen(my_cards@, community_cards@).len()
            >= (5 - community_cards@.len()) + 2 * num_opponents,
    ensures
        my_cards@.len() != 2 || num_opponents == 0 ==> r == (0u64, 0u64),
        my_cards@.len() == 2 && num_opponents > 0 ==> exists|decks: Seq<Seq<Card>>|
            {
                &&& decks.len() == iterations
                &&& #[trigger] orders_of(decks, unseen(my_cards@, community_cards@))
                &&& r.0 == count_outcome(
                    my_cards@,
                    community_cards@,
                    decks,
                    num_opponents as int,
                    SimOutcome::Win,
                )
                &&& r.1 == count_outcome(
                    my_cards@,
                    community_cards@,
                    decks,
                    num_opponents as int,
                    SimOutcome::Tie,
                )
            },
        r.0 + r.1 <= iterations,
{
    if my_cards.len() != 2 || num_opponents == 0 {
        return (0, 0);
    }
    let full_deck = unseen_cards(my_cards, community_cards);
    let mut wins: u64 = 0;
    let mut ties: u64 = 0;
    let mut k: usize = 0;
    let ghost mut decks: Seq<Seq<Card>> = Seq::empty();
    let ghost mine = my_cards@;
    let ghost board = community_cards@;
    let ghost n = num_opponents as int;
    while k < iterations
        invariant
            k <= iterations,
            wins + ties <= k,
            mine == my_cards@,
            board == community_cards@,
            n == num_opponents as int,
            my_cards@.len() == 2,
            community_cards@.len() <= 5,
            full_deck@ == unseen(my_cards@, community_cards@),
            full_deck@.len() >= (5 - community_cards@.len()) + 2 * num_opponents,
            decks.len() == k,
            orders_of(decks, full_deck@),
            wins == count_outcome(mine, board, decks, n, SimOutcome::Win),
            ties == count_outcome(mine, board, decks, n, SimOutcome::Tie),
        decreases iterations - k,
    {
        let mut sim_deck = copy_cards(&full_deck);
        shuffle_cards(&mut sim_deck);
        let outcome = simulate_deal(my_cards, community_cards, &sim_deck, num_opponents);
        proof {
            let before = decks;
            decks = decks.push(sim_deck@);
            assert(decks.drop_last() =~= before);
            assert(decks.last() == sim_deck@);
        }
        match outcome {
            SimOutcome::Win => {
                wins = wins + 1;
            },
            SimOutcome::Tie => {
                ties = ties + 1;
            },
            SimOutcome::Loss => {},
        }
        k = k + 1;
    }
    assert(orders_of(decks, unseen(my_cards@, community_cards@)));
    (wins, ties)
}

} // verus!

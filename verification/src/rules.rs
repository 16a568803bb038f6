//! The rules of a hand of Texas Hold'em as functions on a mathematical model
//! of the table. `GameState` (in `state`) is proved to follow them.
use vstd::prelude::*;
use vstd::multiset::Multiset;

use crate::card::Card;
use crate::evaluator::{hand_name_text, ranks_high_to_low, ranks_key, key_less, HandRank};
use crate::event::{EventView, GamePhase, PlayerAction};
use crate::player::PlayerModel;

verus! {

/// The small blind of a new table.
pub const SMALL_BLIND: u32 = 10;

/// The big blind of a new table.
pub const BIG_BLIND: u32 = 20;

/// The small blind of the first hands of a game (the local table, a server room).
pub const OPENING_SMALL_BLIND: u32 = 100;

/// The big blind of the first hands of a game (the local table, a server room).
pub const OPENING_BIG_BLIND: u32 = 200;

/// The blinds rise after every this many hands.
pub const HANDS_PER_LEVEL: u64 = 5;

/// The table: every field of `GameState`, with collections as sequences.
#[verifier::ext_equal]
pub struct GameModel {
    pub phase: GamePhase,
    pub players: Seq<PlayerModel>,
    pub deck: Seq<Card>,
    pub community: Seq<Card>,
    pub pot: u32,
    pub current_turn: usize,
    pub dealer_button: usize,
    pub highest: u32,
    pub min_raise: u32,
    pub small_blind: u32,
    pub big_blind: u32,
}

/// Why an action or a start was refused.
#[derive(Debug, Clone, Copy, PartialEq, Eq, Structural)]
pub enum GameError {
    NotEnoughPlayers,
    NotActive,
    NotYourTurn,
    CannotCheck,
    NotEnoughChips,
}

/// The message the game gives for each refusal.
pub open spec fn error_text(e: GameError) -> Seq<char> {
    match e {
        GameError::NotEnoughPlayers => "Not enough players to start."@,
        GameError::NotActive => "Game is not active."@,
        GameError::NotYourTurn => "It is not this player's turn."@,
        GameError::CannotCheck => "Cannot check. You must call or raise."@,
        GameError::NotEnoughChips => "Not enough chips to raise that amount."@,
    }
}

/// The text given as the reason when the last player standing takes the pot.
pub open spec fn folded_text() -> Seq<char> {
    "Everyone else folded"@
}

// ---------------------------------------------------------------- phases

/// A hand is being played: actions are taken.
pub open spec fn is_active(ph: GamePhase) -> bool {
    ph != GamePhase::WaitingForPlayers && ph != GamePhase::Finished
}

/// A betting round is under way.
pub open spec fn is_betting(ph: GamePhase) -> bool {
    ph == GamePhase::PreFlop || ph == GamePhase::Flop || ph == GamePhase::Turn || ph
        == GamePhase::River
}

pub open spec fn phase_order(ph: GamePhase) -> int {
    match ph {
        GamePhase::WaitingForPlayers => 0,
        GamePhase::PreFlop => 1,
        GamePhase::Flop => 2,
        GamePhase::Turn => 3,
        GamePhase::River => 4,
        GamePhase::Showdown => 5,
        GamePhase::Finished => 6,
    }
}

// ---------------------------------------------------------------- blind levels

/// A blind twice as high, or the largest amount when that does not fit.
pub open spec fn doubled(x: u32) -> u32 {
    if 2 * x > u32::MAX {
        u32::MAX
    } else {
        (2 * x) as u32
    }
}

/// The table for the hand that follows `hands_played` hands: after every fifth hand both
/// blinds double.
pub open spec fn leveled(m: GameModel, hands_played: u64) -> GameModel {
    if hands_played > 0 && hands_played % HANDS_PER_LEVEL == 0 {
        GameModel { small_blind: doubled(m.small_blind), big_blind: doubled(m.big_blind), ..m }
    } else {
        m
    }
}

/// The blind of the hand that follows `h` hands, in a game whose first hand was played
/// at `opening`: it doubles after every fifth hand.
pub open spec fn scheduled_blind(opening: u32, h: nat) -> u32
    decreases h,
{
    if h == 0 {
        opening
    } else if h % 5 == 0 {
        doubled(scheduled_blind(opening, (h - 1) as nat))
    } else {
        scheduled_blind(opening, (h - 1) as nat)
    }
}

/// The blind a table is at once `h` hands of a game have been started: the opening blind
/// before the first hand, else that of the last hand started.
pub open spec fn due_blind(opening: u32, h: u64) -> u32 {
    if h == 0 {
        opening
    } else {
        scheduled_blind(opening, (h - 1) as nat)
    }
}

// ---------------------------------------------------------------- players

/// Still in the hand with chips behind: the player can be asked to act.
pub open spec fn can_act(p: PlayerModel) -> bool {
    !p.is_folded && !p.is_all_in
}

/// The player owes nothing more in this betting round.
pub open spec fn settled(p: PlayerModel, highest: u32) -> bool {
    p.is_folded || p.is_all_in || (p.has_acted && p.current_bet == highest)
}

/// Every player has folded, is all-in, or has acted and matched the highest bet.
pub open spec fn round_complete(m: GameModel) -> bool {
    forall|i: int| 0 <= i < m.players.len() ==> #[trigger] settled(m.players[i], m.highest)
}

/// The sum of all stacks.
pub open spec fn total_chips(ps: Seq<PlayerModel>) -> int
    decreases ps.len(),
{
    if ps.len() == 0 {
        0
    } else {
        total_chips(ps.drop_last()) + ps.last().chips
    }
}

/// The number of players who have not folded.
pub open spec fn count_unfolded(ps: Seq<PlayerModel>) -> nat
    decreases ps.len(),
{
    if ps.len() == 0 {
        0
    } else {
        count_unfolded(ps.drop_last()) + if ps.last().is_folded {
            0nat
        } else {
            1nat
        }
    }
}

/// The number of players with chips.
pub open spec fn count_funded(ps: Seq<PlayerModel>) -> nat
    decreases ps.len(),
{
    if ps.len() == 0 {
        0
    } else {
        count_funded(ps.drop_last()) + if ps.last().chips > 0 {
            1nat
        } else {
            0nat
        }
    }
}

/// The first seat, in seat order, whose player has not folded.
pub open spec fn first_unfolded(ps: Seq<PlayerModel>) -> int
    decreases ps.len(),
{
    if ps.len() == 0 {
        0
    } else if count_unfolded(ps.drop_last()) > 0 {
        first_unfolded(ps.drop_last())
    } else {
        ps.len() - 1
    }
}

/// Looking at seats `from + k`, `from + k + 1`, ..., `from + n` (around the table),
/// the first whose player can act; `from % n` if there is none.
pub open spec fn actor_scan(ps: Seq<PlayerModel>, from: int, k: int) -> int
    decreases ps.len() + 1 - k,
{
    if k > ps.len() || k < 1 {
        from % (ps.len() as int)
    } else if can_act(ps[(from + k) % (ps.len() as int)]) {
        (from + k) % (ps.len() as int)
    } else {
        actor_scan(ps, from, k + 1)
    }
}

/// The next seat after `from` whose player can act; `from % n` if nobody can.
pub open spec fn next_actor(ps: Seq<PlayerModel>, from: int) -> int {
    actor_scan(ps, from, 1)
}

/// Looking at seats `from + k`, ..., `from + n`, the first whose player has chips;
/// `from % n` if there is none.
pub open spec fn funded_scan(ps: Seq<PlayerModel>, from: int, k: int) -> int
    decreases ps.len() + 1 - k,
{
    if k > ps.len() || k < 1 {
        from % (ps.len() as int)
    } else if ps[(from + k) % (ps.len() as int)].chips > 0 {
        (from + k) % (ps.len() as int)
    } else {
        funded_scan(ps, from, k + 1)
    }
}

/// The next seat after `from` whose player has chips; `from % n` if nobody has.
pub open spec fn next_funded(ps: Seq<PlayerModel>, from: int) -> int {
    funded_scan(ps, from, 1)
}

pub open spec fn set_player(m: GameModel, i: int, p: PlayerModel) -> GameModel {
    GameModel { players: m.players.update(i, p), ..m }
}

// ---------------------------------------------------------------- one action

/// The player puts `amount` more chips into the pot.
pub open spec fn pay(p: PlayerModel, amount: int) -> PlayerModel {
    PlayerModel {
        chips: (p.chips - amount) as u32,
        current_bet: (p.current_bet + amount) as u32,
        is_all_in: p.is_all_in || p.chips - amount == 0,
        ..p
    }
}

/// After a raise by seat `i`, every other player who can act must act again.
pub open spec fn reopen(ps: Seq<PlayerModel>, i: int) -> Seq<PlayerModel> {
    Seq::new(
        ps.len(),
        |j: int|
            if j != i && can_act(ps[j]) {
                PlayerModel { has_acted: false, ..ps[j] }
            } else {
                ps[j]
            },
    )
}

/// The effect of seat `i` taking `a`, and the refusal if any. A refused check or raise
/// still marks the player as having acted.
pub open spec fn apply_action(m: GameModel, i: int, a: PlayerAction) -> (GameModel, Option<GameError>) {
    let p = m.players[i];
    let acted = PlayerModel { has_acted: true, ..p };
    match a {
        PlayerAction::Fold => (set_player(m, i, PlayerModel { is_folded: true, ..acted }), None),
        PlayerAction::Check => {
            if p.current_bet < m.highest {
                (set_player(m, i, acted), Some(GameError::CannotCheck))
            } else {
                (set_player(m, i, acted), None)
            }
        },
        PlayerAction::Call => {
            let owed = m.highest - p.current_bet;
            let paid = if owed < p.chips {
                owed
            } else {
                p.chips as int
            };
            (
                GameModel {
                    players: m.players.update(i, pay(acted, paid)),
                    pot: (m.pot + paid) as u32,
                    ..m
                },
                None,
            )
        },
        PlayerAction::Raise(x) => {
            let needed = m.highest - p.current_bet + x;
            if p.chips < needed {
                (set_player(m, i, acted), Some(GameError::NotEnoughChips))
            } else {
                let q = pay(acted, needed);
                (
                    GameModel {
                        players: reopen(m.players.update(i, q), i),
                        pot: (m.pot + needed) as u32,
                        highest: q.current_bet,
                        ..m
                    },
                    None,
                )
            }
        },
    }
}

// ---------------------------------------------------------------- ending a hand early

/// Who is left to take the pot when at most one player is still in the hand: that
/// player, or, when seat `i` has just folded with nobody else left in it, seat `i`.
pub open spec fn last_standing(ps: Seq<PlayerModel>, i: int) -> int {
    if count_unfolded(ps) > 0 {
        first_unfolded(ps)
    } else {
        i
    }
}

/// The last player standing (see `last_standing`) takes the pot; the hand is over.
pub open spec fn early_win(m: GameModel, i: int) -> (GameModel, Seq<EventView>) {
    let w = last_standing(m.players, i);
    let p = m.players[w];
    (
        GameModel {
            phase: GamePhase::Finished,
            players: m.players.update(w, PlayerModel { chips: (p.chips + m.pot) as u32, ..p }),
            ..m
        },
        seq![
            EventView::PhaseChanged(GamePhase::Finished),
            EventView::PotAwarded(p.id, m.pot, folded_text()),
        ],
    )
}

// ---------------------------------------------------------------- streets

/// The `k` cards drawn from the end of `deck`, in the order they are drawn.
pub open spec fn drawn_cards(deck: Seq<Card>, k: int) -> Seq<Card> {
    Seq::new(k as nat, |j: int| deck[deck.len() - 1 - j])
}

/// Draws up to `count` cards onto the board (as many as the deck holds).
pub open spec fn deal(m: GameModel, count: int) -> (GameModel, Seq<EventView>) {
    let k = if count < m.deck.len() {
        count
    } else {
        m.deck.len() as int
    };
    let drawn = drawn_cards(m.deck, k);
    (
        GameModel {
            deck: m.deck.take(m.deck.len() - k),
            community: m.community + drawn,
            ..m
        },
        seq![EventView::PhaseChanged(m.phase), EventView::CommunityCardsRevealed(drawn)],
    )
}

/// Bets are cleared and everyone must act again.
pub open spec fn clear_bets(ps: Seq<PlayerModel>) -> Seq<PlayerModel> {
    ps.map_values(|p: PlayerModel| PlayerModel { current_bet: 0, has_acted: false, ..p })
}

/// Moves to the next street: bets cleared, board cards dealt, and the first player
/// after the dealer who can act is to act. After the river comes the showdown.
pub open spec fn advance_street(m: GameModel) -> (GameModel, Seq<EventView>) {
    let m1 = GameModel { players: clear_bets(m.players), highest: 0, ..m };
    let (m2, evs) = match m.phase {
        GamePhase::PreFlop => deal(GameModel { phase: GamePhase::Flop, ..m1 }, 3),
        GamePhase::Flop => deal(GameModel { phase: GamePhase::Turn, ..m1 }, 1),
        GamePhase::Turn => deal(GameModel { phase: GamePhase::River, ..m1 }, 1),
        GamePhase::River => (
            GameModel { phase: GamePhase::Showdown, ..m1 },
            seq![EventView::PhaseChanged(GamePhase::Showdown)],
        ),
        _ => (m1, Seq::empty()),
    };
    let m3 = GameModel {
        current_turn: next_actor(m2.players, m.dealer_button as int) as usize,
        ..m2
    };
    if m3.phase == GamePhase::Showdown {
        let (m4, evs2) = showdown(m3);
        (m4, evs + evs2)
    } else {
        (m3, evs)
    }
}

/// While a betting round is under way and nobody can act in it (everyone is folded
/// or all-in), the board is dealt on to the showdown.
pub open spec fn run_out(m: GameModel) -> (GameModel, Seq<EventView>)
    decreases 6 - phase_order(m.phase),
{
    if is_betting(m.phase) && round_complete(m) {
        let (m2, e2) = advance_street(m);
        if phase_order(m2.phase) > phase_order(m.phase) {
            let (m3, e3) = run_out(m2);
            (m3, e2 + e3)
        } else {
            (m2, e2)
        }
    } else {
        (m, Seq::empty())
    }
}

// ---------------------------------------------------------------- showdown

/// The seven (or more) cards a player plays with: hole cards and board.
pub open spec fn full_hand(m: GameModel, i: int) -> Seq<Card> {
    m.players[i].hole_cards + m.community
}

/// The strength of seat `i` at showdown: the key of its evaluated hand, or the empty
/// key (below every hand) when it holds fewer than five cards.
pub open spec fn showdown_key(m: GameModel, i: int) -> Seq<u8> {
    if full_hand(m, i).len() >= 5 {
        seq![0u8] + ranks_key(ranks_high_to_low(full_hand(m, i)).take(5))
    } else {
        Seq::empty()
    }
}

/// The name of the hand seat `i` shows down.
pub open spec fn showdown_name(m: GameModel, i: int) -> Seq<char> {
    if full_hand(m, i).len() >= 5 {
        "HighCard"@
    } else {
        Seq::empty()
    }
}

/// The strongest key among the players in seats below `k` who have not folded.
pub open spec fn best_key_upto(m: GameModel, k: int) -> Option<Seq<u8>>
    decreases k,
{
    if k <= 0 {
        None
    } else {
        let b = best_key_upto(m, k - 1);
        if m.players[k - 1].is_folded {
            b
        } else {
            match b {
                None => Some(showdown_key(m, k - 1)),
                Some(x) => if key_less(x, showdown_key(m, k - 1)) {
                    Some(showdown_key(m, k - 1))
                } else {
                    Some(x)
                },
            }
        }
    }
}

/// Seat `i` is in the hand and holds the strongest key.
pub open spec fn is_winner(m: GameModel, i: int) -> bool {
    &&& !m.players[i].is_folded
    &&& best_key_upto(m, m.players.len() as int) == Some(showdown_key(m, i))
}

/// The winning seats below `k`, in seat order.
pub open spec fn winners_upto(m: GameModel, k: int) -> Seq<int>
    decreases k,
{
    if k <= 0 {
        Seq::empty()
    } else if is_winner(m, k - 1) {
        winners_upto(m, k - 1).push(k - 1)
    } else {
        winners_upto(m, k - 1)
    }
}

pub open spec fn winners(m: GameModel) -> Seq<int> {
    winners_upto(m, m.players.len() as int)
}

/// What the `j`-th winner receives: an equal share, the first winner also the odd chips.
pub open spec fn share(pot: u32, count: int, j: int) -> int {
    if j == 0 {
        pot as int / count + pot as int % count
    } else {
        pot as int / count
    }
}

/// Pays the first `j` winners.
pub open spec fn pay_winners(m: GameModel, ws: Seq<int>, j: int) -> (Seq<PlayerModel>, Seq<EventView>)
    decreases j,
{
    if j <= 0 {
        (m.players, Seq::empty())
    } else {
        let (ps, evs) = pay_winners(m, ws, j - 1);
        let i = ws[j - 1];
        let amount = share(m.pot, ws.len() as int, j - 1);
        let p = ps[i];
        (
            ps.update(i, PlayerModel { chips: (p.chips + amount) as u32, ..p }),
            evs.push(EventView::PotAwarded(p.id, amount as u32, showdown_name(m, i))),
        )
    }
}

/// The players still in compare hands; the strongest split the pot; the hand is over.
pub open spec fn showdown(m: GameModel) -> (GameModel, Seq<EventView>) {
    let ws = winners(m);
    let (ps, evs) = pay_winners(m, ws, ws.len() as int);
    (
        GameModel { phase: GamePhase::Finished, players: ps, ..m },
        evs.push(EventView::PhaseChanged(GamePhase::Finished)),
    )
}

// ---------------------------------------------------------------- a whole turn

/// The table after seat `m.current_turn`, identified as `id`, takes action `a`,
/// together with the events, or the refusal.
pub open spec fn process(m: GameModel, id: usize, a: PlayerAction) -> (GameModel, Result<Seq<EventView>, GameError>) {
    if !is_active(m.phase) {
        (m, Err(GameError::NotActive))
    } else if m.players[m.current_turn as int].id != id {
        (m, Err(GameError::NotYourTurn))
    } else {
        let i = m.current_turn as int;
        let (m1, err) = apply_action(m, i, a);
        match err {
            Some(e) => (m1, Err(e)),
            None => {
                let ev0 = seq![EventView::PlayerActed(id, a)];
                if count_unfolded(m1.players) <= 1 {
                    let (m2, e2) = early_win(m1, i);
                    (m2, Ok(ev0 + e2))
                } else if round_complete(m1) {
                    let (m2, e2) = advance_street(m1);
                    let (m3, e3) = run_out(m2);
                    (m3, Ok(ev0 + e2 + e3))
                } else {
                    (GameModel { current_turn: next_actor(m1.players, i) as usize, ..m1 }, Ok(ev0))
                }
            },
        }
    }
}

// ---------------------------------------------------------------- starting a hand

/// Clears a player for a new hand: every seated player is dealt in.
pub open spec fn reset_for_hand(p: PlayerModel) -> PlayerModel {
    PlayerModel {
        is_folded: false,
        is_all_in: false,
        has_acted: false,
        current_bet: 0,
        hole_cards: Seq::empty(),
        ..p
    }
}

/// Deals two hole cards to each of the first `k` seats, drawing from the end of the deck,
/// one player at a time.
pub open spec fn deal_holes(ps: Seq<PlayerModel>, deck: Seq<Card>, k: int) -> (Seq<PlayerModel>, Seq<Card>)
    decreases k,
{
    if k <= 0 {
        (ps, deck)
    } else {
        let (ps1, d1) = deal_holes(ps, deck, k - 1);
        let take = if d1.len() < 2 {
            d1.len() as int
        } else {
            2
        };
        let p = ps1[k - 1];
        (
            ps1.update(
                k - 1,
                PlayerModel { hole_cards: p.hole_cards + drawn_cards(d1, take), ..p },
            ),
            d1.take(d1.len() - take),
        )
    }
}

/// Seat `i` posts a blind of `amount` (or all it has, if less).
pub open spec fn post_blind(m: GameModel, i: int, amount: u32) -> GameModel {
    let p = m.players[i];
    let paid = if amount < p.chips {
        amount as int
    } else {
        p.chips as int
    };
    GameModel {
        players: m.players.update(
            i,
            PlayerModel {
                chips: (p.chips - paid) as u32,
                current_bet: (p.current_bet + paid) as u32,
                is_all_in: !p.is_folded && p.chips - paid == 0,
                ..p
            },
        ),
        pot: (m.pot + paid) as u32,
        ..m
    }
}

/// The small-blind seat: the dealer when two players have chips, else the next
/// player with chips after the dealer.
pub open spec fn small_blind_seat(ps: Seq<PlayerModel>, dealer: int) -> int {
    if count_funded(ps) == 2 {
        dealer % (ps.len() as int)
    } else {
        next_funded(ps, dealer)
    }
}

/// The table after starting a hand with `deck` as the shuffled deck, and the events;
/// or the refusal when fewer than two players are seated.
pub open spec fn start(m: GameModel, deck: Seq<Card>) -> (GameModel, Result<Seq<EventView>, GameError>) {
    if m.players.len() < 2 {
        (m, Err(GameError::NotEnoughPlayers))
    } else {
        let n = m.players.len() as int;
        let reset = m.players.map_values(|p: PlayerModel| reset_for_hand(p));
        let (ps, d) = deal_holes(reset, deck, n);
        let m1 = GameModel {
            phase: GamePhase::PreFlop,
            players: ps,
            deck: d,
            community: Seq::empty(),
            pot: 0,
            highest: 0,
            min_raise: m.big_blind,
            ..m
        };
        let sb = small_blind_seat(m1.players, m.dealer_button as int);
        let bb = next_funded(m1.players, sb);
        let m2 = post_blind(m1, sb, m.small_blind);
        let m3 = post_blind(m2, bb, m.big_blind);
        let top = if m3.players[sb].current_bet < m3.players[bb].current_bet {
            m3.players[bb].current_bet
        } else {
            m3.players[sb].current_bet
        };
        let m4 = GameModel { highest: top, current_turn: next_actor(m3.players, bb) as usize, ..m3 };
        let (m5, e5) = run_out(m4);
        (
            m5,
            Ok(seq![EventView::GameStarted, EventView::PhaseChanged(GamePhase::PreFlop)] + e5),
        )
    }
}


// ---------------------------------------------------------------- facts about the counts

pub proof fn lemma_total_update(ps: Seq<PlayerModel>, i: int, q: PlayerModel)
    requires
        0 <= i < ps.len(),
    ensures
        total_chips(ps.update(i, q)) == total_chips(ps) - ps[i].chips + q.chips,
    decreases ps.len(),
{
    if i == ps.len() - 1 {
        assert(ps.update(i, q).drop_last() =~= ps.drop_last());
    } else {
        lemma_total_update(ps.drop_last(), i, q);
        assert(ps.update(i, q).drop_last() =~= ps.drop_last().update(i, q));
    }
}

pub proof fn lemma_total_bound(ps: Seq<PlayerModel>, i: int)
    requires
        0 <= i < ps.len(),
    ensures
        ps[i].chips <= total_chips(ps),
    decreases ps.len(),
{
    lemma_total_nonneg(ps.drop_last());
    if i < ps.len() - 1 {
        lemma_total_bound(ps.drop_last(), i);
    }
}

pub proof fn lemma_total_nonneg(ps: Seq<PlayerModel>)
    ensures
        total_chips(ps) >= 0,
    decreases ps.len(),
{
    if ps.len() > 0 {
        lemma_total_nonneg(ps.drop_last());
    }
}

/// Sequences of players with the same stacks seat by seat have the same total.
pub proof fn lemma_total_same(a: Seq<PlayerModel>, b: Seq<PlayerModel>)
    requires
        a.len() == b.len(),
        forall|i: int| 0 <= i < a.len() ==> #[trigger] a[i].chips == b[i].chips,
    ensures
        total_chips(a) == total_chips(b),
    decreases a.len(),
{
    if a.len() > 0 {
        lemma_total_same(a.drop_last(), b.drop_last());
    }
}

pub proof fn lemma_unfolded_same(a: Seq<PlayerModel>, b: Seq<PlayerModel>)
    requires
        a.len() == b.len(),
        forall|i: int| 0 <= i < a.len() ==> #[trigger] a[i].is_folded == b[i].is_folded,
    ensures
        count_unfolded(a) == count_unfolded(b),
        first_unfolded(a) == first_unfolded(b),
    decreases a.len(),
{
    if a.len() > 0 {
        lemma_unfolded_same(a.drop_last(), b.drop_last());
    }
}

pub proof fn lemma_funded_same(a: Seq<PlayerModel>, b: Seq<PlayerModel>)
    requires
        a.len() == b.len(),
        forall|i: int| 0 <= i < a.len() ==> (#[trigger] a[i].chips > 0) == (b[i].chips > 0),
    ensures
        count_funded(a) == count_funded(b),
    decreases a.len(),
{
    if a.len() > 0 {
        lemma_funded_same(a.drop_last(), b.drop_last());
    }
}

/// When some player has not folded, `first_unfolded` names the first such seat.
pub proof fn lemma_first_unfolded(ps: Seq<PlayerModel>)
    requires
        count_unfolded(ps) > 0,
    ensures
        0 <= first_unfolded(ps) < ps.len(),
        !ps[first_unfolded(ps)].is_folded,
        forall|j: int| 0 <= j < first_unfolded(ps) ==> #[trigger] ps[j].is_folded,
    decreases ps.len(),
{
    assert(forall|j: int| 0 <= j < ps.len() - 1 ==> ps.drop_last()[j] == ps[j]);
    if count_unfolded(ps.drop_last()) > 0 {
        lemma_first_unfolded(ps.drop_last());
    } else {
        lemma_none_unfolded(ps.drop_last());
    }
}

pub proof fn lemma_none_unfolded(ps: Seq<PlayerModel>)
    requires
        count_unfolded(ps) == 0,
    ensures
        forall|j: int| 0 <= j < ps.len() ==> #[trigger] ps[j].is_folded,
    decreases ps.len(),
{
    if ps.len() > 0 {
        lemma_none_unfolded(ps.drop_last());
        assert(forall|j: int| 0 <= j < ps.len() - 1 ==> ps.drop_last()[j] == ps[j]);
    }
}

// ---------------------------------------------------------------- a table the engine can work on

/// The bounds every operation keeps: the chips at stake fit in a `u32`, and while a hand
/// runs, the seat to act exists, no bet exceeds the highest bet, and a player's bet
/// (and stake in the hand) plus stack fit in a `u32`.
pub open spec fn well_formed(m: GameModel) -> bool {
    &&& m.players.len() <= usize::MAX
    &&& total_chips(m.players) + (if is_active(m.phase) {
        m.pot as int
    } else {
        0
    }) <= u32::MAX
    &&& is_active(m.phase) ==> {
        &&& m.current_turn < m.players.len()
        &&& forall|i: int|
            0 <= i < m.players.len() ==> {
                &&& #[trigger] m.players[i].current_bet <= m.highest
                &&& m.players[i].current_bet + m.players[i].chips <= u32::MAX
            }
    }
}


/// An action keeps the table well formed, moves chips only from the actor's stack into
/// the pot, and touches nothing but the players and the pot.
pub proof fn lemma_apply_action(m: GameModel, i: int, a: PlayerAction)
    requires
        well_formed(m),
        is_active(m.phase),
        0 <= i < m.players.len(),
    ensures
        ({
            let m1 = apply_action(m, i, a).0;
            &&& well_formed(m1)
            &&& total_chips(m1.players) + m1.pot == total_chips(m.players) + m.pot
            &&& m1.phase == m.phase
            &&& m1.deck == m.deck
            &&& m1.community == m.community
            &&& m1.current_turn == m.current_turn
            &&& m1.dealer_button == m.dealer_button
            &&& m1.min_raise == m.min_raise
            &&& m1.players.len() == m.players.len()
            &&& forall|j: int|
                0 <= j < m.players.len() ==> {
                    &&& (#[trigger] m1.players[j]).id == m.players[j].id
                    &&& m1.players[j].hole_cards == m.players[j].hole_cards
                    &&& m1.players[j].name == m.players[j].name
                    &&& (j != i ==> m1.players[j].is_folded == m.players[j].is_folded)
                    &&& (m.players[j].is_folded ==> m1.players[j].is_folded)
                }
        }),
{
    lemma_total_bound(m.players, i);
    let p = m.players[i];
    let acted = PlayerModel { has_acted: true, ..p };
    match a {
        PlayerAction::Fold => {
            lemma_total_update(m.players, i, PlayerModel { is_folded: true, ..acted });
        },
        PlayerAction::Check => {
            lemma_total_update(m.players, i, acted);
        },
        PlayerAction::Call => {
            let owed = m.highest - p.current_bet;
            let paid = if owed < p.chips {
                owed
            } else {
                p.chips as int
            };
            lemma_total_update(m.players, i, pay(acted, paid));
        },
        PlayerAction::Raise(x) => {
            let needed = m.highest - p.current_bet + x;
            if p.chips < needed {
                lemma_total_update(m.players, i, acted);
            } else {
                let q = pay(acted, needed);
                let ps1 = m.players.update(i, q);
                lemma_total_update(m.players, i, q);
                lemma_total_same(reopen(ps1, i), ps1);
            }
        },
    }
}


/// Looking at the first `k` seats: if all of them folded, none is counted; if the
/// seat `k` is the first that has not folded, it is `first_unfolded`.
pub proof fn lemma_unfolded_prefix(ps: Seq<PlayerModel>, k: int)
    requires
        0 <= k <= ps.len(),
        forall|j: int| 0 <= j < k ==> #[trigger] ps[j].is_folded,
    ensures
        k == ps.len() ==> count_unfolded(ps) == 0,
        k < ps.len() && !ps[k].is_folded ==> count_unfolded(ps) > 0 && first_unfolded(ps) == k,
    decreases ps.len(),
{
    if ps.len() > 0 {
        let d = ps.drop_last();
        assert(forall|j: int| 0 <= j < d.len() ==> d[j] == ps[j]);
        if k == ps.len() {
            lemma_unfolded_prefix(d, k - 1);
        } else if k < ps.len() - 1 {
            lemma_unfolded_prefix(d, k);
        } else {
            lemma_unfolded_prefix(d, k);
        }
    }
}


/// What the first `j` winners receive together.
pub open spec fn paid_upto(pot: u32, count: int, j: int) -> int
    decreases j,
{
    if j <= 0 {
        0
    } else {
        paid_upto(pot, count, j - 1) + share(pot, count, j - 1)
    }
}

/// The shares never exceed the pot, and all of them together are exactly the pot.
pub proof fn lemma_paid_upto(pot: u32, count: int, j: int)
    requires
        0 < count,
        0 <= j <= count,
    ensures
        paid_upto(pot, count, j) == j * (pot as int / count) + (if j > 0 {
            pot as int % count
        } else {
            0
        }),
        0 <= paid_upto(pot, count, j) <= pot,
        j == count ==> paid_upto(pot, count, j) == pot,
    decreases j,
{
    let q = pot as int / count;
    let r = pot as int % count;
    assert(pot as int == count * q + r && 0 <= r < count && q >= 0) by {
        vstd::arithmetic::div_mod::lemma_fundamental_div_mod(pot as int, count);
        vstd::arithmetic::div_mod::lemma_mod_bound(pot as int, count);
        vstd::arithmetic::div_mod::lemma_div_pos_is_pos(pot as int, count);
    }
    if j > 0 {
        lemma_paid_upto(pot, count, j - 1);
        assert((j - 1) * q + q == j * q) by (nonlinear_arith);
        assert(0 * q == 0) by (nonlinear_arith);
    } else {
        assert(0 * q == 0) by (nonlinear_arith);
    }
    assert(0 <= j * q <= count * q) by (nonlinear_arith)
        requires
            0 <= j <= count,
            q >= 0,
    ;
}

/// The winners below `k` are distinct seats below `k`, in increasing order.
pub proof fn lemma_winners_upto(m: GameModel, k: int)
    requires
        0 <= k,
    ensures
        forall|t: int|
            0 <= t < winners_upto(m, k).len() ==> 0 <= #[trigger] winners_upto(m, k)[t] < k,
        forall|t: int|
            0 <= t < winners_upto(m, k).len() ==> is_winner(m, #[trigger] winners_upto(m, k)[t]),
        forall|s: int, t: int|
            0 <= s < t < winners_upto(m, k).len() ==> winners_upto(m, k)[s] < winners_upto(m, k)[t],
    decreases k,
{
    if k > 0 {
        lemma_winners_upto(m, k - 1);
        let w = winners_upto(m, k - 1);
        if is_winner(m, k - 1) {
            assert(forall|t: int| 0 <= t < w.len() ==> #[trigger] w.push(k - 1)[t] == w[t]);
        }
    }
}

/// Paying the first `j` winners raises the stacks by what they receive, and changes nothing
/// but stacks.
pub proof fn lemma_pay_winners(m: GameModel, ws: Seq<int>, j: int)
    requires
        0 <= j <= ws.len(),
        forall|t: int| 0 <= t < ws.len() ==> 0 <= #[trigger] ws[t] < m.players.len(),
        total_chips(m.players) + m.pot <= u32::MAX,
    ensures
        ({
            let ps = pay_winners(m, ws, j).0;
            &&& ps.len() == m.players.len()
            &&& total_chips(ps) == total_chips(m.players) + paid_upto(m.pot, ws.len() as int, j)
            &&& forall|i: int|
                0 <= i < ps.len() ==> ps[i] == (PlayerModel { chips: ps[i].chips, ..m.players[i] })
            &&& pay_winners(m, ws, j).1.len() == j
        }),
    decreases j,
{
    if j > 0 {
        lemma_pay_winners(m, ws, j - 1);
        let (ps, evs) = pay_winners(m, ws, j - 1);
        let i = ws[j - 1];
        let amount = share(m.pot, ws.len() as int, j - 1);
        let p = ps[i];
        lemma_paid_upto(m.pot, ws.len() as int, j);
        lemma_paid_upto(m.pot, ws.len() as int, j - 1);
        lemma_total_bound(ps, i);
        lemma_total_update(ps, i, PlayerModel { chips: (p.chips + amount) as u32, ..p });
    }
}


/// The seat `d` places after `from` round a table of `n`.
pub open spec fn seat_after(from: int, d: int, n: int) -> int {
    (from + d) % n
}

/// The seat `next_actor` names exists.
pub proof fn lemma_actor_scan_range(ps: Seq<PlayerModel>, from: int, k: int)
    requires
        ps.len() > 0,
    ensures
        0 <= actor_scan(ps, from, k) < ps.len(),
    decreases ps.len() + 1 - k,
{
    if k > ps.len() || k < 1 {
    } else if can_act(ps[(from + k) % (ps.len() as int)]) {
    } else {
        lemma_actor_scan_range(ps, from, k + 1);
    }
}

/// When some player can act, `next_actor` names one who can.
pub proof fn lemma_actor_scan_finds(ps: Seq<PlayerModel>, from: int, k: int, w: int)
    requires
        ps.len() > 0,
        1 <= k,
        0 <= w < ps.len(),
        can_act(ps[w]),
        exists|d: int| k <= d <= ps.len() && #[trigger] seat_after(from, d, ps.len() as int) == w,
    ensures
        can_act(ps[actor_scan(ps, from, k)]),
    decreases ps.len() + 1 - k,
{
    let n = ps.len() as int;
    if k > n {
    } else if can_act(ps[(from + k) % n]) {
    } else {
        let d = choose|d: int| k <= d <= n && #[trigger] seat_after(from, d, n) == w;
        assert(d != k);
        lemma_actor_scan_finds(ps, from, k + 1, w);
    }
}

/// Every seat is reached within one round of the table from `from`.
pub proof fn lemma_seat_reached(n: int, from: int, w: int)
    requires
        n > 0,
        0 <= w < n,
        from >= 0,
    ensures
        exists|d: int| 1 <= d <= n && #[trigger] seat_after(from, d, n) == w,
{
    let f = from % n;
    vstd::arithmetic::div_mod::lemma_mod_bound(from, n);
    let d = if w > f {
        w - f
    } else {
        w - f + n
    };
    assert(seat_after(from, d, n) == w) by {
        vstd::arithmetic::div_mod::lemma_fundamental_div_mod(from, n);
        let q = from / n;
        assert(from + d == n * q + (f + d));
        vstd::arithmetic::div_mod::lemma_mod_multiples_vanish(q, f + d, n);
        if w > f {
            vstd::arithmetic::div_mod::lemma_small_mod((f + d) as nat, n as nat);
        } else {
            vstd::arithmetic::div_mod::lemma_mod_multiples_vanish(1, w, n);
            vstd::arithmetic::div_mod::lemma_small_mod(w as nat, n as nat);
        }
    }
}

/// Clearing bets changes no stack, and nobody's fold or all-in status.
pub proof fn lemma_clear_bets(ps: Seq<PlayerModel>)
    ensures
        total_chips(clear_bets(ps)) == total_chips(ps),
        count_unfolded(clear_bets(ps)) == count_unfolded(ps),
        clear_bets(ps).len() == ps.len(),
        forall|i: int|
            0 <= i < ps.len() ==> #[trigger] can_act(clear_bets(ps)[i]) == can_act(ps[i]),
{
    lemma_total_same(clear_bets(ps), ps);
    lemma_unfolded_same(clear_bets(ps), ps);
}

/// Moving to the next street keeps the table well formed and moves the phase forward.
pub proof fn lemma_advance_street(m: GameModel)
    requires
        well_formed(m),
        is_active(m.phase),
    ensures
        ({
            let m2 = advance_street(m).0;
            &&& well_formed(m2)
            &&& phase_order(m2.phase) > phase_order(m.phase)
            &&& m2.players.len() == m.players.len()
            &&& m2.dealer_button == m.dealer_button
        }),
{
    let n = m.players.len() as int;
    let m1 = GameModel { players: clear_bets(m.players), highest: 0, ..m };
    lemma_clear_bets(m.players);
    let m2 = match m.phase {
        GamePhase::PreFlop => deal(GameModel { phase: GamePhase::Flop, ..m1 }, 3).0,
        GamePhase::Flop => deal(GameModel { phase: GamePhase::Turn, ..m1 }, 1).0,
        GamePhase::Turn => deal(GameModel { phase: GamePhase::River, ..m1 }, 1).0,
        GamePhase::River => GameModel { phase: GamePhase::Showdown, ..m1 },
        _ => m1,
    };
    assert(m2.players == m1.players);
    let m3 = GameModel {
        current_turn: next_actor(m2.players, m.dealer_button as int) as usize,
        ..m2
    };
    lemma_actor_scan_range(m2.players, m.dealer_button as int, 1);
    assert forall|i: int| 0 <= i < n implies #[trigger] m1.players[i].current_bet
        + m1.players[i].chips <= u32::MAX by {
        lemma_total_bound(m.players, i);
        assert(m.players[i].current_bet <= m.highest);
        assert(m1.players[i].chips == m.players[i].chips);
    }
    if m3.phase == GamePhase::Showdown {
        let ws = winners(m3);
        lemma_winners_upto(m3, n);
        lemma_pay_winners(m3, ws, ws.len() as int);
        if ws.len() > 0 {
            lemma_paid_upto(m3.pot, ws.len() as int, ws.len() as int);
        }
    }
}


/// Taking the pot alone keeps the table well formed: the pot goes onto the stacks.
pub proof fn lemma_early_win(m: GameModel, i: int)
    requires
        count_unfolded(m.players) <= 1,
        0 <= i < m.players.len(),
        total_chips(m.players) + m.pot <= u32::MAX,
        m.players.len() <= usize::MAX,
    ensures
        well_formed(early_win(m, i).0),
        total_chips(early_win(m, i).0.players) == total_chips(m.players) + m.pot,
        0 <= last_standing(m.players, i) < m.players.len(),
{
    if count_unfolded(m.players) > 0 {
        lemma_first_unfolded(m.players);
    }
    let w = last_standing(m.players, i);
    let p = m.players[w];
    lemma_total_bound(m.players, w);
    lemma_total_update(m.players, w, PlayerModel { chips: (p.chips + m.pot) as u32, ..p });
}


/// Dealing hole cards to the first `k` seats touches only their hole cards.
pub proof fn lemma_deal_holes(ps: Seq<PlayerModel>, deck: Seq<Card>, k: int)
    requires
        0 <= k <= ps.len(),
    ensures
        deal_holes(ps, deck, k).0.len() == ps.len(),
        forall|t: int|
            0 <= t < ps.len() ==> #[trigger] deal_holes(ps, deck, k).0[t] == (PlayerModel {
                hole_cards: deal_holes(ps, deck, k).0[t].hole_cards,
                ..ps[t]
            }),
        forall|t: int| k <= t < ps.len() ==> #[trigger] deal_holes(ps, deck, k).0[t] == ps[t],
    decreases k,
{
    if k > 0 {
        lemma_deal_holes(ps, deck, k - 1);
    }
}

/// Posting a blind moves chips from one stack into the pot and keeps each player's
/// bet plus stack.
pub proof fn lemma_post_blind(m: GameModel, i: int, amount: u32)
    requires
        0 <= i < m.players.len(),
        total_chips(m.players) + m.pot <= u32::MAX,
        m.players[i].current_bet + m.players[i].chips <= u32::MAX,
    ensures
        ({
            let m2 = post_blind(m, i, amount);
            &&& total_chips(m2.players) + m2.pot == total_chips(m.players) + m.pot
            &&& m2.players.len() == m.players.len()
            &&& forall|t: int|
                0 <= t < m.players.len() && t != i ==> #[trigger] m2.players[t] == m.players[t]
            &&& m2.players[i].current_bet + m2.players[i].chips == m.players[i].current_bet
                + m.players[i].chips
            &&& m2.players[i].id == m.players[i].id
            &&& m2.players[i].is_folded == m.players[i].is_folded
            &&& m2.players[i].hole_cards == m.players[i].hole_cards
        }),
{
    let p = m.players[i];
    let paid = if amount < p.chips {
        amount as int
    } else {
        p.chips as int
    };
    lemma_total_bound(m.players, i);
    lemma_total_update(
        m.players,
        i,
        PlayerModel {
            chips: (p.chips - paid) as u32,
            current_bet: (p.current_bet + paid) as u32,
            is_all_in: !p.is_folded && p.chips - paid == 0,
            ..p
        },
    );
}


/// If any player has not folded, the showdown has a winner.
pub proof fn lemma_best_key(m: GameModel, k: int)
    requires
        0 <= k <= m.players.len(),
    ensures
        best_key_upto(m, k) is None <==> count_unfolded(m.players.take(k)) == 0,
        best_key_upto(m, k) matches Some(x) ==> exists|b: int|
            0 <= b < k && !m.players[b].is_folded && #[trigger] showdown_key(m, b) == x,
    decreases k,
{
    if k > 0 {
        lemma_best_key(m, k - 1);
        assert(m.players.take(k).drop_last() =~= m.players.take(k - 1));
        match best_key_upto(m, k - 1) {
            None => {},
            Some(x) => {
                let b = choose|b: int| 0 <= b < k - 1 && !m.players[b].is_folded && #[trigger] showdown_key(m, b) == x;
                lemma_count_unfolded_positive(m.players.take(k - 1), b);
            },
        }
    }
}

proof fn lemma_count_unfolded_positive(ps: Seq<PlayerModel>, b: int)
    requires
        0 <= b < ps.len(),
        !ps[b].is_folded,
    ensures
        count_unfolded(ps) > 0,
    decreases ps.len(),
{
    if b < ps.len() - 1 {
        lemma_count_unfolded_positive(ps.drop_last(), b);
    }
}

pub proof fn lemma_winner_listed(m: GameModel, k: int, b: int)
    requires
        0 <= b < k,
        is_winner(m, b),
    ensures
        winners_upto(m, k).len() > 0,
    decreases k,
{
    if b < k - 1 {
        lemma_winner_listed(m, k - 1, b);
    }
}

/// When some player is still in at the showdown, the whole pot goes onto the stacks.
pub proof fn lemma_showdown_pays_pot(m: GameModel)
    requires
        total_chips(m.players) + m.pot <= u32::MAX,
    ensures
        ({
            let m2 = showdown(m).0;
            &&& m2.pot == m.pot
            &&& m2.phase == GamePhase::Finished
            &&& m2.players.len() == m.players.len()
            &&& forall|i: int|
                0 <= i < m.players.len() ==> m2.players[i] == (PlayerModel {
                    chips: m2.players[i].chips,
                    ..m.players[i]
                })
            &&& count_unfolded(m.players) > 0 ==> total_chips(m2.players) == total_chips(m.players) + m.pot
            &&& count_unfolded(m.players) == 0 ==> total_chips(m2.players) == total_chips(m.players)
        }),
{
    let n = m.players.len() as int;
    let ws = winners(m);
    lemma_winners_upto(m, n);
    lemma_pay_winners(m, ws, ws.len() as int);
    lemma_best_key(m, n);
    assert(m.players.take(n) =~= m.players);
    if count_unfolded(m.players) > 0 {
        let x = best_key_upto(m, n)->0;
        let b = choose|b: int| 0 <= b < n && !m.players[b].is_folded && #[trigger] showdown_key(m, b) == x;
        lemma_winner_listed(m, n, b);
        lemma_paid_upto(m.pot, ws.len() as int, ws.len() as int);
    } else {
        if ws.len() > 0 {
            let b = ws[0];
            lemma_count_unfolded_positive(m.players, b);
        }
    }
    let m2 = showdown(m).0;
    lemma_unfolded_same(m2.players, m.players);
}


/// The cards on the board and in the deck, together.
pub open spec fn table_cards(m: GameModel) -> Multiset<Card> {
    m.deck.to_multiset().add(m.community.to_multiset())
}

/// Dealing moves cards from the deck onto the board, losing none and adding none.
pub proof fn lemma_deal_cards(m: GameModel, count: int)
    requires
        count >= 0,
    ensures
        table_cards(deal(m, count).0) == table_cards(m),
        deal(m, count).0.players == m.players,
        deal(m, count).0.pot == m.pot,
        deal(m, count).0.phase == m.phase,
{
    let n = m.deck.len() as int;
    let k = if count < n {
        count
    } else {
        n
    };
    let drawn = drawn_cards(m.deck, k);
    let tail = m.deck.skip(n - k);
    assert(drawn =~= tail.reverse());
    tail.lemma_reverse_to_multiset();
    assert(m.deck =~= m.deck.take(n - k) + tail);
    vstd::seq_lib::lemma_multiset_commutative(m.deck.take(n - k), tail);
    vstd::seq_lib::lemma_multiset_commutative(m.community, drawn);
    let m2 = deal(m, count).0;
    assert(table_cards(m2) =~= table_cards(m));
}

/// What moving to the next street keeps and changes.
pub proof fn lemma_street_facts(m: GameModel)
    requires
        well_formed(m),
        is_active(m.phase),
    ensures
        ({
            let m2 = advance_street(m).0;
            &&& m2.pot == m.pot
            &&& m2.players.len() == m.players.len()
            &&& m2.dealer_button == m.dealer_button
            &&& forall|i: int|
                0 <= i < m.players.len() ==> {
                    &&& (#[trigger] m2.players[i]).is_folded == m.players[i].is_folded
                    &&& m2.players[i].is_all_in == m.players[i].is_all_in
                    &&& m2.players[i].id == m.players[i].id
                    &&& m2.players[i].hole_cards == m.players[i].hole_cards
                }
            &&& count_unfolded(m2.players) == count_unfolded(m.players)
            &&& table_cards(m2) == table_cards(m)
            &&& is_active(m2.phase) ==> {
                &&& is_betting(m2.phase)
                &&& total_chips(m2.players) == total_chips(m.players)
                &&& m2.current_turn == next_actor(m2.players, m.dealer_button as int)
            }
            &&& m2.phase == GamePhase::Finished ==> {
                &&& count_unfolded(m.players) > 0 ==> total_chips(m2.players) == total_chips(
                    m.players,
                ) + m.pot
                &&& count_unfolded(m.players) == 0 ==> total_chips(m2.players) == total_chips(
                    m.players,
                )
            }
        }),
{
    lemma_advance_street(m);
    let m1 = GameModel { players: clear_bets(m.players), highest: 0, ..m };
    lemma_clear_bets(m.players);
    let m2 = match m.phase {
        GamePhase::PreFlop => deal(GameModel { phase: GamePhase::Flop, ..m1 }, 3).0,
        GamePhase::Flop => deal(GameModel { phase: GamePhase::Turn, ..m1 }, 1).0,
        GamePhase::Turn => deal(GameModel { phase: GamePhase::River, ..m1 }, 1).0,
        GamePhase::River => GameModel { phase: GamePhase::Showdown, ..m1 },
        _ => m1,
    };
    match m.phase {
        GamePhase::PreFlop => lemma_deal_cards(GameModel { phase: GamePhase::Flop, ..m1 }, 3),
        GamePhase::Flop => lemma_deal_cards(GameModel { phase: GamePhase::Turn, ..m1 }, 1),
        GamePhase::Turn => lemma_deal_cards(GameModel { phase: GamePhase::River, ..m1 }, 1),
        _ => {},
    }
    assert(table_cards(m2) == table_cards(m1));
    let m3 = GameModel {
        current_turn: next_actor(m2.players, m.dealer_button as int) as usize,
        ..m2
    };
    lemma_actor_scan_range(m2.players, m.dealer_button as int, 1);
    if m3.phase == GamePhase::Showdown {
        lemma_showdown_pays_pot(m3);
        lemma_unfolded_same(showdown(m3).0.players, m3.players);
    }
}

/// What dealing on to the showdown keeps and changes.
pub proof fn lemma_run_out_facts(m: GameModel)
    requires
        well_formed(m),
    ensures
        ({
            let m2 = run_out(m).0;
            &&& well_formed(m2)
            &&& m2.pot == m.pot
            &&& m2.players.len() == m.players.len()
            &&& m2.dealer_button == m.dealer_button
            &&& phase_order(m2.phase) >= phase_order(m.phase)
            &&& forall|i: int|
                0 <= i < m.players.len() ==> {
                    &&& (#[trigger] m2.players[i]).is_folded == m.players[i].is_folded
                    &&& m2.players[i].id == m.players[i].id
                    &&& m2.players[i].hole_cards == m.players[i].hole_cards
                }
            &&& count_unfolded(m2.players) == count_unfolded(m.players)
            &&& table_cards(m2) == table_cards(m)
            &&& is_active(m2.phase) ==> {
                &&& total_chips(m2.players) == total_chips(m.players)
                &&& m2 != m ==> m2.current_turn == next_actor(m2.players, m.dealer_button as int)
                &&& !(is_betting(m2.phase) && round_complete(m2))
                &&& is_betting(m2.phase) || m2 == m
            }
            &&& is_active(m.phase) && m2.phase == GamePhase::Finished ==> {
                &&& count_unfolded(m.players) > 0 ==> total_chips(m2.players) == total_chips(
                    m.players,
                ) + m.pot
                &&& count_unfolded(m.players) == 0 ==> total_chips(m2.players) == total_chips(
                    m.players,
                )
            }
            &&& m.phase == GamePhase::Finished ==> m2 == m
        }),
    decreases 6 - phase_order(m.phase),
{
    if is_betting(m.phase) && round_complete(m) {
        lemma_advance_street(m);
        lemma_street_facts(m);
        let m2 = advance_street(m).0;
        lemma_run_out_facts(m2);
        lemma_unfolded_same(m2.players, m.players);
    }
}


/// All hole cards at the table, together.
pub open spec fn hole_cards_of(ps: Seq<PlayerModel>) -> Multiset<Card>
    decreases ps.len(),
{
    if ps.len() == 0 {
        Multiset::empty()
    } else {
        hole_cards_of(ps.drop_last()).add(ps.last().hole_cards.to_multiset())
    }
}

/// Replacing one player's hole cards replaces them in the table's hole cards.
pub proof fn lemma_hole_update(ps: Seq<PlayerModel>, i: int, q: PlayerModel)
    requires
        0 <= i < ps.len(),
    ensures
        hole_cards_of(ps.update(i, q)).add(ps[i].hole_cards.to_multiset()) == hole_cards_of(
            ps,
        ).add(q.hole_cards.to_multiset()),
    decreases ps.len(),
{
    broadcast use vstd::multiset::group_multiset_axioms;

    let u = ps.update(i, q);
    if i == ps.len() - 1 {
        assert(u.drop_last() =~= ps.drop_last());
        assert(u.last() == q);
        assert(hole_cards_of(u) == hole_cards_of(ps.drop_last()).add(q.hole_cards.to_multiset()));
        assert(hole_cards_of(ps) == hole_cards_of(ps.drop_last()).add(
            ps[i].hole_cards.to_multiset(),
        ));
    } else {
        lemma_hole_update(ps.drop_last(), i, q);
        assert(u.drop_last() =~= ps.drop_last().update(i, q));
        assert(u.last() == ps.last());
        assert(ps.drop_last()[i] == ps[i]);
        assert(hole_cards_of(u) == hole_cards_of(ps.drop_last().update(i, q)).add(
            ps.last().hole_cards.to_multiset(),
        ));
        assert(hole_cards_of(ps) == hole_cards_of(ps.drop_last()).add(
            ps.last().hole_cards.to_multiset(),
        ));
    }
    assert forall|c: Card| #[trigger] hole_cards_of(u).add(ps[i].hole_cards.to_multiset()).count(c)
        == hole_cards_of(ps).add(q.hole_cards.to_multiset()).count(c) by {
        if i < ps.len() - 1 {
            assert(hole_cards_of(ps.drop_last().update(i, q)).add(ps[i].hole_cards.to_multiset()).count(c)
                == hole_cards_of(ps.drop_last()).add(q.hole_cards.to_multiset()).count(c));
        }
    }
    assert(hole_cards_of(u).add(ps[i].hole_cards.to_multiset()) =~= hole_cards_of(ps).add(
        q.hole_cards.to_multiset(),
    ));
}

/// Sequences of players holding the same cards seat by seat hold the same cards in all.
pub proof fn lemma_hole_same(a: Seq<PlayerModel>, b: Seq<PlayerModel>)
    requires
        a.len() == b.len(),
        forall|i: int| 0 <= i < a.len() ==> #[trigger] a[i].hole_cards == b[i].hole_cards,
    ensures
        hole_cards_of(a) == hole_cards_of(b),
    decreases a.len(),
{
    if a.len() > 0 {
        lemma_hole_same(a.drop_last(), b.drop_last());
    }
}

/// Dealing hole cards to empty-handed seats moves cards out of the deck into the hands,
/// two per seat while the deck lasts.
pub proof fn lemma_deal_holes_cards(ps: Seq<PlayerModel>, deck: Seq<Card>, k: int)
    requires
        0 <= k <= ps.len(),
        forall|t: int| 0 <= t < ps.len() ==> (#[trigger] ps[t]).hole_cards.len() == 0,
    ensures
        ({
            let (ps2, d2) = deal_holes(ps, deck, k);
            &&& d2.to_multiset().add(hole_cards_of(ps2)) == deck.to_multiset().add(
                hole_cards_of(ps),
            )
            &&& deck.len() >= 2 * k ==> d2.len() == deck.len() - 2 * k && forall|t: int|
                0 <= t < k ==> (#[trigger] ps2[t]).hole_cards.len() == 2
        }),
    decreases k,
{
    broadcast use vstd::multiset::group_multiset_axioms;
    broadcast use vstd::seq_lib::group_to_multiset_ensures;

    if k > 0 {
        lemma_deal_holes_cards(ps, deck, k - 1);
        lemma_deal_holes(ps, deck, k - 1);
        let (ps1, d1) = deal_holes(ps, deck, k - 1);
        let take = if d1.len() < 2 {
            d1.len() as int
        } else {
            2
        };
        let p = ps1[k - 1];
        let drawn = drawn_cards(d1, take);
        let q = PlayerModel { hole_cards: p.hole_cards + drawn, ..p };
        lemma_hole_update(ps1, k - 1, q);
        assert(p.hole_cards =~= Seq::<Card>::empty());
        assert(q.hole_cards =~= drawn);
        let tail = d1.skip(d1.len() - take);
        assert(drawn =~= tail.reverse());
        tail.lemma_reverse_to_multiset();
        assert(d1 =~= d1.take(d1.len() - take) + tail);
        vstd::seq_lib::lemma_multiset_commutative(d1.take(d1.len() - take), tail);
        let (ps2, d2) = deal_holes(ps, deck, k);
        assert(p.hole_cards.to_multiset() =~= Multiset::empty());
        assert(ps2 == ps1.update(k - 1, q));
        assert(d2 == d1.take(d1.len() - take));
        assert(hole_cards_of(ps2) =~= hole_cards_of(ps1).add(drawn.to_multiset()));
        assert(d1.to_multiset() =~= d2.to_multiset().add(tail.to_multiset()));
        assert(tail.to_multiset() =~= drawn.to_multiset());
        assert(d2.to_multiset().add(hole_cards_of(ps2)) =~= d1.to_multiset().add(hole_cards_of(ps1)));
    }
}


/// A table where nobody holds a card holds no cards.
pub proof fn lemma_hole_empty(ps: Seq<PlayerModel>)
    requires
        forall|t: int| 0 <= t < ps.len() ==> (#[trigger] ps[t]).hole_cards.len() == 0,
    ensures
        hole_cards_of(ps) == Multiset::<Card>::empty(),
    decreases ps.len(),
{
    broadcast use vstd::multiset::group_multiset_axioms;
    broadcast use vstd::seq_lib::group_to_multiset_ensures;

    if ps.len() > 0 {
        lemma_hole_empty(ps.drop_last());
        assert(ps.last().hole_cards =~= Seq::<Card>::empty());
        assert(hole_cards_of(ps) =~= Multiset::<Card>::empty());
    }
}


/// The seat `next_funded` names exists.
pub proof fn lemma_funded_scan_range(ps: Seq<PlayerModel>, from: int, k: int)
    requires
        ps.len() > 0,
    ensures
        0 <= funded_scan(ps, from, k) < ps.len(),
    decreases ps.len() + 1 - k,
{
    if k > ps.len() || k < 1 {
    } else if ps[(from + k) % (ps.len() as int)].chips > 0 {
    } else {
        lemma_funded_scan_range(ps, from, k + 1);
    }
}

/// Dealing on to the showdown leaves the blinds and the button as they are.
pub proof fn lemma_run_out_keeps_blinds(m: GameModel)
    ensures
        run_out(m).0.small_blind == m.small_blind,
        run_out(m).0.big_blind == m.big_blind,
        run_out(m).0.dealer_button == m.dealer_button,
    decreases 6 - phase_order(m.phase),
{
    if is_betting(m.phase) && round_complete(m) {
        let m2 = advance_street(m).0;
        if phase_order(m2.phase) > phase_order(m.phase) {
            lemma_run_out_keeps_blinds(m2);
        }
    }
}

/// Playing an action leaves the blinds as they are.
pub proof fn lemma_process_keeps_blinds(m: GameModel, id: usize, a: PlayerAction)
    ensures
        process(m, id, a).0.small_blind == m.small_blind,
        process(m, id, a).0.big_blind == m.big_blind,
{
    if is_active(m.phase) && m.players[m.current_turn as int].id == id {
        let m1 = apply_action(m, m.current_turn as int, a).0;
        lemma_run_out_keeps_blinds(advance_street(m1).0);
    }
}

/// Starting a hand leaves the blinds and the button as they are.
pub proof fn lemma_start_keeps_blinds(m: GameModel, deck: Seq<Card>)
    ensures
        start(m, deck).0.small_blind == m.small_blind,
        start(m, deck).0.big_blind == m.big_blind,
        start(m, deck).0.dealer_button == m.dealer_button,
{
    if m.players.len() >= 2 {
        let n = m.players.len() as int;
        let reset = m.players.map_values(|p: PlayerModel| reset_for_hand(p));
        let (ps, d) = deal_holes(reset, deck, n);
        let m1 = GameModel {
            phase: GamePhase::PreFlop,
            players: ps,
            deck: d,
            community: Seq::empty(),
            pot: 0,
            highest: 0,
            min_raise: m.big_blind,
            ..m
        };
        let sb = small_blind_seat(m1.players, m.dealer_button as int);
        let bb = next_funded(m1.players, sb);
        let m2 = post_blind(m1, sb, m.small_blind);
        let m3 = post_blind(m2, bb, m.big_blind);
        let top = if m3.players[sb].current_bet < m3.players[bb].current_bet {
            m3.players[bb].current_bet
        } else {
            m3.players[sb].current_bet
        };
        let m4 = GameModel { highest: top, current_turn: next_actor(m3.players, bb) as usize, ..m3 };
        lemma_run_out_keeps_blinds(m4);
    }
}

} // verus!

//! The decisions of a game against bots on one machine: what the human's input asks,
//! how a bot bets, and when the next hand starts.
use vstd::prelude::*;

use crate::app::AppMode;
use crate::card::{full_deck, Card};
use crate::client::{call_amount, smaller, spare_chips};
use crate::event::{GameEvent, GamePhase, PlayerAction};
use crate::player::{fresh_player, PlayerModel};
use crate::rules::{
    count_funded, leveled, next_funded, start, total_chips, well_formed, GameModel, OPENING_BIG_BLIND,
    OPENING_SMALL_BLIND,
};
use crate::state::{outcome_matches, GameState};
use crate::text::{lowercase, parse_u32, parse_u32_text, str_eq, to_lower, trim, trim_text};

verus! {

/// Bots with an even id play aggressively.
pub open spec fn aggressive(id: usize) -> bool {
    id % 2 == 0
}

/// Whether the bot `id` plays aggressively.
pub fn is_aggressive(id: usize) -> (r: bool)
    ensures
        r == aggressive(id),
{
    id % 2 == 0
}

/// How much a bot raises by at the local table: the larger of the minimum raise and a
/// share of the pot (a half when aggressive, a quarter otherwise).
pub open spec fn local_raise_size(pot: u32, min_raise: u32, aggressive: bool) -> u32 {
    let scaled = (pot / (if aggressive {
        2u32
    } else {
        4u32
    })) as u32;
    if min_raise >= scaled {
        min_raise
    } else {
        scaled
    }
}

/// How much a bot at the local table raises by.
pub fn local_raise_size_of(pot: u32, min_raise: u32, aggressive: bool) -> (r: u32)
    ensures
        r == local_raise_size(pot, min_raise, aggressive),
{
    let pot_scaled_raise = pot / (if aggressive {
        2
    } else {
        4
    });
    if min_raise >= pot_scaled_raise {
        min_raise
    } else {
        pot_scaled_raise
    }
}

/// A bot's bet: a raise when its chances beat the raise threshold and it can pay for it,
/// else a check when there is nothing to call, else a call when its chances beat the call
/// threshold, else a fold.
pub open spec fn bot_choice(
    to_call: u32,
    chips: u32,
    raise: u32,
    beats_raise: bool,
    beats_call: bool,
) -> PlayerAction {
    if beats_raise && chips >= to_call + raise {
        PlayerAction::Raise(raise)
    } else if to_call == 0 {
        PlayerAction::Check
    } else if beats_call {
        PlayerAction::Call
    } else {
        PlayerAction::Fold
    }
}

/// A bot's bet, from how its chances compare with the two thresholds.
pub fn choose_bot_action(
    to_call: u32,
    chips: u32,
    raise: u32,
    beats_raise: bool,
    beats_call: bool,
) -> (a: PlayerAction)
    requires
        to_call + raise <= u32::MAX,
    ensures
        a == bot_choice(to_call, chips, raise, beats_raise, beats_call),
{
    let total_raise_cost = to_call + raise;
    if beats_raise && chips >= total_raise_cost {
        PlayerAction::Raise(raise)
    } else if to_call == 0 {
        PlayerAction::Check
    } else if beats_call {
        PlayerAction::Call
    } else {
        PlayerAction::Fold
    }
}

/// How a bot at the local table bets, given how its chances compare with its thresholds.
pub fn compute_bot_action(
    game: &GameState,
    active_id: usize,
    active_chips: u32,
    active_bet: u32,
    beats_raise: bool,
    beats_call: bool,
) -> (a: PlayerAction)
    requires
        active_bet <= game.current_highest_bet,
        game.current_highest_bet - active_bet + local_raise_size(
            game.pot,
            game.min_raise,
            aggressive(active_id),
        ) <= u32::MAX,
    ensures
        a == bot_choice(
            (game.current_highest_bet - active_bet) as u32,
            active_chips,
            local_raise_size(game.pot, game.min_raise, aggressive(active_id)),
            beats_raise,
            beats_call,
        ),
{
    let amount_to_call = game.current_highest_bet - active_bet;
    let raise_amount = local_raise_size_of(game.pot, game.min_raise, is_aggressive(active_id));
    choose_bot_action(amount_to_call, active_chips, raise_amount, beats_raise, beats_call)
}

/// The players still in the hand other than `id`: the opponents a local bot plays against.
pub open spec fn local_opponents(ps: Seq<PlayerModel>, id: usize) -> nat
    decreases ps.len(),
{
    if ps.len() == 0 {
        0
    } else {
        local_opponents(ps.drop_last(), id) + if !ps.last().is_folded && ps.last().id != id {
            1nat
        } else {
            0nat
        }
    }
}

/// How many players still in the hand a local bot `id` plays against.
pub fn count_local_opponents(game: &GameState, id: usize) -> (r: usize)
    ensures
        r == local_opponents(game@.players, id),
{
    let ghost ps = game@.players;
    let mut count: usize = 0;
    let mut i: usize = 0;
    while i < game.players.len()
        invariant
            i <= ps.len(),
            ps == game@.players,
            count == local_opponents(ps.take(i as int), id),
            count <= i,
        decreases ps.len() - i,
    {
        assert(ps.take(i + 1).drop_last() =~= ps.take(i as int));
        if !game.players[i].is_folded && game.players[i].id != id {
            count = count + 1;
        }
        i = i + 1;
    }
    assert(ps.take(ps.len() as int) =~= ps);
    count
}

/// What the human at the local table asks by typing `t` (trimmed) on their turn: a bet,
/// or the raise prompt; at the raise prompt, a raise by the number typed, by all the chips
/// beyond a call ("all"), or by the minimum raise ("min").
pub open spec fn local_outcome(g: GameModel, raising: bool, t: Seq<char>) -> (
    Option<PlayerAction>,
    AppMode,
) {
    let me = g.players[g.current_turn as int];
    let l = lowercase(t);
    if raising {
        match parse_u32_text(t) {
            Some(x) => (Some(PlayerAction::Raise(x)), AppMode::GamePlay),
            None => if l == "all"@ {
                (Some(PlayerAction::Raise(spare_chips(g, me))), AppMode::GamePlay)
            } else if l == "min"@ {
                (Some(PlayerAction::Raise(smaller(g.min_raise, spare_chips(g, me)))), AppMode::GamePlay)
            } else {
                (None, AppMode::GamePlay)
            },
        }
    } else if l == "1"@ {
        (Some(PlayerAction::Fold), AppMode::GamePlay)
    } else if l == "2"@ {
        (
            Some(
                if call_amount(g, me) == 0 {
                    PlayerAction::Check
                } else {
                    PlayerAction::Call
                },
            ),
            AppMode::GamePlay,
        )
    } else if l == "3"@ {
        (None, AppMode::GamePlayRaising)
    } else if l == "all"@ {
        (Some(PlayerAction::Raise(spare_chips(g, me))), AppMode::GamePlay)
    } else if l == "min"@ {
        (Some(PlayerAction::Raise(smaller(g.min_raise, spare_chips(g, me)))), AppMode::GamePlay)
    } else {
        (None, AppMode::GamePlay)
    }
}

/// What the human to act asks with the line `input`, and the screen that follows.
pub fn local_turn(game: &GameState, raising: bool, input: &str) -> (r: (
    Option<PlayerAction>,
    AppMode,
))
    requires
        game.current_turn < game.players@.len(),
        game.players@[game.current_turn as int].current_bet <= game.current_highest_bet,
    ensures
        r == local_outcome(game@, raising, trim_text(input@)),
{
    let me = &game.players[game.current_turn];
    let t = trim(input);
    let lower = to_lower(t.as_str());
    let l = lower.as_str();
    let call_amt = game.current_highest_bet - me.current_bet;
    let spare = me.chips.saturating_sub(call_amt);
    if raising {
        match parse_u32(t.as_str()) {
            Some(amt) => (Some(PlayerAction::Raise(amt)), AppMode::GamePlay),
            None => if str_eq(l, "all") {
                (Some(PlayerAction::Raise(spare)), AppMode::GamePlay)
            } else if str_eq(l, "min") {
                let amt = if game.min_raise <= spare {
                    game.min_raise
                } else {
                    spare
                };
                (Some(PlayerAction::Raise(amt)), AppMode::GamePlay)
            } else {
                (None, AppMode::GamePlay)
            },
        }
    } else if str_eq(l, "1") {
        (Some(PlayerAction::Fold), AppMode::GamePlay)
    } else if str_eq(l, "2") {
        let a = if call_amt == 0 {
            PlayerAction::Check
        } else {
            PlayerAction::Call
        };
        (Some(a), AppMode::GamePlay)
    } else if str_eq(l, "3") {
        (None, AppMode::GamePlayRaising)
    } else if str_eq(l, "all") {
        (Some(PlayerAction::Raise(spare)), AppMode::GamePlay)
    } else if str_eq(l, "min") {
        let amt = if game.min_raise <= spare {
            game.min_raise
        } else {
            spare
        };
        (Some(PlayerAction::Raise(amt)), AppMode::GamePlay)
    } else {
        (None, AppMode::GamePlay)
    }
}

/// The chips each player brings to the local table.
pub const LOCAL_STARTING_CHIPS: u32 = 10000;

/// The local table: the human (id 0) and three bots, each with the starting chips,
/// waiting for the first hand at the first blind level.
pub fn local_table(human_name: String, third_bot_id: usize) -> (g: GameState)
    ensures
        g@.phase == GamePhase::WaitingForPlayers,
        g@.players == seq![
            fresh_player(0, human_name@, LOCAL_STARTING_CHIPS),
            fresh_player(1, "Bot Alice"@, LOCAL_STARTING_CHIPS),
            fresh_player(2, "Bot Bob"@, LOCAL_STARTING_CHIPS),
            fresh_player(third_bot_id, "Bot Charlie"@, LOCAL_STARTING_CHIPS),
        ],
        g@.small_blind == OPENING_SMALL_BLIND,
        g@.big_blind == OPENING_BIG_BLIND,
        g@.dealer_button == 0,
        g@.pot == 0,
        well_formed(g@),
{
    let mut g = GameState::new();
    g.add_player(0, human_name, LOCAL_STARTING_CHIPS);
    assert(g@.players.drop_last() =~= Seq::<PlayerModel>::empty());
    assert(total_chips(g@.players) == 10000);
    let ghost p1 = g@.players;
    g.add_player(1, String::from_str("Bot Alice"), LOCAL_STARTING_CHIPS);
    assert(g@.players.drop_last() =~= p1);
    assert(total_chips(g@.players) == 20000);
    let ghost p2 = g@.players;
    g.add_player(2, String::from_str("Bot Bob"), LOCAL_STARTING_CHIPS);
    assert(g@.players.drop_last() =~= p2);
    assert(total_chips(g@.players) == 30000);
    g.add_player(third_bot_id, String::from_str("Bot Charlie"), LOCAL_STARTING_CHIPS);
    g.small_blind = OPENING_SMALL_BLIND;
    g.big_blind = OPENING_BIG_BLIND;
    assert(g@.players =~= seq![
        fresh_player(0, g@.players[0].name, LOCAL_STARTING_CHIPS),
        fresh_player(1, "Bot Alice"@, LOCAL_STARTING_CHIPS),
        fresh_player(2, "Bot Bob"@, LOCAL_STARTING_CHIPS),
        fresh_player(third_bot_id, "Bot Charlie"@, LOCAL_STARTING_CHIPS),
    ]);
    g
}

/// The table for the next hand after `hands_played` hands: the button passes to the next
/// player with chips, and after every fifth hand both blinds double.
pub open spec fn next_hand_table(m: GameModel, hands_played: u64) -> GameModel {
    leveled(
        GameModel { dealer_button: next_funded(m.players, m.dealer_button as int) as usize, ..m },
        hands_played,
    )
}

/// Starts the next hand at the local table after `hands_played` hands: the button passes
/// to the next player with chips, and the blinds double after every fifth hand. `None`,
/// with the table unchanged, when fewer than two players have chips left: the game is
/// over.
pub fn next_local_hand(game: &mut GameState, hands_played: u64) -> (r: Option<
    Result<Vec<GameEvent>, &'static str>,
>)
    requires
        well_formed(old(game)@),
    ensures
        count_funded(old(game)@.players) <= 1 ==> r is None && final(game)@ == old(game)@,
        count_funded(old(game)@.players) > 1 ==> exists|d: Seq<Card>|
            {
                &&& d.len() == 52
                &&& #[trigger] d.to_multiset() == full_deck().to_multiset()
                &&& final(game)@ == start(next_hand_table(old(game)@, hands_played), d).0
                &&& r matches Some(res) && outcome_matches(
                    res,
                    start(next_hand_table(old(game)@, hands_played), d).1,
                )
            },
        well_formed(final(game)@),
{
    if game.funded_count() <= 1 {
        return None;
    }
    proof {
        assert(game@.players.len() > 0) by {
            if game@.players.len() == 0 {
                assert(count_funded(game@.players) == 0);
            }
        }
    }
    game.dealer_button = game.next_active_player(game.dealer_button);
    game.level_blinds(hands_played);
    Some(game.start_game())
}

} // verus!

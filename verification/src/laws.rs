//! Properties of the game that hold across operations, stated over the rules
//! that `GameState` is proved to follow.
use vstd::prelude::*;

use crate::event::PlayerAction;
use crate::player::PlayerModel;
use crate::rules::{
    apply_action, advance_street, can_act, count_unfolded, is_active, is_betting,
    lemma_actor_scan_finds, lemma_actor_scan_range, lemma_apply_action, lemma_early_win,
    lemma_first_unfolded, lemma_run_out_facts, lemma_seat_reached, lemma_street_facts,
    lemma_total_update, lemma_unfolded_same, next_actor, phase_order, process, round_complete,
    run_out, settled, table_cards, total_chips, well_formed, early_win, GameModel,
    count_funded, deal_holes, hole_cards_of, lemma_deal_holes, lemma_deal_holes_cards,
    lemma_funded_same, lemma_funded_scan_range, lemma_hole_empty, lemma_hole_same, lemma_post_blind,
    lemma_total_bound, lemma_total_same, next_funded, post_blind, reset_for_hand, small_blind_seat,
    start, leveled, lemma_start_keeps_blinds, lemma_process_keeps_blinds, due_blind,
    OPENING_BIG_BLIND, OPENING_SMALL_BLIND, best_key_upto, lemma_best_key, showdown_key, winners,
    lemma_winners_upto, lemma_none_unfolded, is_winner, lemma_winner_listed, pay_winners,
    lemma_pay_winners, lemma_paid_upto, share, showdown,
};
use crate::evaluator::key_less;
use crate::server::{
    lemma_with_chips_total, listing_entry, lists_rooms, member_names, seat_newcomers,
    start_outcome, with_chips,
};
use crate::ai::{
    completed_board, deal_outcome, evaluation_key, opponent_cards, opponent_key, SimOutcome,
};
use crate::local::next_hand_table;
use crate::card::{full_deck, Card};
use crate::event::GamePhase;
use crate::net_messages::{RequestView, RoomInfoView};
use crate::server::{
    blinds_on_schedule, bot_act, disconnect_outcome, on_message, one_more, put_room, room_of,
    rooms_on_schedule, seated_table, without, RoomView, ServerModel, ROOM_CAPACITY,
};

verus! {

/// Facts about one accepted or refused action, gathered once for the laws below.
proof fn lemma_process(m: GameModel, id: usize, a: PlayerAction)
    requires
        well_formed(m),
    ensures
        ({
            let (m2, r) = process(m, id, a);
            &&& well_formed(m2)
            &&& phase_order(m2.phase) >= phase_order(m.phase)
            &&& table_cards(m2) == table_cards(m)
            &&& m2.players.len() == m.players.len()
            &&& forall|i: int|
                0 <= i < m.players.len() ==> {
                    &&& (#[trigger] m2.players[i]).id == m.players[i].id
                    &&& m2.players[i].hole_cards == m.players[i].hole_cards
                }
            &&& is_active(m2.phase) ==> total_chips(m2.players) + m2.pot == total_chips(m.players)
                + m.pot
            &&& is_active(m.phase) && m2.phase == crate::event::GamePhase::Finished
                ==> total_chips(m2.players) == total_chips(m.players) + m.pot
            &&& r is Ok && is_active(m2.phase) ==> can_act(m2.players[m2.current_turn as int])
            &&& r is Ok && is_active(m.phase) && count_unfolded(m2.players) == 1 ==> m2.phase
                == crate::event::GamePhase::Finished
        }),
{
    if !is_active(m.phase) {
        return ;
    }
    if m.players[m.current_turn as int].id != id {
        return ;
    }
    let i = m.current_turn as int;
    lemma_apply_action(m, i, a);
    let (m1, err) = apply_action(m, i, a);
    if err is Some {
        return ;
    }
    let n = m.players.len() as int;
    if count_unfolded(m1.players) <= 1 {
        lemma_early_win(m1, i);
        let m2 = early_win(m1, i).0;
        lemma_unfolded_same(m2.players, m1.players);
    } else if round_complete(m1) {
        lemma_street_facts(m1);
        let m2 = advance_street(m1).0;
        crate::rules::lemma_advance_street(m1);
        lemma_run_out_facts(m2);
        let m3 = run_out(m2).0;
        lemma_unfolded_same(m2.players, m1.players);
        if is_active(m3.phase) {
            // someone in the round still owes an action, and the turn passes to one who can act
            assert(m3.current_turn == next_actor(m3.players, m3.dealer_button as int));
            assert(!round_complete(m3));
            let w = choose|w: int| 0 <= w < m3.players.len() && !settled(m3.players[w], m3.highest);
            lemma_seat_reached(n, m3.dealer_button as int, w);
            lemma_actor_scan_finds(m3.players, m3.dealer_button as int, 1, w);
        }
    } else {
        let w = choose|w: int| 0 <= w < m1.players.len() && !settled(m1.players[w], m1.highest);
        lemma_seat_reached(n, i, w);
        lemma_actor_scan_finds(m1.players, i, 1, w);
        lemma_actor_scan_range(m1.players, i, 1);
    }
}

/// Chips are neither created nor lost: while a hand runs, the stacks and the pot together
/// stay the same; when a hand ends, the whole pot has gone onto the stacks.
pub proof fn law_chips_conserved(m: GameModel, id: usize, a: PlayerAction)
    requires
        well_formed(m),
    ensures
        ({
            let m2 = process(m, id, a).0;
            &&& is_active(m2.phase) ==> total_chips(m2.players) + m2.pot == total_chips(m.players)
                + m.pot
            &&& is_active(m.phase) && !is_active(m2.phase) ==> total_chips(m2.players)
                == total_chips(m.players) + m.pot
        }),
{
    lemma_process(m, id, a);
}

/// After an accepted action, if the hand goes on, the player to act is one who can act
/// (has not folded and is not all-in): a hand in which nobody can act is dealt out to
/// the end at once.
pub proof fn law_turn_passes_to_able_player(m: GameModel, id: usize, a: PlayerAction)
    requires
        well_formed(m),
    ensures
        ({
            let (m2, r) = process(m, id, a);
            r is Ok && is_active(m2.phase) ==> m2.current_turn < m2.players.len() && can_act(
                m2.players[m2.current_turn as int],
            )
        }),
{
    lemma_process(m, id, a);
}

/// A hand never goes back to an earlier stage.
pub proof fn law_phase_moves_forward(m: GameModel, id: usize, a: PlayerAction)
    requires
        well_formed(m),
    ensures
        phase_order(process(m, id, a).0.phase) >= phase_order(m.phase),
{
    lemma_process(m, id, a);
}

/// A hand never goes on with a single player left in it: that player wins at once.
pub proof fn law_last_player_standing_wins(m: GameModel, id: usize, a: PlayerAction)
    requires
        well_formed(m),
    ensures
        ({
            let (m2, r) = process(m, id, a);
            r is Ok && count_unfolded(m2.players) == 1 ==> !is_active(m2.phase)
        }),
{
    lemma_process(m, id, a);
}

/// No card is created or lost by play: cards only move from the deck to the board, and
/// nobody's hole cards change.
pub proof fn law_cards_conserved(m: GameModel, id: usize, a: PlayerAction)
    requires
        well_formed(m),
    ensures
        ({
            let m2 = process(m, id, a).0;
            &&& table_cards(m2) == table_cards(m)
            &&& m2.players.len() == m.players.len()
            &&& forall|i: int|
                0 <= i < m.players.len() ==> (#[trigger] m2.players[i]).hole_cards
                    == m.players[i].hole_cards
        }),
{
    lemma_process(m, id, a);
}

/// A refused action changes nothing but, for a refused check or raise, the mark that the
/// acting player has acted.
pub proof fn law_refusal_changes_nothing_else(m: GameModel, id: usize, a: PlayerAction)
    requires
        well_formed(m),
    ensures
        ({
            let (m2, r) = process(m, id, a);
            r is Err ==> {
                ||| m2 == m
                ||| m2 == (GameModel {
                    players: m.players.update(
                        m.current_turn as int,
                        PlayerModel { has_acted: true, ..m.players[m.current_turn as int] },
                    ),
                    ..m
                })
            }
        }),
{
}


/// Starting a hand with a full deck of 52 cards, at a table of two to 26 seats: the hand
/// starts, every player holds two cards, each of
/// the 52 cards is in exactly one place (a player's hand, the board or the deck), no chip
/// is created or lost, and if the hand is under way the player to act can act.
pub proof fn law_start_deals_every_card_once(m: GameModel, d: Seq<Card>)
    requires
        well_formed(m),
        2 <= m.players.len() <= 26,
        d.len() == 52,
        d.to_multiset() == full_deck().to_multiset(),
    ensures
        ({
            let (m2, r) = start(m, d);
            &&& r is Ok
            &&& m2.players.len() == m.players.len()
            &&& forall|i: int| 0 <= i < m.players.len() ==> (#[trigger] m2.players[i]).hole_cards.len() == 2
            &&& table_cards(m2).add(hole_cards_of(m2.players)) == full_deck().to_multiset()
            &&& is_active(m2.phase) ==> total_chips(m2.players) + m2.pot == total_chips(m.players)
            &&& is_active(m2.phase) ==> m2.current_turn < m2.players.len() && can_act(
                m2.players[m2.current_turn as int],
            )
        }),
{
    broadcast use vstd::multiset::group_multiset_axioms;

    let n = m.players.len() as int;
    let reset = m.players.map_values(|p: PlayerModel| reset_for_hand(p));
    assert forall|t: int| 0 <= t < n implies (#[trigger] reset[t]).hole_cards.len() == 0 by {}
    lemma_deal_holes_cards(reset, d, n);
    lemma_deal_holes(reset, d, n);
    lemma_hole_empty(reset);
    let (ps, dk) = deal_holes(reset, d, n);
    let m1 = GameModel {
        phase: GamePhase::PreFlop,
        players: ps,
        deck: dk,
        community: Seq::empty(),
        pot: 0,
        highest: 0,
        min_raise: m.big_blind,
        ..m
    };
    assert forall|t: int| 0 <= t < n implies (#[trigger] m1.players[t]).chips == m.players[t].chips
        && m1.players[t].current_bet == 0 by {
        assert(m1.players[t] == (PlayerModel { hole_cards: m1.players[t].hole_cards, ..reset[t] }));
    }
    lemma_total_same(m1.players, m.players);
    lemma_funded_same(m1.players, m.players);
    let sb = small_blind_seat(m1.players, m.dealer_button as int);
    let bb = next_funded(m1.players, sb);
    lemma_funded_scan_range(m1.players, m.dealer_button as int, 1);
    vstd::arithmetic::div_mod::lemma_mod_bound(m.dealer_button as int, n);
    lemma_funded_scan_range(m1.players, sb, 1);
    lemma_total_bound(m1.players, sb);
    lemma_total_bound(m1.players, bb);
    let m2 = post_blind(m1, sb, m.small_blind);
    lemma_post_blind(m1, sb, m.small_blind);
    let m3 = post_blind(m2, bb, m.big_blind);
    lemma_post_blind(m2, bb, m.big_blind);
    let top = if m3.players[sb].current_bet < m3.players[bb].current_bet {
        m3.players[bb].current_bet
    } else {
        m3.players[sb].current_bet
    };
    let m4 = GameModel { highest: top, current_turn: next_actor(m3.players, bb) as usize, ..m3 };
    lemma_actor_scan_range(m3.players, bb, 1);
    assert forall|t: int| 0 <= t < n implies {
        &&& #[trigger] m4.players[t].current_bet <= m4.highest
        &&& m4.players[t].current_bet + m4.players[t].chips <= u32::MAX
    } by {
        lemma_total_bound(m1.players, t);
    }
    assert(well_formed(m4));
    lemma_hole_same(m3.players, m1.players);
    lemma_run_out_facts(m4);
    let m5 = run_out(m4).0;
    lemma_hole_same(m5.players, m4.players);
    assert(Seq::<Card>::empty().to_multiset() =~= vstd::multiset::Multiset::<Card>::empty()) by {
        broadcast use vstd::seq_lib::group_to_multiset_ensures;
    }
    assert(table_cards(m1) =~= dk.to_multiset());
    assert(table_cards(m5) == table_cards(m1));
    if is_active(m5.phase) {
        assert(!round_complete(m5));
        let w = choose|w: int| 0 <= w < m5.players.len() && !settled(m5.players[w], m5.highest);
        if m5 == m4 {
            lemma_seat_reached(n, bb, w);
            lemma_actor_scan_finds(m4.players, bb, 1, w);
        } else {
            lemma_seat_reached(n, m5.dealer_button as int, w);
            lemma_actor_scan_finds(m5.players, m5.dealer_button as int, 1, w);
        }
    }
}

/// Every room holds at most eight clients.
pub open spec fn rooms_within_capacity(s: ServerModel) -> bool {
    forall|r: u32| #[trigger] s.rooms.contains_key(r) ==> s.rooms[r].players.len() <= ROOM_CAPACITY
}

/// Leaving out an id never lengthens a list.
proof fn lemma_without_len(ps: Seq<usize>, c: usize)
    ensures
        without(ps, c).len() <= ps.len(),
    decreases ps.len(),
{
    if ps.len() > 0 {
        lemma_without_len(ps.drop_last(), c);
    }
}

/// No answer to a message lets a room hold more than eight clients: a full room refuses
/// newcomers.
pub proof fn law_rooms_stay_within_capacity(
    s: ServerModel,
    c: usize,
    msg: RequestView,
    d: Seq<Card>,
    ls: Seq<RoomInfoView>,
)
    requires
        rooms_within_capacity(s),
    ensures
        rooms_within_capacity(on_message(s, c, msg, d, ls).0),
{
    let s1 = on_message(s, c, msg, d, ls).0;
    assert forall|r: u32| #[trigger] s1.rooms.contains_key(r) implies s1.rooms[r].players.len()
        <= ROOM_CAPACITY by {
        if s.rooms.contains_key(r) {
            assert(s.rooms[r].players.len() <= ROOM_CAPACITY);
        }
        match msg {
            RequestView::CreateRoom(name) => {
                if r != s.next_room {
                    assert(s1.rooms[r] == s.rooms[r]);
                }
            },
            RequestView::JoinRoom(rid) => {
                if r != rid {
                    assert(s1.rooms[r] == s.rooms[r]);
                }
            },
            RequestView::AddBot => {
                assert(s1.rooms.contains_key(r) ==> s.rooms.contains_key(r));
                assert(s1.rooms[r].players == s.rooms[r].players);
            },
            RequestView::StartGame => {
                assert(s1.rooms.contains_key(r) ==> s.rooms.contains_key(r));
                assert(s1.rooms[r].players == s.rooms[r].players);
            },
            RequestView::Action(a) => {
                assert(s1.rooms.contains_key(r) ==> s.rooms.contains_key(r));
                assert(s1.rooms[r].players == s.rooms[r].players);
            },
            _ => {},
        }
    }
}

/// A client leaving never lets a room hold more than eight clients.
pub proof fn law_leaving_keeps_rooms_within_capacity(s: ServerModel, c: usize)
    requires
        rooms_within_capacity(s),
    ensures
        rooms_within_capacity(disconnect_outcome(s, c).0),
{
    let s1 = disconnect_outcome(s, c).0;
    assert forall|r: u32| #[trigger] s1.rooms.contains_key(r) implies s1.rooms[r].players.len()
        <= ROOM_CAPACITY by {
        assert(s.rooms.contains_key(r));
        assert(s.rooms[r].players.len() <= ROOM_CAPACITY);
        lemma_without_len(s.rooms[r].players, c);
        if s.clients.contains_key(c) {
            match s.clients[c].room {
                Some(rid) => {
                    if rid == r {
                        assert(s1.rooms[r].players == without(s.rooms[r].players, c));
                    } else {
                        assert(s1.rooms[r] == s.rooms[r]);
                    }
                },
                None => {},
            }
        }
    }
}

/// The blinds of room `r` after starting a hand on table `m` (seated from the room's
/// table, blinds untouched): still on the schedule, one hand further on.
proof fn lemma_start_on_schedule(r: RoomView, m: GameModel, d: Seq<Card>)
    requires
        blinds_on_schedule(r),
        m.small_blind == r.state.small_blind,
        m.big_blind == r.state.big_blind,
    ensures
        blinds_on_schedule(
            RoomView {
                state: start(leveled(m, r.hands_played), d).0,
                hands_played: one_more(r.hands_played),
                ..r
            },
        ),
{
    lemma_start_keeps_blinds(leveled(m, r.hands_played), d);
}

/// Blinds move only by the schedule: whatever the server answers to a message, every
/// room stays at the blinds its count of hands calls for, the opening 100/200 until five
/// hands have been started and both doubling after every fifth hand.
pub proof fn law_rooms_keep_blind_schedule(
    s: ServerModel,
    c: usize,
    msg: RequestView,
    d: Seq<Card>,
    ls: Seq<RoomInfoView>,
)
    requires
        rooms_on_schedule(s),
    ensures
        rooms_on_schedule(on_message(s, c, msg, d, ls).0),
{
    let s1 = on_message(s, c, msg, d, ls).0;
    assert forall|rid: u32| #[trigger] s1.rooms.contains_key(rid) implies blinds_on_schedule(
        s1.rooms[rid],
    ) by {
        if s.rooms.contains_key(rid) {
            assert(blinds_on_schedule(s.rooms[rid]));
        }
        match msg {
            RequestView::StartGame => {
                match room_of(s, c) {
                    Some(q) => if q == rid && s.rooms.contains_key(q) && s.rooms[q].host == c {
                        let r = s.rooms[q];
                        let m = seated_table(s, r);
                        if m.players.len() >= 2 {
                            lemma_start_on_schedule(r, m, d);
                        }
                    },
                    None => {},
                }
            },
            RequestView::Action(a) => {
                match room_of(s, c) {
                    Some(q) => if q == rid && s.rooms.contains_key(q) {
                        lemma_process_keeps_blinds(s.rooms[q].state, c, a);
                    },
                    None => {},
                }
            },
            _ => {},
        }
    }
}

/// A client leaving keeps every room on its blind schedule.
pub proof fn law_leaving_keeps_blind_schedule(s: ServerModel, c: usize)
    requires
        rooms_on_schedule(s),
    ensures
        rooms_on_schedule(disconnect_outcome(s, c).0),
{
    let s1 = disconnect_outcome(s, c).0;
    assert forall|rid: u32| #[trigger] s1.rooms.contains_key(rid) implies blinds_on_schedule(
        s1.rooms[rid],
    ) by {
        assert(blinds_on_schedule(s.rooms[rid]));
        lemma_process_keeps_blinds(s.rooms[rid].state, c, PlayerAction::Fold);
    }
}

/// A bot's turn keeps every room on its blind schedule.
pub proof fn law_bot_turn_keeps_blind_schedule(s: ServerModel, rid: u32, a: PlayerAction)
    requires
        rooms_on_schedule(s),
        s.rooms.contains_key(rid),
    ensures
        ({
            let r = s.rooms[rid];
            let m = r.state;
            let me = m.players[m.current_turn as int];
            let m1 = bot_act(m, me.id, a, (m.highest - me.current_bet) as u32).0;
            rooms_on_schedule(put_room(s, rid, RoomView { state: m1, ..r }))
        }),
{
    let r = s.rooms[rid];
    let m = r.state;
    let me = m.players[m.current_turn as int];
    let to_call = (m.highest - me.current_bet) as u32;
    let fallback = if to_call > 0 {
        PlayerAction::Call
    } else {
        PlayerAction::Check
    };
    let m1 = process(m, me.id, a).0;
    let m2 = process(m1, me.id, fallback).0;
    lemma_process_keeps_blinds(m, me.id, a);
    lemma_process_keeps_blinds(m1, me.id, fallback);
    lemma_process_keeps_blinds(m2, me.id, PlayerAction::Fold);
    assert(blinds_on_schedule(r));
}

/// The local table follows the same schedule: when it is at the blinds due after `h`
/// hands, the next hand (as `next_local_hand` starts it after `h` hands) is played at the
/// blinds due after `h + 1` hands.
pub proof fn law_local_blinds_follow_schedule(m: GameModel, h: u64, d: Seq<Card>)
    requires
        h < u64::MAX,
        m.small_blind == due_blind(OPENING_SMALL_BLIND, h),
        m.big_blind == due_blind(OPENING_BIG_BLIND, h),
    ensures
        start(next_hand_table(m, h), d).0.small_blind == due_blind(
            OPENING_SMALL_BLIND,
            (h + 1) as u64,
        ),
        start(next_hand_table(m, h), d).0.big_blind == due_blind(OPENING_BIG_BLIND, (h + 1) as u64),
{
    lemma_start_keeps_blinds(next_hand_table(m, h), d);
}

/// Muck: when everyone else has folded, the last player in the hand takes the pot at
/// once, without a showdown: no further board card is dealt and no hand is shown.
pub proof fn law_fold_win_shows_no_cards(m: GameModel, id: usize, a: PlayerAction)
    requires
        well_formed(m),
    ensures
        ({
            let (m2, r) = process(m, id, a);
            match r {
                Ok(evs) => count_unfolded(m2.players) == 1 ==> {
                    &&& m2.phase == GamePhase::Finished
                    &&& m2.community == m.community
                    &&& forall|k: int|
                        0 <= k < evs.len() ==> !(#[trigger] evs[k] is CommunityCardsRevealed)
                },
                Err(_) => true,
            }
        }),
{
    if !is_active(m.phase) || m.players[m.current_turn as int].id != id {
        return ;
    }
    let i = m.current_turn as int;
    lemma_apply_action(m, i, a);
    let (m1, err) = apply_action(m, i, a);
    if err is Some {
        return ;
    }
    if count_unfolded(m1.players) <= 1 {
        lemma_early_win(m1, i);
        let (m2, e2) = early_win(m1, i);
        lemma_unfolded_same(m2.players, m1.players);
        let evs = seq![crate::event::EventView::PlayerActed(id, a)] + e2;
        assert forall|k: int| 0 <= k < evs.len() implies !(#[trigger] evs[k] is CommunityCardsRevealed) by {
            if k > 0 {
                assert(evs[k] == e2[k - 1]);
            }
        }
    } else if round_complete(m1) {
        lemma_street_facts(m1);
        let m2 = advance_street(m1).0;
        crate::rules::lemma_advance_street(m1);
        lemma_run_out_facts(m2);
    }
}

/// While a hand runs, no player's bet ever exceeds the highest bet, so the amount a
/// player lacks to call never goes below zero.
pub proof fn law_bets_stay_within_highest(m: GameModel, id: usize, a: PlayerAction)
    requires
        well_formed(m),
    ensures
        ({
            let m2 = process(m, id, a).0;
            is_active(m2.phase) ==> forall|i: int|
                0 <= i < m2.players.len() ==> #[trigger] m2.players[i].current_bet <= m2.highest
        }),
{
    lemma_process(m, id, a);
}

/// Whatever a single action does, accepted or refused, no player's bet ends above the
/// highest bet, so the amount a player lacks to call never goes below zero.
pub proof fn law_action_keeps_bets_within_highest(m: GameModel, i: int, a: PlayerAction)
    requires
        well_formed(m),
        is_active(m.phase),
        0 <= i < m.players.len(),
    ensures
        ({
            let m1 = apply_action(m, i, a).0;
            forall|j: int|
                0 <= j < m1.players.len() ==> #[trigger] m1.players[j].current_bet <= m1.highest
        }),
{
    lemma_apply_action(m, i, a);
}

/// Drawing from a deck that holds each card at most once: the card drawn is not among the
/// cards left, one card fewer is left, and what is left still holds each card at most
/// once, so every later draw gives a card not drawn before.
pub proof fn law_draw_takes_a_new_card(d: Seq<Card>)
    requires
        d.len() > 0,
        forall|c: Card| #[trigger] d.to_multiset().count(c) <= 1,
    ensures
        !d.drop_last().contains(d.last()),
        d.drop_last().len() == d.len() - 1,
        forall|c: Card| #[trigger] d.drop_last().to_multiset().count(c) <= 1,
{
    broadcast use vstd::multiset::group_multiset_axioms, vstd::seq_lib::group_to_multiset_ensures;

    assert(d =~= d.drop_last().push(d.last()));
    assert(d.to_multiset().count(d.last()) == d.drop_last().to_multiset().count(d.last()) + 1);
    assert forall|c: Card| #[trigger] d.drop_last().to_multiset().count(c) <= 1 by {
        assert(d.to_multiset().count(c) >= d.drop_last().to_multiset().count(c));
    }
}

/// Drawing a shuffled deck card by card: the draw that follows `k` earlier ones finds
/// `52 - k` cards left and gives a card that none of the earlier draws gave.
pub proof fn law_shuffled_deck_draws_are_new(d: Seq<Card>, k: int)
    requires
        d.len() == 52,
        d.to_multiset() == full_deck().to_multiset(),
        0 <= k < 52,
    ensures
        d.take(52 - k).len() == 52 - k,
        d.take(52 - k).last() == d[51 - k],
        !crate::rules::drawn_cards(d, k).contains(d[51 - k]),
{
    crate::card::lemma_full_deck_distinct();
    full_deck().lemma_multiset_has_no_duplicates();
    d.lemma_multiset_has_no_duplicates_conv();
    let e = crate::rules::drawn_cards(d, k);
    if e.contains(d[51 - k]) {
        let j = choose|j: int| 0 <= j < e.len() && e[j] == d[51 - k];
        assert(d[51 - j] == d[51 - k]);
    }
}

/// `key_less` is transitive.
proof fn lemma_key_less_transitive(a: Seq<u8>, b: Seq<u8>, c: Seq<u8>)
    requires
        key_less(a, b),
        key_less(b, c),
    ensures
        key_less(a, c),
    decreases a.len(),
{
    if a.len() > 0 && b.len() > 0 && c.len() > 0 && a[0] == b[0] && b[0] == c[0] {
        lemma_key_less_transitive(a.drop_first(), b.drop_first(), c.drop_first());
    }
}

/// No key is below itself.
proof fn lemma_key_less_irreflexive(a: Seq<u8>)
    ensures
        !key_less(a, a),
    decreases a.len(),
{
    if a.len() > 0 {
        lemma_key_less_irreflexive(a.drop_first());
    }
}

/// The key kept by `best_key_upto` is below no key of a player still in among the first
/// `k` seats.
proof fn lemma_best_key_is_top(m: GameModel, k: int)
    requires
        0 <= k <= m.players.len(),
    ensures
        best_key_upto(m, k) matches Some(x) ==> forall|j: int|
            0 <= j < k && !m.players[j].is_folded ==> !key_less(x, #[trigger] showdown_key(m, j)),
    decreases k,
{
    if k > 0 {
        lemma_best_key_is_top(m, k - 1);
        lemma_best_key(m, k - 1);
        let kk = showdown_key(m, k - 1);
        lemma_key_less_irreflexive(kk);
        if !m.players[k - 1].is_folded {
            match best_key_upto(m, k - 1) {
                None => {
                    lemma_none_unfolded(m.players.take(k - 1));
                    assert forall|j: int| 0 <= j < k - 1 implies m.players[j].is_folded by {
                        assert(m.players.take(k - 1)[j] == m.players[j]);
                    }
                },
                Some(x) => {
                    if key_less(x, kk) {
                        assert forall|j: int|
                            0 <= j < k && !m.players[j].is_folded implies !key_less(
                            kk,
                            #[trigger] showdown_key(m, j),
                        ) by {
                            if j < k - 1 && key_less(kk, showdown_key(m, j)) {
                                lemma_key_less_transitive(x, kk, showdown_key(m, j));
                            }
                        }
                    }
                },
            }
        }
    }
}

/// The showdown pays the strongest hands: everyone paid is still in the hand, and no
/// player still in holds a stronger hand than anyone paid; when anyone is still in, someone
/// is paid.
pub proof fn law_showdown_pays_the_strongest(m: GameModel)
    ensures
        forall|t: int|
            0 <= t < winners(m).len() ==> {
                let w = #[trigger] winners(m)[t];
                &&& 0 <= w < m.players.len()
                &&& !m.players[w].is_folded
                &&& forall|j: int|
                    0 <= j < m.players.len() && !m.players[j].is_folded ==> !key_less(
                        showdown_key(m, w),
                        #[trigger] showdown_key(m, j),
                    )
            },
        count_unfolded(m.players) > 0 ==> winners(m).len() > 0,
{
    let n = m.players.len() as int;
    lemma_winners_upto(m, n);
    lemma_best_key_is_top(m, n);
    lemma_best_key(m, n);
    assert(m.players.take(n) =~= m.players);
    if count_unfolded(m.players) > 0 {
        let x = best_key_upto(m, n)->0;
        let b = choose|b: int| 0 <= b < n && !m.players[b].is_folded && #[trigger] showdown_key(m, b) == x;
        assert(is_winner(m, b));
        lemma_winner_listed(m, n, b);
    }
}

/// Of two different keys, one is below the other.
proof fn lemma_key_less_total(a: Seq<u8>, b: Seq<u8>)
    requires
        a != b,
    ensures
        key_less(a, b) || key_less(b, a),
    decreases a.len(),
{
    if a.len() > 0 && b.len() > 0 && a[0] == b[0] {
        if a.drop_first() == b.drop_first() {
            assert(a =~= seq![a[0]] + a.drop_first());
            assert(b =~= seq![b[0]] + b.drop_first());
        }
        lemma_key_less_total(a.drop_first(), b.drop_first());
    } else if a.len() == 0 && b.len() == 0 {
        assert(a =~= b);
    }
}

/// A simulated deal is judged against every opponent: it is lost as soon as any one of
/// them holds a stronger hand than mine, won only when every one of them holds a weaker
/// one, and tied otherwise; and facing one more opponent never turns a loss into
/// anything better.
pub proof fn law_deal_is_judged_against_every_opponent(
    mine: Seq<Card>,
    board: Seq<Card>,
    deck: Seq<Card>,
    n: int,
)
    ensures
        ({
            let my_key = evaluation_key(completed_board(board, deck) + mine);
            let r = deal_outcome(mine, board, deck, n);
            &&& forall|o: int|
                0 <= o < n && key_less(my_key, #[trigger] opponent_key(board, deck, o)) ==> r
                    == SimOutcome::Loss
            &&& r == SimOutcome::Win <==> forall|o: int|
                0 <= o < n ==> key_less(#[trigger] opponent_key(board, deck, o), my_key)
            &&& r == SimOutcome::Tie ==> exists|o: int|
                0 <= o < n && #[trigger] opponent_key(board, deck, o) == my_key
            &&& r == SimOutcome::Loss ==> deal_outcome(mine, board, deck, n + 1) == SimOutcome::Loss
        }),
{
    let my_key = evaluation_key(completed_board(board, deck) + mine);
    let r = deal_outcome(mine, board, deck, n);
    if r == SimOutcome::Win {
        assert forall|o: int| 0 <= o < n implies key_less(
            #[trigger] opponent_key(board, deck, o),
            my_key,
        ) by {
            lemma_key_less_total(opponent_key(board, deck, o), my_key);
        }
    }
    if forall|o: int| 0 <= o < n ==> key_less(#[trigger] opponent_key(board, deck, o), my_key) {
        assert forall|o: int| 0 <= o < n implies !key_less(
            my_key,
            #[trigger] opponent_key(board, deck, o),
        ) && opponent_key(board, deck, o) != my_key by {
            lemma_key_less_irreflexive(my_key);
            if key_less(my_key, opponent_key(board, deck, o)) {
                lemma_key_less_transitive(my_key, opponent_key(board, deck, o), my_key);
            }
        }
    }
    if r == SimOutcome::Loss {
        let o = choose|o: int| 0 <= o < n && key_less(my_key, #[trigger] opponent_key(board, deck, o));
        assert(0 <= o < n + 1 && key_less(my_key, opponent_key(board, deck, o)));
    }
}

/// Seating newcomers never unseats anyone.
proof fn lemma_seating_keeps_seats(ps: Seq<PlayerModel>, names: Seq<(usize, Seq<char>)>)
    ensures
        seat_newcomers(ps, names).len() >= ps.len(),
    decreases names.len(),
{
    if names.len() > 0 {
        lemma_seating_keeps_seats(ps, names.drop_last());
    }
}

/// The button moves between hands: when the host starts a hand in a room whose last hand
/// is over and where at least two players still have chips, the dealer seat is the one
/// after the last dealer's, counted round the players who kept chips, and never the same
/// seat again.
pub proof fn law_button_moves_between_hands(s: ServerModel, c: usize, d: Seq<Card>)
    requires
        room_of(s, c) matches Some(rid) && s.rooms.contains_key(rid) && s.rooms[rid].host == c
            && well_formed(s.rooms[rid].state) && s.rooms[rid].state.phase == GamePhase::Finished
            && with_chips(s.rooms[rid].state.players).len() >= 2,
    ensures
        ({
            let rid = room_of(s, c)->0;
            let old = s.rooms[rid].state;
            let new = start_outcome(s, c, d).0.rooms[rid].state;
            let n = with_chips(old.players).len() as int;
            &&& new.dealer_button == (old.dealer_button + 1) % n
            &&& new.dealer_button != old.dealer_button
        }),
{
    let rid = room_of(s, c)->0;
    let r = s.rooms[rid];
    let old = r.state;
    let kept = with_chips(old.players);
    let n = kept.len() as int;
    let m = seated_table(s, r);
    lemma_seating_keeps_seats(kept, member_names(s, r));
    let lv = leveled(m, r.hands_played);
    lemma_start_keeps_blinds(lv, d);
    lemma_with_chips_total(old.players);
    let b = old.dealer_button as int;
    assert(start_outcome(s, c, d).0.rooms[rid].state == start(lv, d).0);
    vstd::arithmetic::div_mod::lemma_mod_bound(b + 1, n);
    if b + 1 < n {
        vstd::arithmetic::div_mod::lemma_small_mod((b + 1) as nat, n as nat);
    } else if b + 1 == n {
        vstd::arithmetic::div_mod::lemma_mod_self_0(n);
    }
}

/// What the lobby shows of room `r` in entry `e`: its id, its name, its number of
/// clients, and that it has started exactly when its table has left the waiting room.
pub open spec fn shows_room(e: RoomInfoView, r: RoomView) -> bool {
    &&& e.id == r.id
    &&& e.name == r.name
    &&& e.player_count == r.players.len() as usize
    &&& (e.has_started <==> r.state.phase != GamePhase::WaitingForPlayers)
}

/// The lobby tells which rooms are playing: a listing of the rooms has one entry per room,
/// every room is shown by one of them, and a room in the middle of a hand is shown as
/// started.
pub proof fn law_listing_shows_rooms_in_play(ls: Seq<RoomInfoView>, rooms: Map<u32, RoomView>)
    requires
        lists_rooms(ls, rooms),
    ensures
        ls.len() == rooms.dom().len(),
        forall|k: u32|
            #[trigger] rooms.contains_key(k) ==> exists|i: int|
                0 <= i < ls.len() && shows_room(#[trigger] ls[i], rooms[k]),
        forall|k: u32|
            rooms.contains_key(k) && is_active(rooms[k].state.phase) ==> exists|i: int|
                0 <= i < ls.len() && #[trigger] ls[i].id == rooms[k].id && ls[i].has_started,
{
    let ks = choose|ks: Seq<u32>|
        {
            &&& ks.no_duplicates()
            &&& #[trigger] ks.to_set() == rooms.dom()
            &&& ls == ks.map_values(|k: u32| listing_entry(rooms[k]))
        };
    ks.unique_seq_to_set();
    assert forall|k: u32| #[trigger] rooms.contains_key(k) implies exists|i: int|
        0 <= i < ls.len() && shows_room(#[trigger] ls[i], rooms[k]) by {
        assert(ks.to_set().contains(k));
        let i = choose|i: int| 0 <= i < ks.len() && ks[i] == k;
        assert(ls[i] == listing_entry(rooms[k]));
        assert(shows_room(ls[i], rooms[k]));
    }
}

/// Paying the first `j` of the seats `ws` (in increasing seat order): each of them has
/// received its share, everyone else is as before.
proof fn lemma_payments(m: GameModel, ws: Seq<int>, j: int)
    requires
        0 <= j <= ws.len(),
        forall|t: int| 0 <= t < ws.len() ==> 0 <= #[trigger] ws[t] < m.players.len(),
        forall|a: int, b: int| 0 <= a < b < ws.len() ==> ws[a] < ws[b],
        total_chips(m.players) + m.pot <= u32::MAX,
    ensures
        ({
            let ps = pay_winners(m, ws, j).0;
            &&& forall|t: int|
                0 <= t < j ==> (#[trigger] ps[ws[t]]).chips == m.players[ws[t]].chips + share(
                    m.pot,
                    ws.len() as int,
                    t,
                )
            &&& forall|i: int|
                0 <= i < m.players.len() && (forall|t: int| 0 <= t < j ==> #[trigger] ws[t] != i)
                    ==> ps[i].chips == m.players[i].chips
        }),
    decreases j,
{
    if j > 0 {
        lemma_payments(m, ws, j - 1);
        lemma_pay_winners(m, ws, j - 1);
        lemma_paid_upto(m.pot, ws.len() as int, j);
        lemma_paid_upto(m.pot, ws.len() as int, j - 1);
        let prev = pay_winners(m, ws, j - 1).0;
        let w = ws[j - 1];
        lemma_total_bound(prev, w);
        assert forall|t: int| 0 <= t < j - 1 implies ws[t] != w by {}
    }
}

/// The showdown splits the pot evenly among the strongest hands: each winner receives
/// the pot divided by the number of winners (the first of them also the odd chips that do
/// not divide), and nobody else's stack changes.
pub proof fn law_showdown_splits_the_pot(m: GameModel)
    requires
        total_chips(m.players) + m.pot <= u32::MAX,
    ensures
        ({
            let ws = winners(m);
            let m2 = showdown(m).0;
            let n = ws.len() as int;
            &&& forall|t: int|
                0 <= t < n ==> {
                    let gain = (#[trigger] m2.players[ws[t]]).chips - m.players[ws[t]].chips;
                    &&& m.pot as int / n <= gain <= m.pot as int / n + m.pot as int % n
                    &&& (t > 0 ==> gain == m.pot as int / n)
                }
            &&& forall|i: int|
                0 <= i < m.players.len() && !is_winner(m, i) ==> (#[trigger] m2.players[i]).chips
                    == m.players[i].chips
        }),
{
    let ws = winners(m);
    let n = m.players.len() as int;
    lemma_winners_upto(m, n);
    lemma_payments(m, ws, ws.len() as int);
    assert forall|i: int| 0 <= i < m.players.len() && !is_winner(m, i) implies (
    #[trigger] showdown(m).0.players[i]).chips == m.players[i].chips by {
        assert forall|t: int| 0 <= t < ws.len() implies #[trigger] ws[t] != i by {}
    }
}

/// No card is dealt twice in a simulated deal: from a deck that holds each card once, the
/// cards completing the board and the two cards of every opponent are all different.
pub proof fn law_simulated_cards_are_all_different(
    board: Seq<Card>,
    deck: Seq<Card>,
    n: int,
    o1: int,
    o2: int,
)
    requires
        deck.no_duplicates(),
        board.len() <= 5,
        deck.len() >= (5 - board.len()) + 2 * n,
        0 <= o1 < n,
        0 <= o2 < n,
    ensures
        opponent_cards(board, deck, o1)[0] != opponent_cards(board, deck, o1)[1],
        o1 != o2 ==> forall|a: int, b: int|
            0 <= a < 2 && 0 <= b < 2 ==> #[trigger] opponent_cards(board, deck, o1)[a]
                != #[trigger] opponent_cards(board, deck, o2)[b],
        forall|a: int|
            0 <= a < 2 ==> !crate::rules::drawn_cards(deck, 5 - board.len()).contains(
                #[trigger] opponent_cards(board, deck, o1)[a],
            ),
{
    let k = 5 - board.len();
    let e = crate::rules::drawn_cards(deck, k);
    assert forall|a: int| 0 <= a < 2 implies !e.contains(
        #[trigger] opponent_cards(board, deck, o1)[a],
    ) by {
        if e.contains(opponent_cards(board, deck, o1)[a]) {
            let j = choose|j: int| 0 <= j < e.len() && e[j] == opponent_cards(board, deck, o1)[a];
            assert(deck[deck.len() - 1 - j] == opponent_cards(board, deck, o1)[a]);
        }
    }
}

} // verus!

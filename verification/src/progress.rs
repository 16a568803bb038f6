//! Every turn moves a hand forward: a measure over the table that each accepted action
//! lowers, so that a hand in which everyone keeps acting comes to an end.
use vstd::prelude::*;

use crate::event::PlayerAction;
use crate::player::PlayerModel;
use crate::rules::{
    apply_action, can_act, is_betting, lemma_actor_scan_range, lemma_apply_action,
    lemma_seat_reached, lemma_total_bound, lemma_total_update, phase_order, process,
    round_complete, seat_after, settled, total_chips, well_formed, actor_scan, count_unfolded,
    lemma_advance_street, lemma_run_out_facts, advance_street, GameModel,
};
use crate::server::bot_act;

verus! {

/// The number of players who still owe an action in this betting round.
pub open spec fn count_unsettled(ps: Seq<PlayerModel>, highest: u32) -> nat
    decreases ps.len(),
{
    if ps.len() == 0 {
        0
    } else {
        count_unsettled(ps.drop_last(), highest) + if settled(ps.last(), highest) {
            0nat
        } else {
            1nat
        }
    }
}

/// Looking at seats `from + k`, `from + k + 1`, ... round the table, how many places
/// after `from` the first player who still owes an action sits; the table's size if
/// nobody owes one.
pub open spec fn wait_scan(ps: Seq<PlayerModel>, highest: u32, from: int, k: int) -> int
    decreases ps.len() - k,
{
    if k >= ps.len() || k < 0 {
        ps.len() as int
    } else if !settled(ps[seat_after(from, k, ps.len() as int)], highest) {
        k
    } else {
        wait_scan(ps, highest, from, k + 1)
    }
}

/// How many seats the turn must still pass before it reaches a player who owes an action.
pub open spec fn turns_to_wait(m: GameModel) -> int {
    wait_scan(m.players, m.highest, m.current_turn as int, 0)
}

/// `m2` is further on in the hand than `m`: a later stage; or the same stage with fewer
/// chips behind; or as many chips, with fewer players owing an action; or as many of
/// those, with the turn nearer to the next of them. Each of these is a whole number
/// bounded below, so no hand can move forward without end.
pub open spec fn hand_advanced(m: GameModel, m2: GameModel) -> bool {
    ||| phase_order(m2.phase) > phase_order(m.phase)
    ||| m2.phase == m.phase && total_chips(m2.players) < total_chips(m.players)
    ||| m2.phase == m.phase && total_chips(m2.players) == total_chips(m.players)
        && count_unsettled(m2.players, m2.highest) < count_unsettled(m.players, m.highest)
    ||| m2.phase == m.phase && total_chips(m2.players) == total_chips(m.players)
        && count_unsettled(m2.players, m2.highest) == count_unsettled(m.players, m.highest)
        && turns_to_wait(m2) < turns_to_wait(m)
}

proof fn lemma_unsettled_update(ps: Seq<PlayerModel>, h: u32, i: int, q: PlayerModel)
    requires
        0 <= i < ps.len(),
    ensures
        count_unsettled(ps.update(i, q), h) + (if settled(ps[i], h) {
            0int
        } else {
            1int
        }) == count_unsettled(ps, h) + (if settled(q, h) {
            0int
        } else {
            1int
        }),
    decreases ps.len(),
{
    if i == ps.len() - 1 {
        assert(ps.update(i, q).drop_last() =~= ps.drop_last());
    } else {
        lemma_unsettled_update(ps.drop_last(), h, i, q);
        assert(ps.update(i, q).drop_last() =~= ps.drop_last().update(i, q));
    }
}

proof fn lemma_wait_scan(ps: Seq<PlayerModel>, h: u32, from: int, k: int)
    requires
        0 <= k <= ps.len(),
    ensures
        k <= wait_scan(ps, h, from, k) <= ps.len(),
        forall|j: int|
            k <= j < wait_scan(ps, h, from, k) ==> settled(
                #[trigger] ps[seat_after(from, j, ps.len() as int)],
                h,
            ),
        wait_scan(ps, h, from, k) < ps.len() ==> !settled(
            ps[seat_after(from, wait_scan(ps, h, from, k), ps.len() as int)],
            h,
        ),
        forall|j: int|
            k <= j < ps.len() && !settled(#[trigger] ps[seat_after(from, j, ps.len() as int)], h)
                ==> wait_scan(ps, h, from, k) <= j,
    decreases ps.len() - k,
{
    if k < ps.len() && settled(ps[seat_after(from, k, ps.len() as int)], h) {
        lemma_wait_scan(ps, h, from, k + 1);
    }
}

/// `actor_scan` stops no later than a seat whose player can act.
proof fn lemma_actor_scan_within(ps: Seq<PlayerModel>, from: int, k: int, d: int)
    requires
        1 <= k <= d <= ps.len(),
        can_act(ps[seat_after(from, d, ps.len() as int)]),
    ensures
        exists|e: int| k <= e <= d && actor_scan(ps, from, k) == #[trigger] seat_after(from, e, ps.len() as int),
    decreases d - k,
{
    let n = ps.len() as int;
    if can_act(ps[(from + k) % n]) {
        assert(actor_scan(ps, from, k) == seat_after(from, k, n));
    } else {
        assert(k != d);
        lemma_actor_scan_within(ps, from, k + 1, d);
    }
}

/// The seat `j` places after the seat `e` places after `from` is `e + j` places after it.
proof fn lemma_seat_after_add(from: int, e: int, j: int, n: int)
    requires
        n > 0,
        from >= 0,
        e >= 0,
        0 <= j,
    ensures
        seat_after(seat_after(from, e, n), j, n) == seat_after(from, e + j, n),
{
    let x = from + e;
    vstd::arithmetic::div_mod::lemma_add_mod_noop(x, j, n);
    vstd::arithmetic::div_mod::lemma_add_mod_noop(x % n, j, n);
    vstd::arithmetic::div_mod::lemma_mod_twice(x, n);
    assert(seat_after(x % n, j, n) == (x % n + j) % n);
    assert(seat_after(from, e + j, n) == (x + j) % n);
}

/// Every accepted action other than a raise of nothing moves the hand forward: it ends
/// the betting round or the hand, or puts chips into the pot, or settles what the player
/// owed, or, from a player who owed nothing, passes the turn nearer to one who does.
pub proof fn law_action_moves_hand_forward(m: GameModel, id: usize, a: PlayerAction)
    requires
        well_formed(m),
        is_betting(m.phase),
        a != PlayerAction::Raise(0),
        process(m, id, a).1 is Ok,
    ensures
        hand_advanced(m, process(m, id, a).0),
{
    let i = m.current_turn as int;
    let n = m.players.len() as int;
    lemma_apply_action(m, i, a);
    let m1 = apply_action(m, i, a).0;
    if count_unfolded(m1.players) <= 1 {
    } else if round_complete(m1) {
        lemma_advance_street(m1);
        lemma_run_out_facts(advance_street(m1).0);
    } else {
        let ps = m.players;
        let ps1 = m1.players;
        let h = m.highest;
        lemma_total_bound(ps, i);
        lemma_actor_scan_range(ps1, i, 1);
        if let PlayerAction::Raise(x) = a {
            assert(x > 0);
        } else {
            let q = ps1[i];
            assert(ps1 =~= ps.update(i, q));
            assert(m1.highest == h);
            assert(settled(q, h));
            lemma_total_update(ps, i, q);
            lemma_unsettled_update(ps, h, i, q);
            if settled(ps[i], h) {
                let w = choose|w: int| 0 <= w < n && !settled(ps1[w], m1.highest);
                assert(w != i);
                lemma_seat_reached(n, i, w);
                let dd = choose|dd: int| 1 <= dd <= n && #[trigger] seat_after(i, dd, n) == w;
                vstd::arithmetic::div_mod::lemma_mod_add_multiples_vanish(i, n);
                vstd::arithmetic::div_mod::lemma_small_mod(i as nat, n as nat);
                assert(dd != n);
                lemma_wait_scan(ps, h, i, 0);
                assert(ps[seat_after(i, dd, n)] == ps1[w]);
                let d = wait_scan(ps, h, i, 0);
                assert(d <= dd);
                assert(d != 0);
                let f = seat_after(i, d, n);
                assert(f != i);
                assert(ps1[f] == ps[f]);
                lemma_actor_scan_within(ps1, i, 1, d);
                let e = choose|e: int| 1 <= e <= d && actor_scan(ps1, i, 1) == #[trigger] seat_after(i, e, n);
                let t = seat_after(i, e, n);
                lemma_seat_after_add(i, e, d - e, n);
                vstd::arithmetic::div_mod::lemma_mod_bound(i + e, n);
                lemma_wait_scan(ps1, h, t, 0);
                assert(!settled(ps1[seat_after(t, d - e, n)], h));
            }
        }
    }
}

proof fn lemma_wait_scan_same(ps: Seq<PlayerModel>, qs: Seq<PlayerModel>, h: u32, from: int, k: int)
    requires
        ps.len() == qs.len(),
        forall|j: int| 0 <= j < ps.len() ==> settled(#[trigger] ps[j], h) == settled(qs[j], h),
    ensures
        wait_scan(ps, h, from, k) == wait_scan(qs, h, from, k),
    decreases ps.len() - k,
{
    if k < ps.len() && k >= 0 {
        vstd::arithmetic::div_mod::lemma_mod_bound(from + k, ps.len() as int);
        lemma_wait_scan_same(ps, qs, h, from, k + 1);
    }
}

/// A bot's turn at the server always moves the hand forward, whatever the bot chose, as
/// long as it is not a raise of nothing (a bot's raise is never that): its bet, or the
/// call or check that replaces a refused one, goes through, and the table it leaves is
/// further on than the one it found.
pub proof fn law_bot_turn_moves_hand_forward(m: GameModel, a: PlayerAction)
    requires
        well_formed(m),
        is_betting(m.phase),
        a != PlayerAction::Raise(0),
    ensures
        ({
            let me = m.players[m.current_turn as int];
            hand_advanced(m, bot_act(m, me.id, a, (m.highest - me.current_bet) as u32).0)
        }),
{
    let i = m.current_turn as int;
    let me = m.players[i];
    let id = me.id;
    let (m1, r1) = process(m, id, a);
    if r1 is Ok {
        law_action_moves_hand_forward(m, id, a);
    } else {
        lemma_apply_action(m, i, a);
        let ps = m.players;
        let ps1 = m1.players;
        let h = m.highest;
        let q = ps1[i];
        assert(m1 == apply_action(m, i, a).0);
        assert(ps1 =~= ps.update(i, q));
        assert(q == PlayerModel { has_acted: true, ..me });
        lemma_total_update(ps, i, q);
        lemma_unsettled_update(ps, h, i, q);
        if settled(q, h) == settled(me, h) {
            lemma_wait_scan_same(ps, ps1, h, i, 0);
        }
        let fallback = if h - me.current_bet > 0 {
            PlayerAction::Call
        } else {
            PlayerAction::Check
        };
        assert(process(m1, id, fallback).1 is Ok);
        law_action_moves_hand_forward(m1, id, fallback);
    }
}

} // verus!

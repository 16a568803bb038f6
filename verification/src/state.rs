use vstd::prelude::*;

use crate::card::{copy_cards, full_deck, Card};
use crate::deck::Deck;
use crate::evaluator::{evaluate, hand_key_of, hand_name, key_before};
use crate::event::{events_view, EventView, GameEvent, GamePhase, PlayerAction};
use crate::player::{fresh_player, Player, PlayerModel};
use crate::rules;
use crate::rules::{
    actor_scan, can_act, error_text, set_player, lemma_total_bound, pay, reopen, funded_scan, next_actor, next_funded, round_complete, settled,
    count_unfolded, total_chips, is_betting, drawn_cards, early_win, first_unfolded, last_standing, leveled, HANDS_PER_LEVEL, lemma_unfolded_prefix, lemma_first_unfolded, folded_text,
    full_hand, showdown_key, showdown_name, best_key_upto, is_winner, winners_upto, winners,
    pay_winners, share, clear_bets, phase_order, process, lemma_apply_action, lemma_advance_street,
    lemma_actor_scan_range, lemma_early_win, count_funded, start, reset_for_hand, deal_holes,
    lemma_deal_holes, lemma_post_blind, lemma_funded_same, SMALL_BLIND, lemma_clear_bets, lemma_total_same, lemma_winners_upto, lemma_pay_winners, lemma_paid_upto, is_active, well_formed, GameError, GameModel, BIG_BLIND,
};

verus! {

/// The table: who sits where, the cards, the pot and whose turn it is.
#[derive(Debug, Clone)]
pub struct GameState {
    pub phase: GamePhase,
    pub players: Vec<Player>,
    pub deck: Deck,
    pub community_cards: Vec<Card>,
    pub pot: u32,
    pub current_turn: usize,
    pub dealer_button: usize,
    pub current_highest_bet: u32,
    /// The smallest raise the table suggests (the big blind).
    pub min_raise: u32,
    /// The small blind the next hand posts.
    pub small_blind: u32,
    /// The big blind the next hand posts.
    pub big_blind: u32,
}

pub open spec fn players_view(ps: Seq<Player>) -> Seq<PlayerModel> {
    ps.map_values(|p: Player| p@)
}

impl View for GameState {
    type V = GameModel;

    open spec fn view(&self) -> GameModel {
        GameModel {
            phase: self.phase,
            players: players_view(self.players@),
            deck: self.deck@,
            community: self.community_cards@,
            pot: self.pot,
            current_turn: self.current_turn,
            dealer_button: self.dealer_button,
            highest: self.current_highest_bet,
            min_raise: self.min_raise,
            small_blind: self.small_blind,
            big_blind: self.big_blind,
        }
    }
}

/// A `process_action` or `start_game` result agrees with the rules' outcome:
/// the same events, or the message of the same refusal.
pub open spec fn outcome_matches(
    r: Result<Vec<GameEvent>, &'static str>,
    s: Result<Seq<EventView>, GameError>,
) -> bool {
    match (r, s) {
        (Ok(evs), Ok(sv)) => events_view(evs@) == sv,
        (Err(msg), Err(e)) => msg@ == error_text(e),
        _ => false,
    }
}

proof fn lemma_view_update(ps: Seq<Player>, i: int, p: Player)
    requires
        0 <= i < ps.len(),
    ensures
        players_view(ps.update(i, p)) == players_view(ps).update(i, p@),
{
    assert(players_view(ps.update(i, p)) =~= players_view(ps).update(i, p@));
}

pub proof fn lemma_view_push(ps: Seq<Player>, p: Player)
    ensures
        players_view(ps.push(p)) == players_view(ps).push(p@),
{
    assert(players_view(ps.push(p)) =~= players_view(ps).push(p@));
}

/// An empty table waiting for players, with the deck `deck`.
pub open spec fn fresh_table(deck: Seq<Card>) -> GameModel {
    GameModel {
        phase: GamePhase::WaitingForPlayers,
        players: Seq::empty(),
        deck,
        community: Seq::empty(),
        pot: 0,
        current_turn: 0,
        dealer_button: 0,
        highest: 0,
        min_raise: BIG_BLIND,
        small_blind: SMALL_BLIND,
        big_blind: BIG_BLIND,
    }
}

/// The hand has been shown down: it is over (or at the showdown) with two or more players
/// still in it.
pub open spec fn shown_down(m: GameModel) -> bool {
    (m.phase == GamePhase::Showdown || m.phase == GamePhase::Finished) && count_unfolded(
        m.players,
    ) >= 2
}

/// A seat as the player `viewer` may see it: one's own cards, and at a showdown the
/// cards of those still in the hand; every other hand stays hidden.
pub open spec fn seat_seen_by(m: GameModel, p: PlayerModel, viewer: usize) -> PlayerModel {
    if p.id == viewer || (shown_down(m) && !p.is_folded) {
        p
    } else {
        PlayerModel { hole_cards: Seq::empty(), ..p }
    }
}

/// The table as the player `viewer` may see it: hidden hands and no deck.
pub open spec fn table_seen_by(m: GameModel, viewer: usize) -> GameModel {
    GameModel {
        players: m.players.map_values(|p: PlayerModel| seat_seen_by(m, p, viewer)),
        deck: Seq::empty(),
        ..m
    }
}

impl GameState {
    /// An empty table waiting for players, with a fresh shuffled deck.
    pub fn new() -> (g: GameState)
        ensures
            g@ == fresh_table(g@.deck),
            g@.deck.to_multiset() == full_deck().to_multiset(),
            g@.phase == GamePhase::WaitingForPlayers,
            g@.players == Seq::<PlayerModel>::empty(),
            g@.deck.len() == 52,
            forall|c: Card| #[trigger] g@.deck.to_multiset().count(c) == 1,
            g@.community == Seq::<Card>::empty(),
            g@.pot == 0,
            g@.current_turn == 0,
            g@.dealer_button == 0,
            g@.highest == 0,
            g@.min_raise == BIG_BLIND,
            well_formed(g@),
    {
        let g = GameState {
            phase: GamePhase::WaitingForPlayers,
            players: Vec::new(),
            deck: Deck::new(),
            community_cards: Vec::with_capacity(5),
            pot: 0,
            current_turn: 0,
            dealer_button: 0,
            current_highest_bet: 0,
            min_raise: BIG_BLIND,
            small_blind: SMALL_BLIND,
            big_blind: BIG_BLIND,
        };
        assert(g@.players =~= Seq::<PlayerModel>::empty());
        g
    }

    /// A copy of this table as the player `viewer` may see it: the other players' cards
    /// hidden unless shown at a showdown, and the deck left out.
    pub fn seen_by(&self, viewer: usize) -> (r: GameState)
        ensures
            r@ == table_seen_by(self@, viewer),
    {
        let in_hand = self.active_players_count();
        let shown = (self.phase == GamePhase::Showdown || self.phase == GamePhase::Finished)
            && in_hand >= 2;
        let mut players: Vec<Player> = Vec::new();
        let mut i: usize = 0;
        while i < self.players.len()
            invariant
                i <= self.players@.len(),
                shown == shown_down(self@),
                players@.len() == i,
                forall|j: int|
                    0 <= j < i ==> (#[trigger] players@[j])@ == seat_seen_by(
                        self@,
                        self.players@[j]@,
                        viewer,
                    ),
            decreases self.players@.len() - i,
        {
            let mut p = self.players[i].copy();
            if !(p.id == viewer || (shown && !p.is_folded)) {
                p.hole_cards = Vec::new();
            }
            players.push(p);
            i = i + 1;
        }
        let r = GameState {
            phase: self.phase,
            players,
            deck: Deck::from_cards(Vec::new()),
            community_cards: copy_cards(&self.community_cards),
            pot: self.pot,
            current_turn: self.current_turn,
            dealer_button: self.dealer_button,
            current_highest_bet: self.current_highest_bet,
            min_raise: self.min_raise,
            small_blind: self.small_blind,
            big_blind: self.big_blind,
        };
        assert(r@ =~= table_seen_by(self@, viewer));
        r
    }

    /// A copy of this table.
    pub fn copy(&self) -> (r: GameState)
        ensures
            r@ == self@,
    {
        let mut players: Vec<Player> = Vec::new();
        let mut i: usize = 0;
        while i < self.players.len()
            invariant
                i <= self.players@.len(),
                players@.len() == i,
                forall|j: int| 0 <= j < i ==> (#[trigger] players@[j])@ == self.players@[j]@,
            decreases self.players@.len() - i,
        {
            players.push(self.players[i].copy());
            i = i + 1;
        }
        assert(players_view(players@) =~= players_view(self.players@));
        let r = GameState {
            phase: self.phase,
            players,
            deck: Deck::from_cards(copy_cards(self.deck.cards())),
            community_cards: copy_cards(&self.community_cards),
            pot: self.pot,
            current_turn: self.current_turn,
            dealer_button: self.dealer_button,
            current_highest_bet: self.current_highest_bet,
            min_raise: self.min_raise,
            small_blind: self.small_blind,
            big_blind: self.big_blind,
        };
        assert(r@ =~= self@);
        r
    }

    /// Raises the blinds for the hand that follows `hands_played` hands: both double after
    /// every fifth hand (up to the largest amount).
    pub fn level_blinds(&mut self, hands_played: u64)
        ensures
            final(self)@ == leveled(old(self)@, hands_played),
    {
        if hands_played > 0 && hands_played % HANDS_PER_LEVEL == 0 {
            self.small_blind = self.small_blind.saturating_add(self.small_blind);
            self.big_blind = self.big_blind.saturating_add(self.big_blind);
        }
    }

    /// Seats a new player at the end of the table.
    pub fn add_player(&mut self, id: usize, name: String, chips: u32)
        ensures
            final(self)@ == (GameModel {
                players: old(self)@.players.push(fresh_player(id, name@, chips)),
                ..old(self)@
            }),
            well_formed(old(self)@) && total_chips(old(self)@.players) + chips + (if is_active(
                old(self)@.phase,
            ) {
                old(self)@.pot as int
            } else {
                0
            }) <= u32::MAX ==> well_formed(final(self)@),
    {
        let p = Player::new(id, name, chips);
        proof {
            lemma_view_push(self.players@, p);
            let ps = old(self)@.players;
            let q = fresh_player(id, name@, chips);
            assert(ps.push(q).drop_last() =~= ps);
        }
        self.players.push(p);
        assert(self@.players.len() == self.players.len());
    }

    /// The next seat after `from` (going round the table) whose player has chips;
    /// `from % n` if nobody has chips.
    pub fn next_active_player(&self, from: usize) -> (r: usize)
        requires
            self.players@.len() > 0,
        ensures
            r == next_funded(self@.players, from as int),
            r < self.players@.len(),
    {
        let n = self.players.len();
        let ghost ps = self@.players;
        let mut t: usize = from % n;
        let mut step: usize = 0;
        proof {
            assert((from as int + 0) % (n as int) == (from as int) % (n as int));
        }
        while step < n
            invariant
                n == self.players@.len(),
                n > 0,
                ps == self@.players,
                step <= n,
                t < n,
                t as int == (from as int + step) % (n as int),
                funded_scan(ps, from as int, 1) == funded_scan(ps, from as int, step + 1),
            decreases n - step,
        {
            proof {
                lemma_mod_step(from as int + step, n as int);
            }
            t = (t + 1) % n;
            if self.players[t].chips > 0 {
                return t;
            }
            step = step + 1;
        }
        proof {
            vstd::arithmetic::div_mod::lemma_mod_add_multiples_vanish(from as int, n as int);
        }
        t
    }

    /// The next seat after `from` whose player can act; `from % n` if nobody can.
    fn next_actor_from(&self, from: usize) -> (r: usize)
        requires
            self.players@.len() > 0,
        ensures
            r == next_actor(self@.players, from as int),
            r < self.players@.len(),
    {
        let n = self.players.len();
        let ghost ps = self@.players;
        let mut t: usize = from % n;
        let mut step: usize = 0;
        proof {
            assert((from as int + 0) % (n as int) == (from as int) % (n as int));
        }
        while step < n
            invariant
                n == self.players@.len(),
                n > 0,
                ps == self@.players,
                step <= n,
                t < n,
                t as int == (from as int + step) % (n as int),
                actor_scan(ps, from as int, 1) == actor_scan(ps, from as int, step + 1),
            decreases n - step,
        {
            proof {
                lemma_mod_step(from as int + step, n as int);
            }
            t = (t + 1) % n;
            if !self.players[t].is_folded && !self.players[t].is_all_in {
                return t;
            }
            step = step + 1;
        }
        proof {
            vstd::arithmetic::div_mod::lemma_mod_add_multiples_vanish(from as int, n as int);
        }
        t
    }

    /// Passes the turn to the next seat after the current one whose player can act.
    fn advance_turn(&mut self)
        requires
            old(self).players@.len() > 0,
        ensures
            final(self)@ == (GameModel {
                current_turn: next_actor(old(self)@.players, old(self)@.current_turn as int) as usize,
                ..old(self)@
            }),
    {
        self.current_turn = self.next_actor_from(self.current_turn);
        assert(self@ =~= GameModel {
            current_turn: next_actor(old(self)@.players, old(self)@.current_turn as int) as usize,
            ..old(self)@
        });
    }

    /// Whether every player has folded, is all-in, or has acted and matched the highest bet.
    fn is_betting_round_complete(&self) -> (r: bool)
        ensures
            r == round_complete(self@),
    {
        let n = self.players.len();
        let mut i: usize = 0;
        while i < n
            invariant
                n == self.players@.len(),
                i <= n,
                forall|j: int| 0 <= j < i ==> #[trigger] settled(self@.players[j], self@.highest),
            decreases n - i,
        {
            let p = &self.players[i];
            if !(p.is_folded || p.is_all_in || (p.has_acted && p.current_bet
                == self.current_highest_bet)) {
                assert(!settled(self@.players[i as int], self@.highest));
                return false;
            }
            i = i + 1;
        }
        true
    }

    /// How many players have not folded.
    fn active_players_count(&self) -> (r: usize)
        ensures
            r == count_unfolded(self@.players),
    {
        let n = self.players.len();
        let ghost ps = self@.players;
        let mut count: usize = 0;
        let mut i: usize = 0;
        proof {
            assert(ps.take(0) =~= Seq::<PlayerModel>::empty());
        }
        while i < n
            invariant
                n == self.players@.len(),
                ps == self@.players,
                i <= n,
                count <= i,
                count == count_unfolded(ps.take(i as int)),
            decreases n - i,
        {
            proof {
                assert(ps.take(i + 1).drop_last() =~= ps.take(i as int));
            }
            if !self.players[i].is_folded {
                count = count + 1;
            }
            i = i + 1;
        }
        proof {
            assert(ps.take(n as int) =~= ps);
        }
        count
    }
    /// Draws up to `count` cards onto the board (the rules' `deal`).
    fn deal_community_cards(&mut self, count: usize, events: &mut Vec<GameEvent>)
        ensures
            final(self)@ == rules::deal(old(self)@, count as int).0,
            events_view(final(events)@) == events_view(old(events)@) + rules::deal(
                old(self)@,
                count as int,
            ).1,
    {
        let ghost e0 = events@;
        events.push(GameEvent::PhaseChanged(self.phase));
        let ghost d0 = self.deck@;
        let ghost c0 = self.community_cards@;
        let ghost mid = self@;
        let mut drawn: Vec<Card> = Vec::new();
        let mut t: usize = 0;
        while t < count
            invariant
                t <= count,
                drawn@ == drawn_cards(d0, if (t as int) < d0.len() { t as int } else { d0.len() as int }),
                self.deck@ == d0.take(d0.len() - if (t as int) < d0.len() { t as int } else { d0.len() as int }),
                self.community_cards@ == c0 + drawn@,
                self@ == (GameModel { deck: self.deck@, community: self.community_cards@, ..mid }),
            decreases count - t,
        {
            let ghost k = if (t as int) < d0.len() { t as int } else { d0.len() as int };
            match self.deck.draw() {
                Some(card) => {
                    self.community_cards.push(card);
                    drawn.push(card);
                    proof {
                        assert(drawn@ =~= drawn_cards(d0, k + 1));
                        assert(self.deck@ =~= d0.take(d0.len() - (k + 1)));
                    }
                },
                None => {},
            }
            t = t + 1;
            proof {
                assert(self.community_cards@ =~= c0 + drawn@);
            }
        }
        let ghost k = if (count as int) < d0.len() { count as int } else { d0.len() as int };
        proof {
            assert(drawn@ =~= drawn_cards(d0, k));
        }
        events.push(GameEvent::CommunityCardsRevealed(drawn));
        proof {
            assert(events_view(events@) =~= events_view(e0) + rules::deal(old(self)@, count as int).1);
            assert(self@ =~= rules::deal(old(self)@, count as int).0);
        }
    }

    /// The seat of the first player who has not folded, if any.
    fn first_unfolded_seat(&self) -> (r: Option<usize>)
        ensures
            count_unfolded(self@.players) > 0 ==> r == Some(first_unfolded(self@.players) as usize),
            count_unfolded(self@.players) == 0 ==> r is None,
            r matches Some(w) ==> w < self@.players.len() && w as int == first_unfolded(
                self@.players,
            ),
    {
        let n = self.players.len();
        let ghost ps = self@.players;
        let mut i: usize = 0;
        while i < n
            invariant
                n == ps.len(),
                ps == self@.players,
                i <= n,
                forall|j: int| 0 <= j < i ==> #[trigger] ps[j].is_folded,
            decreases n - i,
        {
            if !self.players[i].is_folded {
                proof {
                    lemma_unfolded_prefix(ps, i as int);
                }
                return Some(i);
            }
            i = i + 1;
        }
        proof {
            lemma_unfolded_prefix(ps, n as int);
        }
        None
    }

    /// The last player standing takes the pot (the rules' `early_win`): the one player
    /// still in the hand, or `actor` when its fold left nobody in it.
    fn handle_early_win(&mut self, actor: usize, events: &mut Vec<GameEvent>)
        requires
            count_unfolded(old(self)@.players) <= 1,
            actor < old(self)@.players.len(),
            total_chips(old(self)@.players) + old(self)@.pot <= u32::MAX,
        ensures
            final(self)@ == early_win(old(self)@, actor as int).0,
            events_view(final(events)@) == events_view(old(events)@) + early_win(
                old(self)@,
                actor as int,
            ).1,
    {
        let ghost e0 = events@;
        self.phase = GamePhase::Finished;
        events.push(GameEvent::PhaseChanged(self.phase));
        assert(self@.players == old(self)@.players);
        let seat = self.first_unfolded_seat();
        let w: usize = match seat {
            Some(x) => x,
            None => actor,
        };
        proof {
            if count_unfolded(old(self)@.players) > 0 {
                lemma_first_unfolded(old(self)@.players);
            }
            assert(w as int == last_standing(old(self)@.players, actor as int));
            lemma_total_bound(old(self)@.players, w as int);
        }
        let pot = self.pot;
        let ghost before = self.players@;
        let id = {
            let p = &mut self.players[w];
            p.chips = p.chips + pot;
            p.id
        };
        proof {
            lemma_view_update(before, w as int, self.players@[w as int]);
        }
        events.push(GameEvent::PotAwarded(id, pot, String::from_str("Everyone else folded")));
        proof {
            let m = old(self)@;
            let fw = last_standing(m.players, actor as int);
            assert(m.players.len() == old(self).players.len());
            assert(w as int == fw);
            assert(self@.players =~= m.players.update(
                fw,
                PlayerModel { chips: (m.players[fw].chips + m.pot) as u32, ..m.players[fw] },
            ));
            assert(events@.len() == e0.len() + 2);
            assert(events@[e0.len() as int]@ == EventView::PhaseChanged(GamePhase::Finished));
            assert(events@[e0.len() as int + 1]@ == EventView::PotAwarded(m.players[fw].id, m.pot, folded_text()));
            assert(events_view(events@) =~= events_view(e0) + early_win(old(self)@, actor as int).1);
            assert(self@ =~= early_win(old(self)@, actor as int).0);
        }
    }

    /// The hole cards of seat `i` followed by the board.
    fn full_hand_of(&self, i: usize) -> (r: Vec<Card>)
        requires
            i < self.players@.len(),
        ensures
            r@ == full_hand(self@, i as int),
    {
        let mut r: Vec<Card> = Vec::new();
        let hole = &self.players[i].hole_cards;
        let mut j: usize = 0;
        while j < hole.len()
            invariant
                j <= hole@.len(),
                r@ == hole@.take(j as int),
            decreases hole@.len() - j,
        {
            r.push(hole[j]);
            j = j + 1;
            assert(r@ =~= hole@.take(j as int));
        }
        let mut k: usize = 0;
        while k < self.community_cards.len()
            invariant
                k <= self.community_cards@.len(),
                r@ == hole@ + self.community_cards@.take(k as int),
            decreases self.community_cards@.len() - k,
        {
            r.push(self.community_cards[k]);
            k = k + 1;
            assert(r@ =~= hole@ + self.community_cards@.take(k as int));
        }
        assert(r@ =~= full_hand(self@, i as int));
        r
    }

    /// The players still in compare hands, the strongest split the pot, and the hand is
    /// over (the rules' `showdown`).
    fn showdown(&mut self, events: &mut Vec<GameEvent>)
        requires
            total_chips(old(self)@.players) + old(self)@.pot <= u32::MAX,
        ensures
            final(self)@ == rules::showdown(old(self)@).0,
            events_view(final(events)@) == events_view(old(events)@) + rules::showdown(
                old(self)@,
            ).1,
    {
        let ghost m = self@;
        let ghost e0 = events@;
        let n = self.players.len();
        let mut keys: Vec<Vec<u8>> = Vec::new();
        let mut names: Vec<String> = Vec::new();
        let mut i: usize = 0;
        while i < n
            invariant
                n == self.players@.len(),
                self@ == m,
                i <= n,
                keys@.len() == i,
                names@.len() == i,
                forall|j: int| 0 <= j < i ==> (#[trigger] keys@[j])@ == showdown_key(m, j),
                forall|j: int| 0 <= j < i ==> (#[trigger] names@[j])@ == showdown_name(m, j),
            decreases n - i,
        {
            let hand = self.full_hand_of(i);
            if hand.len() >= 5 {
                let h = evaluate(hand.as_slice());
                keys.push(hand_key_of(&h));
                names.push(hand_name(&h));
            } else {
                keys.push(Vec::new());
                names.push(String::new());
                assert(keys@[i as int]@ =~= showdown_key(m, i as int));
            }
            i = i + 1;
        }
        let mut best: Option<usize> = None;
        i = 0;
        while i < n
            invariant
                n == self.players@.len(),
                self@ == m,
                i <= n,
                keys@.len() == n,
                forall|j: int| 0 <= j < n ==> (#[trigger] keys@[j])@ == showdown_key(m, j),
                match best_key_upto(m, i as int) {
                    None => best is None,
                    Some(x) => best matches Some(b) && b < n && keys@[b as int]@ == x,
                },
            decreases n - i,
        {
            if !self.players[i].is_folded {
                match best {
                    None => {
                        best = Some(i);
                    },
                    Some(b) => {
                        if key_before(&keys[b], &keys[i]) {
                            best = Some(i);
                        }
                    },
                }
            }
            i = i + 1;
        }
        let mut ws: Vec<usize> = Vec::new();
        i = 0;
        while i < n
            invariant
                n == self.players@.len(),
                self@ == m,
                i <= n,
                keys@.len() == n,
                forall|j: int| 0 <= j < n ==> (#[trigger] keys@[j])@ == showdown_key(m, j),
                match best_key_upto(m, n as int) {
                    None => best is None,
                    Some(x) => best matches Some(b) && b < n && keys@[b as int]@ == x,
                },
                ws@.len() == winners_upto(m, i as int).len(),
                forall|t: int| 0 <= t < ws@.len() ==> #[trigger] ws@[t] as int == winners_upto(m, i as int)[t],
            decreases n - i,
        {
            let win = match best {
                None => false,
                Some(b) => !self.players[i].is_folded && keys_equal(&keys[b], &keys[i]),
            };
            assert(win == is_winner(m, i as int));
            if win {
                ws.push(i);
            }
            i = i + 1;
        }
        let ghost wsq = winners(m);
        proof {
            lemma_winners_upto(m, n as int);
            assert(ws@.len() == wsq.len());
        }
        let c = ws.len();
        if c > 0 {
            let pot = self.pot;
            let each: u64 = (pot as u64) / (c as u64);
            let odd: u64 = (pot as u64) % (c as u64);
            let mut j: usize = 0;
            while j < c
                invariant
                    c == ws@.len(),
                    c == wsq.len(),
                    c > 0,
                    j <= c,
                    n == self.players@.len(),
                    n == m.players.len(),
                    names@.len() == n,
                    forall|k: int| 0 <= k < n ==> (#[trigger] names@[k])@ == showdown_name(m, k),
                    forall|t: int| 0 <= t < c ==> #[trigger] ws@[t] as int == wsq[t],
                    forall|t: int| 0 <= t < c ==> 0 <= #[trigger] wsq[t] < n,
                    pot == m.pot,
                    each as int == pot as int / c as int,
                    odd as int == pot as int % c as int,
                    total_chips(m.players) + m.pot <= u32::MAX,
                    self@ == (GameModel { players: pay_winners(m, wsq, j as int).0, ..m }),
                    events_view(events@) == events_view(e0) + pay_winners(m, wsq, j as int).1,
                decreases c - j,
            {
                let seat = ws[j];
                let ghost ps = pay_winners(m, wsq, j as int).0;
                proof {
                    lemma_pay_winners(m, wsq, j as int);
                    lemma_pay_winners(m, wsq, j + 1);
                    lemma_paid_upto(pot, c as int, j as int);
                    lemma_paid_upto(pot, c as int, j + 1);
                    lemma_total_bound(ps, seat as int);
                }
                let amount: u32 = if j == 0 {
                    (each + odd) as u32
                } else {
                    each as u32
                };
                assert(amount as int == share(pot, c as int, j as int));
                let ghost before = self.players@;
                let id = {
                    let p = &mut self.players[seat];
                    p.chips = p.chips + amount;
                    p.id
                };
                proof {
                    lemma_view_update(before, seat as int, self.players@[seat as int]);
                }
                let name = names[seat].clone();
                let ghost e1 = events@;
                events.push(GameEvent::PotAwarded(id, amount, name));
                j = j + 1;
                proof {
                    assert(events_view(events@) =~= events_view(e1).push(
                        EventView::PotAwarded(id, amount, showdown_name(m, seat as int)),
                    ));
                    assert(self@.players =~= pay_winners(m, wsq, j as int).0);
                    assert(self@ =~= (GameModel { players: pay_winners(m, wsq, j as int).0, ..m }));
                    assert(events_view(events@) =~= events_view(e0) + pay_winners(
                        m,
                        wsq,
                        j as int,
                    ).1);
                }
            }
        } else {
            assert(self@ =~= (GameModel { players: pay_winners(m, wsq, 0).0, ..m }));
            assert(events_view(events@) =~= events_view(e0) + pay_winners(m, wsq, 0).1);
        }
        let ghost e2 = events@;
        self.phase = GamePhase::Finished;
        events.push(GameEvent::PhaseChanged(GamePhase::Finished));
        proof {
            assert(events_view(events@) =~= events_view(e2).push(
                EventView::PhaseChanged(GamePhase::Finished),
            ));
            assert(self@ =~= rules::showdown(m).0);
            assert(events_view(events@) =~= events_view(e0) + rules::showdown(m).1);
        }
    }

    /// Moves to the next street (the rules' `advance_street`).
    fn advance_phase(&mut self, events: &mut Vec<GameEvent>)
        requires
            is_active(old(self)@.phase),
            well_formed(old(self)@),
        ensures
            final(self)@ == rules::advance_street(old(self)@).0,
            events_view(final(events)@) == events_view(old(events)@) + rules::advance_street(
                old(self)@,
            ).1,
    {
        let ghost m = self@;
        let n = self.players.len();
        let mut i: usize = 0;
        while i < n
            invariant
                n == self.players@.len(),
                n == m.players.len(),
                i <= n,
                self@ == (GameModel { players: self@.players, ..m }),
                self@.players == Seq::new(
                    n as nat,
                    |t: int|
                        if t < i {
                            PlayerModel { current_bet: 0, has_acted: false, ..m.players[t] }
                        } else {
                            m.players[t]
                        },
                ),
            decreases n - i,
        {
            let ghost before = self.players@;
            assert(self@.players[i as int] == m.players[i as int]);
            assert(self@.players[i as int] == m.players[i as int]);
            assert(self.players@[i as int]@ == m.players[i as int]);
            {
                let p = &mut self.players[i];
                p.current_bet = 0;
                p.has_acted = false;
            }
            proof {
                lemma_view_update(before, i as int, self.players@[i as int]);
            }
            i = i + 1;
            proof {
                assert(self@.players =~= Seq::new(
                    n as nat,
                    |t: int|
                        if t < i {
                            PlayerModel { current_bet: 0, has_acted: false, ..m.players[t] }
                        } else {
                            m.players[t]
                        },
                ));
            }
        }
        proof {
            assert(self@.players =~= clear_bets(m.players));
            lemma_clear_bets(m.players);
            lemma_total_same(clear_bets(m.players), m.players);
        }
        self.current_highest_bet = 0;
        let ghost e0 = events@;
        match self.phase {
            GamePhase::PreFlop => {
                self.phase = GamePhase::Flop;
                self.deal_community_cards(3, events);
            },
            GamePhase::Flop => {
                self.phase = GamePhase::Turn;
                self.deal_community_cards(1, events);
            },
            GamePhase::Turn => {
                self.phase = GamePhase::River;
                self.deal_community_cards(1, events);
            },
            GamePhase::River => {
                self.phase = GamePhase::Showdown;
                events.push(GameEvent::PhaseChanged(self.phase));
                proof {
                    assert(events_view(events@) =~= events_view(e0) + seq![
                        EventView::PhaseChanged(GamePhase::Showdown),
                    ]);
                }
            },
            _ => {
                proof {
                    assert(events_view(events@) =~= events_view(e0) + Seq::<EventView>::empty());
                }
            },
        }
        self.current_turn = self.next_actor_from(self.dealer_button);
        if self.phase == GamePhase::Showdown {
            let ghost e1 = events@;
            self.showdown(events);
        }
        proof {
            assert(self@ =~= rules::advance_street(m).0);
            assert(events_view(events@) =~= events_view(e0) + rules::advance_street(m).1);
        }
    }

    /// Deals on while nobody can act in the betting round (the rules' `run_out`).
    fn run_out(&mut self, events: &mut Vec<GameEvent>)
        requires
            well_formed(old(self)@),
        ensures
            final(self)@ == rules::run_out(old(self)@).0,
            events_view(final(events)@) == events_view(old(events)@) + rules::run_out(
                old(self)@,
            ).1,
            well_formed(final(self)@),
    {
        let ghost m0 = self@;
        let ghost e0 = events@;
        while is_betting_phase(self.phase) && self.is_betting_round_complete()
            invariant
                well_formed(self@),
                rules::run_out(self@).0 == rules::run_out(m0).0,
                events_view(events@) + rules::run_out(self@).1 == events_view(e0) + rules::run_out(
                    m0,
                ).1,
            decreases 6 - phase_order(self@.phase),
        {
            let ghost m = self@;
            let ghost e1 = events@;
            proof {
                lemma_advance_street(m);
            }
            self.advance_phase(events);
            proof {
                let (m2, e2) = rules::advance_street(m);
                assert(rules::run_out(m).1 == e2 + rules::run_out(m2).1);
                assert(events_view(events@) + rules::run_out(self@).1 =~= events_view(e1)
                    + rules::run_out(m).1);
            }
        }
        proof {
            assert(events_view(events@) + rules::run_out(self@).1 =~= events_view(events@));
        }
    }

    /// The player `player_id`, whose turn it must be, takes `action`.
    /// Refused when no hand is running, when it is another player's turn, when checking
    /// facing a bet, or when raising more than the player's chips allow. After an accepted
    /// action: if at most one player is left in the hand, the last one standing takes the
    /// pot (the actor, when its fold left nobody in the hand); if the betting round is
    /// complete, the next street is dealt (and, while nobody can act, the board is run out
    /// to the showdown); otherwise the turn passes to the next player who can act.
    pub fn process_action(&mut self, player_id: usize, action: PlayerAction) -> (r: Result<
        Vec<GameEvent>,
        &'static str,
    >)
        requires
            well_formed(old(self)@),
        ensures
            final(self)@ == process(old(self)@, player_id, action).0,
            outcome_matches(r, process(old(self)@, player_id, action).1),
            well_formed(final(self)@),
    {
        if self.phase == GamePhase::WaitingForPlayers || self.phase == GamePhase::Finished {
            return Err("Game is not active.");
        }
        let p_index = self.current_turn;
        if self.players[p_index].id != player_id {
            return Err("It is not this player's turn.");
        }
        proof {
            lemma_apply_action(self@, p_index as int, action);
        }
        let mut events: Vec<GameEvent> = Vec::new();
        match self.apply_action(p_index, &action) {
            Err(e) => {
                return Err(e);
            },
            Ok(()) => {},
        }
        let ghost m1 = self@;
        events.push(GameEvent::PlayerActed(player_id, action));
        let ghost e0 = events@;
        proof {
            assert(events_view(e0) =~= seq![EventView::PlayerActed(player_id, action)]);
        }
        if self.active_players_count() <= 1 {
            self.handle_early_win(p_index, &mut events);
            proof {
                lemma_early_win(m1, p_index as int);
            }
            return Ok(events);
        }
        if self.is_betting_round_complete() {
            proof {
                lemma_advance_street(m1);
            }
            self.advance_phase(&mut events);
            self.run_out(&mut events);
        } else {
            proof {
                lemma_actor_scan_range(m1.players, p_index as int, 1);
            }
            assert(self.current_turn == p_index);
            self.advance_turn();
        }
        Ok(events)
    }

    /// How many players have chips.
    pub fn funded_count(&self) -> (r: usize)
        ensures
            r == count_funded(self@.players),
    {
        let n = self.players.len();
        let ghost ps = self@.players;
        let mut count: usize = 0;
        let mut i: usize = 0;
        proof {
            assert(ps.take(0) =~= Seq::<PlayerModel>::empty());
        }
        while i < n
            invariant
                n == self.players@.len(),
                ps == self@.players,
                i <= n,
                count <= i,
                count == count_funded(ps.take(i as int)),
            decreases n - i,
        {
            proof {
                assert(ps.take(i + 1).drop_last() =~= ps.take(i as int));
            }
            if self.players[i].chips > 0 {
                count = count + 1;
            }
            i = i + 1;
        }
        proof {
            assert(ps.take(n as int) =~= ps);
        }
        count
    }

    /// Seat `i` posts a blind of `amount`, or all its chips if fewer (the rules' `post_blind`).
    fn post_blind(&mut self, i: usize, amount: u32)
        requires
            i < old(self).players@.len(),
            total_chips(old(self)@.players) + old(self)@.pot <= u32::MAX,
            old(self)@.players[i as int].current_bet + old(self)@.players[i as int].chips <= u32::MAX,
        ensures
            final(self)@ == rules::post_blind(old(self)@, i as int, amount),
            final(self).players@.len() == old(self).players@.len(),
    {
        proof {
            lemma_total_bound(old(self)@.players, i as int);
        }
        let chips = self.players[i].chips;
        let paid = if amount < chips {
            amount
        } else {
            chips
        };
        let ghost before = self.players@;
        {
            let p = &mut self.players[i];
            p.chips = p.chips - paid;
            p.current_bet = p.current_bet + paid;
            p.is_all_in = !p.is_folded && p.chips == 0;
        }
        self.pot = self.pot + paid;
        proof {
            lemma_view_update(before, i as int, self.players@[i as int]);
            assert(self@ =~= rules::post_blind(old(self)@, i as int, amount));
        }
    }

    /// Starts a hand with a freshly shuffled deck (see `start_game_with_deck`).
    pub fn start_game(&mut self) -> (r: Result<Vec<GameEvent>, &'static str>)
        requires
            well_formed(old(self)@),
        ensures
            exists|d: Seq<Card>|
                {
                    &&& d.len() == 52
                    &&& d.to_multiset() == full_deck().to_multiset()
                    &&& final(self)@ == start(old(self)@, d).0
                    &&& outcome_matches(r, start(old(self)@, d).1)
                },
            well_formed(final(self)@),
    {
        let deck = Deck::new();
        let ghost d = deck@;
        let r = self.start_game_with_deck(deck);
        assert(d.len() == 52 && d.to_multiset() == full_deck().to_multiset() && self@ == start(
            old(self)@,
            d,
        ).0 && outcome_matches(r, start(old(self)@, d).1));
        r
    }

    /// Starts a hand, taking `deck` as the shuffled deck (cards are drawn from its end).
    /// Refused when fewer than two players are seated. Otherwise every seated player is
    /// cleared for the hand and dealt in, each is dealt two hole cards in seat order, the blinds are posted, and the first player after the big blind
    /// who can act is to act.
    pub fn start_game_with_deck(&mut self, deck: Deck) -> (r: Result<Vec<GameEvent>, &'static str>)
        requires
            well_formed(old(self)@),
        ensures
            final(self)@ == start(old(self)@, deck@).0,
            outcome_matches(r, start(old(self)@, deck@).1),
            well_formed(final(self)@),
    {
        let ghost m = self@;
        let ghost d0 = deck@;
        let n = self.players.len();
        if n < 2 {
            return Err("Not enough players to start.");
        }
        let ghost reset = m.players.map_values(|p: PlayerModel| reset_for_hand(p));
        self.phase = GamePhase::PreFlop;
        self.deck = deck;
        self.community_cards.clear();
        self.pot = 0;
        self.current_highest_bet = 0;
        self.min_raise = self.big_blind;
        let ghost mid = self@;
        let mut i: usize = 0;
        proof {
            lemma_deal_holes(reset, d0, 0);
            assert(self@.players =~= Seq::new(
                n as nat,
                |t: int|
                    if t < 0 {
                        deal_holes(reset, d0, 0).0[t]
                    } else {
                        m.players[t]
                    },
            ));
        }
        while i < n
            invariant
                n == self.players@.len(),
                n == m.players.len(),
                reset.len() == n,
                reset == m.players.map_values(|p: PlayerModel| reset_for_hand(p)),
                i <= n,
                self@ == (GameModel { players: self@.players, deck: self@.deck, ..mid }),
                self@.players == Seq::new(
                    n as nat,
                    |t: int|
                        if t < i {
                            deal_holes(reset, d0, i as int).0[t]
                        } else {
                            m.players[t]
                        },
                ),
                self@.deck == deal_holes(reset, d0, i as int).1,
            decreases n - i,
        {
            proof {
                lemma_deal_holes(reset, d0, i as int);
                lemma_deal_holes(reset, d0, i + 1);
            }
            let ghost before = self.players@;
            let ghost dk = self@.deck;
            assert(self@.players[i as int] == m.players[i as int]);
            assert(self.players@[i as int]@ == m.players[i as int]);
            {
                let p = &mut self.players[i];
                p.is_folded = false;
                p.is_all_in = false;
                p.has_acted = false;
                p.current_bet = 0;
                p.hole_cards.clear();
            }
            let c1 = self.deck.draw();
            match c1 {
                Some(c) => {
                    self.players[i].hole_cards.push(c);
                },
                None => {},
            }
            let c2 = self.deck.draw();
            match c2 {
                Some(c) => {
                    self.players[i].hole_cards.push(c);
                },
                None => {},
            }
            proof {
                let take = if dk.len() < 2 {
                    dk.len() as int
                } else {
                    2
                };
                assert(self.players@[i as int].hole_cards@ =~= reset[i as int].hole_cards + drawn_cards(dk, take));
                assert(self@.deck =~= dk.take(dk.len() - take));
                assert(self.players@ =~= before.update(i as int, self.players@[i as int]));
                lemma_view_update(before, i as int, self.players@[i as int]);
                assert(reset[i as int] == reset_for_hand(m.players[i as int]));
                assert(self.players@[i as int]@ == deal_holes(reset, d0, i + 1).0[i as int]);
                assert(deal_holes(reset, d0, i + 1).0 == deal_holes(reset, d0, i as int).0.update(
                    i as int,
                    deal_holes(reset, d0, i + 1).0[i as int],
                ));
            }
            i = i + 1;
            proof {
                assert(self@.players =~= Seq::new(
                    n as nat,
                    |t: int|
                        if t < i {
                            deal_holes(reset, d0, i as int).0[t]
                        } else {
                            m.players[t]
                        },
                ));
                assert(self@ =~= (GameModel { players: self@.players, deck: self@.deck, ..mid }));
            }
        }
        let ghost m1 = self@;
        proof {
            lemma_deal_holes(reset, d0, n as int);
            assert(m1.players =~= deal_holes(reset, d0, n as int).0);
            assert forall|t: int| 0 <= t < n implies (#[trigger] m1.players[t]).chips
                == m.players[t].chips && m1.players[t].current_bet == 0
                by {
                assert(m1.players[t] == (PlayerModel {
                    hole_cards: m1.players[t].hole_cards,
                    ..reset[t]
                }));
            }
            lemma_total_same(m1.players, m.players);
            lemma_funded_same(m1.players, m.players);
        }
        let sb = if self.funded_count() == 2 {
            self.dealer_button % n
        } else {
            self.next_active_player(self.dealer_button)
        };
        let bb = self.next_active_player(sb);
        proof {
            lemma_total_bound(m1.players, sb as int);
            lemma_total_bound(m1.players, bb as int);
        }
        self.post_blind(sb, self.small_blind);
        let ghost m2 = self@;
        proof {
            lemma_post_blind(m1, sb as int, m.small_blind);
        }
        self.post_blind(bb, self.big_blind);
        let ghost m3 = self@;
        proof {
            lemma_post_blind(m2, bb as int, m.big_blind);
        }
        let sb_bet = self.players[sb].current_bet;
        let bb_bet = self.players[bb].current_bet;
        self.current_highest_bet = if sb_bet < bb_bet {
            bb_bet
        } else {
            sb_bet
        };
        self.current_turn = self.next_actor_from(bb);
        let mut events: Vec<GameEvent> = Vec::new();
        events.push(GameEvent::GameStarted);
        events.push(GameEvent::PhaseChanged(GamePhase::PreFlop));
        proof {
            let m4 = self@;
            lemma_actor_scan_range(m3.players, bb as int, 1);
            assert forall|t: int| 0 <= t < n implies {
                &&& #[trigger] m4.players[t].current_bet <= m4.highest
                &&& m4.players[t].current_bet + m4.players[t].chips <= u32::MAX
                    } by {
                lemma_total_bound(m1.players, t);
            }
            assert(well_formed(m4));
            assert(events_view(events@) =~= seq![
                EventView::GameStarted,
                EventView::PhaseChanged(GamePhase::PreFlop),
            ]);
        }
        let ghost e0 = events@;
        self.run_out(&mut events);
        proof {
            assert(self@ =~= start(m, d0).0);
        }
        Ok(events)
    }

    /// Seat `i` puts `amount` from its stack into the pot (the rules' `pay`).
    fn pay_into_pot(&mut self, i: usize, amount: u32)
        requires
            i < old(self).players@.len(),
            amount <= old(self).players@[i as int].chips,
            old(self).pot + amount <= u32::MAX,
            old(self).players@[i as int].current_bet + amount <= u32::MAX,
        ensures
            final(self)@ == (GameModel {
                players: old(self)@.players.update(
                    i as int,
                    pay(old(self)@.players[i as int], amount as int),
                ),
                pot: (old(self).pot + amount) as u32,
                ..old(self)@
            }),
            final(self).players@.len() == old(self).players@.len(),
    {
        let ghost before = self.players@;
        {
            let p = &mut self.players[i];
            p.chips = p.chips - amount;
            p.current_bet = p.current_bet + amount;
            if p.chips == 0 {
                p.is_all_in = true;
            }
        }
        self.pot = self.pot + amount;
        proof {
            lemma_view_update(before, i as int, self.players@[i as int]);
        }
    }

    /// Seat `i` takes `action` (the rules' `apply_action`).
    fn apply_action(&mut self, i: usize, action: &PlayerAction) -> (r: Result<(), &'static str>)
        requires
            i < old(self).players@.len(),
            well_formed(old(self)@),
            is_active(old(self)@.phase),
        ensures
            final(self)@ == rules::apply_action(old(self)@, i as int, *action).0,
            match rules::apply_action(old(self)@, i as int, *action).1 {
                None => r is Ok,
                Some(e) => r matches Err(msg) && msg@ == error_text(e),
            },
    {
        proof {
            lemma_total_bound(old(self)@.players, i as int);
        }
        let ghost before = self.players@;
        {
            let p = &mut self.players[i];
            p.has_acted = true;
        }
        proof {
            lemma_view_update(before, i as int, self.players@[i as int]);
            assert(self@.players =~= old(self)@.players.update(
                i as int,
                PlayerModel { has_acted: true, ..old(self)@.players[i as int] },
            ));
            assert(self@ =~= rules::set_player(
                old(self)@,
                i as int,
                PlayerModel { has_acted: true, ..old(self)@.players[i as int] },
            ));
        }
        let highest = self.current_highest_bet;
        match action {
            PlayerAction::Fold => {
                let ghost before2 = self.players@;
                {
                    let p = &mut self.players[i];
                    p.is_folded = true;
                }
                proof {
                    lemma_view_update(before2, i as int, self.players@[i as int]);
                    assert(self@.players =~= rules::apply_action(old(self)@, i as int, *action).0.players);
                    assert(self@ =~= rules::apply_action(old(self)@, i as int, *action).0);
                }
                Ok(())
            },
            PlayerAction::Check => {
                if self.players[i].current_bet < highest {
                    return Err("Cannot check. You must call or raise.");
                }
                Ok(())
            },
            PlayerAction::Call => {
                let bet = self.players[i].current_bet;
                let chips = self.players[i].chips;
                let owed = highest - bet;
                let paid = if owed < chips {
                    owed
                } else {
                    chips
                };
                self.pay_into_pot(i, paid);
                proof {
                    assert(self@ =~= rules::apply_action(old(self)@, i as int, *action).0);
                }
                Ok(())
            },
            PlayerAction::Raise(x) => {
                let bet = self.players[i].current_bet;
                let chips = self.players[i].chips;
                let needed: u64 = (highest - bet) as u64 + *x as u64;
                if (chips as u64) < needed {
                    return Err("Not enough chips to raise that amount.");
                }
                let needed32 = needed as u32;
                let ghost acted = PlayerModel { has_acted: true, ..old(self)@.players[i as int] };
                assert(needed32 as int == old(self)@.highest - old(self)@.players[i as int].current_bet + *x);
                self.pay_into_pot(i, needed32);
                assert(self@.players[i as int] == pay(acted, needed32 as int));
                self.current_highest_bet = self.players[i].current_bet;
                assert(self@.highest == pay(acted, needed32 as int).current_bet);
                let n = self.players.len();
                let ghost base = self@.players;
                let ghost mid = self@;
                let mut j: usize = 0;
                while j < n
                    invariant
                        n == self.players@.len(),
                        base.len() == n,
                        i < n,
                        j <= n,
                        self@ == (GameModel { players: self@.players, ..mid }),
                        self@.players == Seq::new(
                            n as nat,
                            |t: int|
                                if t < j && t != i && can_act(base[t]) {
                                    PlayerModel { has_acted: false, ..base[t] }
                                } else {
                                    base[t]
                                },
                        ),
                    decreases n - j,
                {
                    let ghost b2 = self.players@;
                    assert(self@.players[j as int] == base[j as int]);
                    assert(self@.players[j as int] == self.players@[j as int]@);
                    if j != i && !self.players[j].is_folded && !self.players[j].is_all_in {
                        {
                            let p = &mut self.players[j];
                            p.has_acted = false;
                        }
                        proof {
                            lemma_view_update(b2, j as int, self.players@[j as int]);
                        }
                    }
                    j = j + 1;
                    proof {
                        assert(self@.players =~= Seq::new(
                            n as nat,
                            |t: int|
                                if t < j && t != i && can_act(base[t]) {
                                    PlayerModel { has_acted: false, ..base[t] }
                                } else {
                                    base[t]
                                },
                        ));
                    }
                }
                proof {
                    assert(self@.players =~= reopen(base, i as int));
                    assert(base =~= old(self)@.players.update(i as int, pay(acted, needed32 as int)));
                    assert(self@.pot == (old(self)@.pot + needed32) as u32);
                    assert(self@ =~= rules::apply_action(old(self)@, i as int, *action).0);
                }
                Ok(())
            },
        }
    }
}

/// Whether a betting round runs in this phase.
fn is_betting_phase(ph: GamePhase) -> (r: bool)
    ensures
        r == is_betting(ph),
{
    ph == GamePhase::PreFlop || ph == GamePhase::Flop || ph == GamePhase::Turn || ph
        == GamePhase::River
}

/// Whether two keys are equal.
fn keys_equal(a: &Vec<u8>, b: &Vec<u8>) -> (r: bool)
    ensures
        r == (a@ == b@),
{
    if a.len() != b.len() {
        return false;
    }
    let mut i: usize = 0;
    while i < a.len()
        invariant
            a@.len() == b@.len(),
            i <= a@.len(),
            forall|j: int| 0 <= j < i ==> a@[j] == b@[j],
        decreases a@.len() - i,
    {
        if a[i] != b[i] {
            return false;
        }
        i = i + 1;
    }
    assert(a@ =~= b@);
    true
}

/// One step round the table: from `(x % n)` the next seat is `(x + 1) % n`.
proof fn lemma_mod_step(x: int, n: int)
    requires
        n > 0,
    ensures
        ((x % n) + 1) % n == (x + 1) % n,
        0 <= x % n < n,
{
    vstd::arithmetic::div_mod::lemma_add_mod_noop(x, 1, n);
    vstd::arithmetic::div_mod::lemma_mod_bound(x, n);
    if n > 1 {
        vstd::arithmetic::div_mod::lemma_small_mod(1, n as nat);
    } else {
        assert(((x % n) + 1) % n == 0);
        assert((x + 1) % n == 0);
    }
}

} // verus!

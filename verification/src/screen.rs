//! The text of the client's screen: the lines of the main pane for each screen, and the
//! pictures of cards. Colours and layout are the terminal's business.
use vstd::prelude::*;

use crate::app::{App, AppMode, AppModel};
use crate::card::{rank_text, suit_text, Card};
use crate::client::{find_seat, lemma_seat_from, seat_of};
use crate::event::GamePhase;
use crate::i18n::{phase_text, ui_text, I18n, Language};
use crate::net_messages::{texts_view, RoomInfoView};
use crate::player::PlayerModel;
use crate::rules::{is_active, next_funded, GameModel};
use crate::state::{players_view, GameState};
use crate::text::{chars_of, decimal, decimal_text, decimal_usize, string_push};

verus! {

/// `n` spaces.
pub open spec fn spaces(n: nat) -> Seq<char> {
    Seq::new(n, |i: int| ' ')
}

/// `s` filled out with spaces to at least `w` characters, as `{:<w}` formats it.
pub open spec fn padded(s: Seq<char>, w: nat) -> Seq<char> {
    if s.len() >= w {
        s
    } else {
        s + spaces((w - s.len()) as nat)
    }
}

/// `s` with every occurrence of `p` (taken from left to right) replaced by `r`.
pub open spec fn replaced(s: Seq<char>, p: Seq<char>, r: Seq<char>) -> Seq<char>
    decreases s.len(),
{
    if p.len() == 0 || s.len() < p.len() {
        s
    } else if s.take(p.len() as int) == p {
        r + replaced(s.skip(p.len() as int), p, r)
    } else {
        seq![s[0]] + replaced(s.drop_first(), p, r)
    }
}

/// The piece of line `k` (0 to 4) that pictures one card.
pub open spec fn card_piece(k: int, c: Card) -> Seq<char> {
    let r = rank_text(c.rank);
    let pad = if r.len() == 2 {
        ""@
    } else {
        " "@
    };
    if k == 0 {
        "┌───────┐ "@
    } else if k == 1 {
        "│ "@ + r + pad + "    │ "@
    } else if k == 2 {
        "│   "@ + suit_text(c.suit) + "   │ "@
    } else if k == 3 {
        "│    "@ + pad + r + " │ "@
    } else {
        "└───────┘ "@
    }
}

/// The piece of line `k` that pictures a board card not dealt yet.
pub open spec fn hidden_piece(k: int) -> Seq<char> {
    if k == 0 {
        "┌───────┐ "@
    } else if k == 4 {
        "└───────┘ "@
    } else {
        "│ ░░░░░ │ "@
    }
}

/// The piece of line `k` for slot `i`: a card, a hidden board card, or nothing.
pub open spec fn slot_piece(cards: Seq<Card>, is_board: bool, k: int, i: int) -> Seq<char> {
    if i < cards.len() {
        card_piece(k, cards[i])
    } else if is_board {
        hidden_piece(k)
    } else {
        Seq::empty()
    }
}

/// Line `k` of the picture of the first `n` slots.
pub open spec fn art_line(cards: Seq<Card>, is_board: bool, k: int, n: nat) -> Seq<char>
    decreases n,
{
    if n == 0 {
        Seq::empty()
    } else {
        art_line(cards, is_board, k, (n - 1) as nat) + slot_piece(cards, is_board, k, n - 1)
    }
}

/// The five lines picturing `cards`; a board always shows five slots.
pub open spec fn card_art(cards: Seq<Card>, is_board: bool) -> Seq<Seq<char>> {
    let n: nat = if is_board {
        5
    } else {
        cards.len()
    };
    Seq::new(5, |k: int| art_line(cards, is_board, k, n))
}

/// A room's line in the lobby.
pub open spec fn room_line(r: RoomInfoView) -> Seq<char> {
    " ["@ + decimal_text(r.id as nat) + "] "@ + r.name + " ("@ + decimal_text(
        r.player_count as nat,
    ) + "/8) - "@ + if r.has_started {
        "IN PROGRESS"@
    } else {
        "WAITING"@
    }
}

/// The prompt with what was typed.
pub open spec fn prompt(input: Seq<char>) -> Seq<char> {
    "> "@ + input
}

/// How many players still count at the table: those with chips or all in.
pub open spec fn count_in_play(ps: Seq<PlayerModel>) -> nat
    decreases ps.len(),
{
    if ps.len() == 0 {
        0
    } else {
        count_in_play(ps.drop_last()) + if ps.last().chips > 0 || ps.last().is_all_in {
            1nat
        } else {
            0nat
        }
    }
}

/// The seats of the blinds as the table shows them: heads-up the button posts the small
/// blind.
pub open spec fn blind_seats(g: GameModel) -> (int, int) {
    if count_in_play(g.players) == 2 {
        (g.dealer_button as int, next_funded(g.players, g.dealer_button as int))
    } else {
        let sb = next_funded(g.players, g.dealer_button as int);
        (sb, next_funded(g.players, sb))
    }
}

/// A name cut to twelve characters and "..." when longer than fifteen.
pub open spec fn short_name(name: Seq<char>) -> Seq<char> {
    if name.len() > 15 {
        name.take(12) + "..."@
    } else {
        name
    }
}

/// What the table says of a player's state.
pub open spec fn status_text(p: PlayerModel, lang: Language) -> Seq<char> {
    if p.chips == 0 && !p.is_all_in {
        ui_text(lang, "eliminated"@)
    } else if p.is_folded {
        ui_text(lang, "folded"@)
    } else if p.is_all_in {
        ui_text(lang, "all_in"@)
    } else {
        ""@
    }
}

/// The table row of seat `i`.
pub open spec fn player_row(g: GameModel, i: int, lang: Language) -> Seq<char> {
    let p = g.players[i];
    let (sb, bb) = blind_seats(g);
    let token = if g.current_turn == i {
        "=>"@
    } else {
        "  "@
    };
    let role = if g.dealer_button == i {
        "[D] "@
    } else if sb == i {
        "[SB]"@
    } else if bb == i {
        "[BB]"@
    } else {
        "    "@
    };
    "| "@ + token + " | "@ + role + " | "@ + padded(short_name(p.name), 15) + " | $"@ + padded(
        decimal_text(p.chips as nat),
        6,
    ) + " | $"@ + padded(decimal_text(p.current_bet as nat), 7) + " | "@ + padded(
        status_text(p, lang),
        10,
    ) + " |"@
}

/// A hand is under way and the player to act is the one with id `id`.
pub open spec fn my_turn(g: GameModel, id: usize) -> bool {
    &&& is_active(g.phase)
    &&& g.current_turn < g.players.len()
    &&& g.players[g.current_turn as int].id == id
}

/// The menu of bets, with the amount to call when there is one.
pub open spec fn menu_line(call: u32, lang: Language) -> Seq<char> {
    let t = |k: Seq<char>| ui_text(lang, k);
    if call == 0 {
        t("menu_actions"@) + ": [1] "@ + t("menu_fold"@) + " | [2] "@ + t("menu_check"@)
            + " | [3] "@ + t("menu_raise"@)
    } else {
        t("menu_actions"@) + ": [1] "@ + t("menu_fold"@) + " | [2] "@ + t("menu_call"@) + " ($"@
            + decimal_text(call as nat) + ") | [3] "@ + t("menu_raise"@)
    }
}

/// The lines about one's own seat: one's cards, and the menu on one's turn.
pub open spec fn my_lines(g: GameModel, a: AppModel, lang: Language) -> Seq<Seq<char>> {
    match seat_of(g.players, a.my_id) {
        Some(j) => {
            let me = g.players[j];
            seq!["Suas Cartas:"@] + (if me.hole_cards.len() > 0 {
                card_art(me.hole_cards, false)
            } else {
                Seq::empty()
            }) + (if my_turn(g, a.my_id) {
                seq![
                    menu_line((g.highest - me.current_bet) as u32, lang),
                    ui_text(lang, "action_prompt"@) + prompt(a.main_input),
                ]
            } else {
                Seq::empty()
            })
        },
        None => Seq::empty(),
    }
}

/// The lines of the table screen.
pub open spec fn table_lines(g: GameModel, a: AppModel, lang: Language) -> Seq<Seq<char>> {
    let t = |k: Seq<char>| ui_text(lang, k);
    seq![
        t("phase"@) + " "@ + phase_text(lang, g.phase) + " | "@ + t("pot"@) + " $"@
            + decimal_text(g.pot as nat) + " | "@ + t("highest_bet"@) + " $"@ + decimal_text(
            g.highest as nat,
        ),
        ""@,
        t("board_cards"@),
    ] + card_art(g.community, true) + seq![
        ""@,
        t("players"@),
        replaced(t("table_header"@), "{}"@, "=>"@),
    ] + Seq::new(g.players.len(), |i: int| player_row(g, i, lang)) + seq![""@] + my_lines(
        g,
        a,
        lang,
    )
}

/// The lines of the main pane on each screen, after an error line when there is one.
pub open spec fn main_lines(a: AppModel, lang: Language) -> Seq<Seq<char>> {
    let err = match a.connection_error {
        Some(e) => seq!["ERROR: "@ + e, ""@],
        None => Seq::empty(),
    };
    err + match a.mode {
        AppMode::NameInput => seq!["Welcome! Please enter your name:"@, prompt(a.main_input)],
        AppMode::Lobby => seq!["=== MULTIPLAYER LOBBY ==="@] + (if a.rooms.len() == 0 {
            seq!["No rooms found."@]
        } else {
            a.rooms.map_values(|r: RoomInfoView| room_line(r))
        }) + seq![""@, "[1] Create Room | [2] Join Room"@, prompt(a.main_input)],
        AppMode::RoomCreating => seq!["Enter a name for your room:"@, prompt(a.main_input)],
        AppMode::RoomJoining => seq!["Enter the Room ID to join:"@, prompt(a.main_input)],
        AppMode::RoomHost | AppMode::RoomGuest => seq![
            "=== WAITING ROOM ==="@,
            "Players connected:"@,
        ] + a.room_players.map_values(|n: Seq<char>| " - "@ + n) + if a.mode == AppMode::RoomHost {
            seq![""@, "Press [s] to Start Game, [b] to Add Bot"@, prompt(a.main_input)]
        } else {
            seq![""@, "Waiting for host to start the game..."@]
        },
        AppMode::GamePlay | AppMode::GamePlayRaising => match a.game {
            Some(g) => table_lines(g, a, lang),
            None => Seq::empty(),
        },
    }
}

/// `s` filled out with spaces to at least `w` characters.
pub fn pad_text(s: &str, w: usize) -> (r: String)
    ensures
        r@ == padded(s@, w as nat),
{
    let n = s.unicode_len();
    let mut r = String::from_str(s);
    if n >= w {
        return r;
    }
    let mut k: usize = n;
    while k < w
        invariant
            n == s@.len(),
            n <= k <= w,
            r@ == s@ + spaces((k - n) as nat),
        decreases w - k,
    {
        string_push(&mut r, ' ');
        k = k + 1;
        assert(r@ =~= s@ + spaces((k - n) as nat));
    }
    r
}

/// `s` with every occurrence of `p`, from left to right, replaced by `r`.
pub fn replace_text(s: &str, p: &str, r: &str) -> (out: String)
    ensures
        out@ == replaced(s@, p@, r@),
{
    let cs = chars_of(s);
    let ps = chars_of(p);
    let n = cs.len();
    let m = ps.len();
    let mut out = String::new();
    let mut i: usize = 0;
    proof {
        assert(s@.skip(0) =~= s@);
    }
    while i < n
        invariant
            cs@ == s@,
            ps@ == p@,
            n == s@.len(),
            m == p@.len(),
            i <= n,
            replaced(s@, p@, r@) == out@ + replaced(s@.skip(i as int), p@, r@),
        decreases n - i,
    {
        let ghost rest = s@.skip(i as int);
        if m == 0 || n - i < m {
            proof {
                assert(replaced(rest, p@, r@) == rest);
                assert(s@ .subrange(i as int, n as int) =~= rest);
            }
            let mut j: usize = i;
            while j < n
                invariant
                    cs@ == s@,
                    n == s@.len(),
                    i <= j <= n,
                    replaced(s@, p@, r@) == out@ + s@.subrange(j as int, n as int),
                decreases n - j,
            {
                let ghost before = out@;
                string_push(&mut out, cs[j]);
                assert(before + s@.subrange(j as int, n as int) =~= out@ + s@.subrange(j + 1, n as int));
                j = j + 1;
            }
            assert(s@.subrange(n as int, n as int) =~= Seq::<char>::empty());
            assert(out@ =~= out@ + Seq::<char>::empty());
            return out;
        }
        let mut k: usize = 0;
        let mut same = true;
        while k < m
            invariant
                cs@ == s@,
                ps@ == p@,
                n == s@.len(),
                m == p@.len(),
                i + m <= n,
                k <= m,
                same == forall|t: int| 0 <= t < k ==> s@[i + t] == p@[t],
            decreases m - k,
        {
            if cs[i + k] != ps[k] {
                same = false;
            }
            k = k + 1;
        }
        if same {
            assert(rest.take(m as int) =~= p@);
            assert(rest.skip(m as int) =~= s@.skip(i + m));
            out = out.concat(r);
            i = i + m;
        } else {
            assert(rest.take(m as int) != p@) by {
                let t = choose|t: int| 0 <= t < m && s@[i + t] != p@[t];
                assert(rest.take(m as int)[t] == s@[i + t]);
            }
            assert(rest.drop_first() =~= s@.skip(i + 1));
            let ghost before = out@;
            string_push(&mut out, cs[i]);
            assert(out@ =~= before + seq![rest[0]]);
            i = i + 1;
        }
    }
    assert(s@.skip(n as int) =~= Seq::<char>::empty());
    assert(out@ =~= out@ + Seq::<char>::empty());
    out
}

/// The five lines picturing `cards`; a board always shows five slots.
pub fn draw_cards_ascii_lines(cards: &Vec<Card>, is_board: bool) -> (r: Vec<String>)
    ensures
        texts_view(r@) == card_art(cards@, is_board),
{
    let total: usize = if is_board {
        5
    } else {
        cards.len()
    };
    let mut l0 = String::new();
    let mut l1 = String::new();
    let mut l2 = String::new();
    let mut l3 = String::new();
    let mut l4 = String::new();
    let mut i: usize = 0;
    while i < total
        invariant
            total == (if is_board {
                5
            } else {
                cards@.len()
            }),
            i <= total,
            l0@ == art_line(cards@, is_board, 0, i as nat),
            l1@ == art_line(cards@, is_board, 1, i as nat),
            l2@ == art_line(cards@, is_board, 2, i as nat),
            l3@ == art_line(cards@, is_board, 3, i as nat),
            l4@ == art_line(cards@, is_board, 4, i as nat),
        decreases total - i,
    {
        if i < cards.len() {
            let rk = cards[i].rank.to_string();
            let st = cards[i].suit.to_string();
            let pad = if rk.as_str().unicode_len() == 2 {
                ""
            } else {
                " "
            };
            l0 = l0.concat("┌───────┐ ");
            l1 = l1.concat("│ ").concat(rk.as_str()).concat(pad).concat("    │ ");
            l2 = l2.concat("│   ").concat(st.as_str()).concat("   │ ");
            l3 = l3.concat("│    ").concat(pad).concat(rk.as_str()).concat(" │ ");
            l4 = l4.concat("└───────┘ ");
        } else if is_board {
            l0 = l0.concat("┌───────┐ ");
            l1 = l1.concat("│ ░░░░░ │ ");
            l2 = l2.concat("│ ░░░░░ │ ");
            l3 = l3.concat("│ ░░░░░ │ ");
            l4 = l4.concat("└───────┘ ");
        }
        i = i + 1;
        assert(l0@ =~= art_line(cards@, is_board, 0, i as nat));
        assert(l1@ =~= art_line(cards@, is_board, 1, i as nat));
        assert(l2@ =~= art_line(cards@, is_board, 2, i as nat));
        assert(l3@ =~= art_line(cards@, is_board, 3, i as nat));
        assert(l4@ =~= art_line(cards@, is_board, 4, i as nat));
    }
    let mut r: Vec<String> = Vec::new();
    r.push(l0);
    r.push(l1);
    r.push(l2);
    r.push(l3);
    r.push(l4);
    assert(texts_view(r@) =~= card_art(cards@, is_board));
    r
}

/// A room's line in the lobby.
fn room_text(r: &crate::net_messages::RoomInfo) -> (out: String)
    ensures
        out@ == room_line(r@),
{
    let status = if r.has_started {
        "IN PROGRESS"
    } else {
        "WAITING"
    };
    String::from_str(" [").concat(decimal(r.id).as_str()).concat("] ").concat(r.name.as_str()).concat(
        " (",
    ).concat(decimal_usize(r.player_count).as_str()).concat("/8) - ").concat(status)
}

/// The prompt with what was typed.
fn prompt_text(input: &String) -> (out: String)
    ensures
        out@ == prompt(input@),
{
    String::from_str("> ").concat(input.as_str())
}

/// How many players have chips or are all in.
fn in_play_count(game: &GameState) -> (r: usize)
    ensures
        r == count_in_play(game@.players),
{
    let ghost ps = game@.players;
    let mut count: usize = 0;
    let mut i: usize = 0;
    while i < game.players.len()
        invariant
            i <= ps.len(),
            ps == game@.players,
            count == count_in_play(ps.take(i as int)),
            count <= i,
        decreases ps.len() - i,
    {
        assert(ps.take(i + 1).drop_last() =~= ps.take(i as int));
        if game.players[i].chips > 0 || game.players[i].is_all_in {
            count = count + 1;
        }
        i = i + 1;
    }
    assert(ps.take(ps.len() as int) =~= ps);
    count
}

/// A name cut to twelve characters and "..." when longer than fifteen.
fn short_name_text(name: &String) -> (r: String)
    ensures
        r@ == short_name(name@),
{
    let cs = chars_of(name.as_str());
    if cs.len() > 15 {
        let mut r = String::new();
        let mut i: usize = 0;
        while i < 12
            invariant
                cs@ == name@,
                cs@.len() > 15,
                i <= 12,
                r@ == name@.take(i as int),
            decreases 12 - i,
        {
            string_push(&mut r, cs[i]);
            i = i + 1;
            assert(r@ =~= name@.take(i as int));
        }
        r.concat("...")
    } else {
        name.clone()
    }
}

/// The table row of seat `i`, with the blinds at seats `sb` and `bb`.
fn player_row_text(game: &GameState, i: usize, sb: usize, bb: usize, i18n: &I18n) -> (r: String)
    requires
        i < game.players@.len(),
        (sb as int, bb as int) == blind_seats(game@),
    ensures
        r@ == player_row(game@, i as int, i18n.lang),
{
    let p = &game.players[i];
    let token = if game.current_turn == i {
        "=>"
    } else {
        "  "
    };
    let role = if game.dealer_button == i {
        "[D] "
    } else if sb == i {
        "[SB]"
    } else if bb == i {
        "[BB]"
    } else {
        "    "
    };
    let status = if p.chips == 0 && !p.is_all_in {
        i18n.t("eliminated")
    } else if p.is_folded {
        i18n.t("folded")
    } else if p.is_all_in {
        i18n.t("all_in")
    } else {
        ""
    };
    let name = short_name_text(&p.name);
    String::from_str("| ").concat(token).concat(" | ").concat(role).concat(" | ").concat(
        pad_text(name.as_str(), 15).as_str(),
    ).concat(" | $").concat(pad_text(decimal(p.chips).as_str(), 6).as_str()).concat(" | $").concat(
        pad_text(decimal(p.current_bet).as_str(), 7).as_str(),
    ).concat(" | ").concat(pad_text(status, 10).as_str()).concat(" |")
}

/// The texts of `v` with `x` pushed are those of `v` with the text of `x` pushed.
proof fn lemma_texts_push(v: Seq<String>, x: String)
    ensures
        texts_view(v.push(x)) == texts_view(v).push(x@),
{
    assert(texts_view(v.push(x)) =~= texts_view(v).push(x@));
}

/// Pushes `x` onto `out`.
fn push_line(out: &mut Vec<String>, x: String)
    ensures
        texts_view(final(out)@) == texts_view(old(out)@).push(x@),
{
    proof {
        lemma_texts_push(out@, x);
    }
    out.push(x);
}

/// Appends `more` to `out`.
fn append_lines(out: &mut Vec<String>, more: Vec<String>)
    ensures
        texts_view(final(out)@) == texts_view(old(out)@) + texts_view(more@),
{
    let ghost start = out@;
    let ghost m = more@;
    let mut i: usize = 0;
    while i < more.len()
        invariant
            more@ == m,
            i <= m.len(),
            out@ == start + m.take(i as int),
        decreases m.len() - i,
    {
        out.push(more[i].clone());
        i = i + 1;
        assert(out@ =~= start + m.take(i as int));
    }
    assert(m.take(m.len() as int) =~= m);
    assert(texts_view(out@) =~= texts_view(start) + texts_view(m));
}

/// The menu of bets, with the amount to call when there is one.
fn menu_text(call: u32, i18n: &I18n) -> (r: String)
    ensures
        r@ == menu_line(call, i18n.lang),
{
    if call == 0 {
        String::from_str(i18n.t("menu_actions")).concat(": [1] ").concat(i18n.t("menu_fold")).concat(
            " | [2] ",
        ).concat(i18n.t("menu_check")).concat(" | [3] ").concat(i18n.t("menu_raise"))
    } else {
        String::from_str(i18n.t("menu_actions")).concat(": [1] ").concat(i18n.t("menu_fold")).concat(
            " | [2] ",
        ).concat(i18n.t("menu_call")).concat(" ($").concat(decimal(call).as_str()).concat(
            ") | [3] ",
        ).concat(i18n.t("menu_raise"))
    }
}

/// What the table screen needs: someone at the table, and one's bet within the highest
/// bet when the menu is shown.
pub open spec fn table_ready(g: GameModel, a: AppModel) -> bool {
    &&& g.players.len() > 0
    &&& my_turn(g, a.my_id) ==> match seat_of(g.players, a.my_id) {
        Some(j) => g.players[j].current_bet <= g.highest,
        None => true,
    }
}

/// The lines about one's own seat.
fn my_seat_lines(game: &GameState, app: &App, i18n: &I18n) -> (r: Vec<String>)
    requires
        table_ready(game@, app@),
    ensures
        texts_view(r@) == my_lines(game@, app@, i18n.lang),
{
    let mut r: Vec<String> = Vec::new();
    let seat = find_seat(&game.players, app.my_id);
    proof {
        lemma_seat_from(game@.players, app.my_id, 0);
    }
    match seat {
        None => {
            assert(texts_view(r@) =~= my_lines(game@, app@, i18n.lang));
            r
        },
        Some(j) => {
            let me = &game.players[j];
            push_line(&mut r, String::from_str("Suas Cartas:"));
            if me.hole_cards.len() > 0 {
                append_lines(&mut r, draw_cards_ascii_lines(&me.hole_cards, false));
            }
            let active = game.phase != GamePhase::WaitingForPlayers && game.phase
                != GamePhase::Finished;
            if game.current_turn < game.players.len() && game.players[game.current_turn].id
                == app.my_id && active {
                let call_amt = game.current_highest_bet - me.current_bet;
                push_line(&mut r, menu_text(call_amt, i18n));
                push_line(
                    &mut r,
                    String::from_str(i18n.t("action_prompt")).concat(prompt_text(&app.main_input).as_str()),
                );
            }
            assert(texts_view(r@) =~= my_lines(game@, app@, i18n.lang));
            r
        },
    }
}

/// The lines of the table screen.
fn table_text(game: &GameState, app: &App, i18n: &I18n) -> (r: Vec<String>)
    requires
        table_ready(game@, app@),
    ensures
        texts_view(r@) == table_lines(game@, app@, i18n.lang),
{
    let mut r: Vec<String> = Vec::new();
    push_line(
        &mut r,
        String::from_str(i18n.t("phase")).concat(" ").concat(i18n.t_phase(&game.phase)).concat(
            " | ",
        ).concat(i18n.t("pot")).concat(" $").concat(decimal(game.pot).as_str()).concat(" | ").concat(
            i18n.t("highest_bet"),
        ).concat(" $").concat(decimal(game.current_highest_bet).as_str()),
    );
    push_line(&mut r, String::from_str(""));
    push_line(&mut r, String::from_str(i18n.t("board_cards")));
    append_lines(&mut r, draw_cards_ascii_lines(&game.community_cards, true));
    push_line(&mut r, String::from_str(""));
    push_line(&mut r, String::from_str(i18n.t("players")));
    push_line(&mut r, replace_text(i18n.t("table_header"), "{}", "=>"));
    let ghost head = texts_view(r@);
    proof {
        let t = |k: Seq<char>| ui_text(i18n.lang, k);
        assert(head =~= seq![
            t("phase"@) + " "@ + phase_text(i18n.lang, game@.phase) + " | "@ + t("pot"@) + " $"@
                + decimal_text(game@.pot as nat) + " | "@ + t("highest_bet"@) + " $"@ + decimal_text(
                game@.highest as nat,
            ),
            ""@,
            t("board_cards"@),
        ] + card_art(game@.community, true) + seq![
            ""@,
            t("players"@),
            replaced(t("table_header"@), "{}"@, "=>"@),
        ]);
    }
    let in_play = in_play_count(game);
    let sb = if in_play == 2 {
        game.dealer_button
    } else {
        game.next_active_player(game.dealer_button)
    };
    let bb = if in_play == 2 {
        game.next_active_player(game.dealer_button)
    } else {
        game.next_active_player(sb)
    };
    let mut i: usize = 0;
    while i < game.players.len()
        invariant
            i <= game.players@.len(),
            (sb as int, bb as int) == blind_seats(game@),
            texts_view(r@) == head + Seq::new(i as nat, |k: int| player_row(game@, k, i18n.lang)),
        decreases game.players@.len() - i,
    {
        push_line(&mut r, player_row_text(game, i, sb, bb, i18n));
        i = i + 1;
        assert(texts_view(r@) =~= head + Seq::new(i as nat, |k: int| player_row(game@, k, i18n.lang)));
    }
    let ghost rows = texts_view(r@);
    push_line(&mut r, String::from_str(""));
    append_lines(&mut r, my_seat_lines(game, app, i18n));
    assert(texts_view(r@) =~= rows + seq![""@] + my_lines(game@, app@, i18n.lang));
    assert(texts_view(r@) =~= table_lines(game@, app@, i18n.lang));
    r
}

/// What the main pane needs: on the table screens, a table ready to be shown.
pub open spec fn screen_ready(a: AppModel) -> bool {
    (a.mode == AppMode::GamePlay || a.mode == AppMode::GamePlayRaising) ==> match a.game {
        Some(g) => table_ready(g, a),
        None => true,
    }
}

/// The lines of the main pane: an error line when there is an error, then the lines of
/// the current screen.
pub fn main_pane_lines(app: &App, i18n: &I18n) -> (r: Vec<String>)
    requires
        screen_ready(app@),
    ensures
        texts_view(r@) == main_lines(app@, i18n.lang),
{
    let mut r: Vec<String> = Vec::new();
    match &app.connection_error {
        Some(e) => {
            push_line(&mut r, String::from_str("ERROR: ").concat(e.as_str()));
            push_line(&mut r, String::from_str(""));
        },
        None => {},
    }
    let ghost err = texts_view(r@);
    match app.mode {
        AppMode::NameInput => {
            push_line(&mut r, String::from_str("Welcome! Please enter your name:"));
            push_line(&mut r, prompt_text(&app.main_input));
        },
        AppMode::Lobby => {
            push_line(&mut r, String::from_str("=== MULTIPLAYER LOBBY ==="));
            if app.rooms.len() == 0 {
                push_line(&mut r, String::from_str("No rooms found."));
            } else {
                let ghost before = texts_view(r@);
                let mut i: usize = 0;
                while i < app.rooms.len()
                    invariant
                        i <= app.rooms@.len(),
                        texts_view(r@) == before + app@.rooms.take(i as int).map_values(
                            |x: RoomInfoView| room_line(x),
                        ),
                    decreases app.rooms@.len() - i,
                {
                    push_line(&mut r, room_text(&app.rooms[i]));
                    i = i + 1;
                    assert(texts_view(r@) =~= before + app@.rooms.take(i as int).map_values(
                        |x: RoomInfoView| room_line(x),
                    ));
                }
                assert(app@.rooms.take(i as int) =~= app@.rooms);
            }
            push_line(&mut r, String::from_str(""));
            push_line(&mut r, String::from_str("[1] Create Room | [2] Join Room"));
            push_line(&mut r, prompt_text(&app.main_input));
        },
        AppMode::RoomCreating => {
            push_line(&mut r, String::from_str("Enter a name for your room:"));
            push_line(&mut r, prompt_text(&app.main_input));
        },
        AppMode::RoomJoining => {
            push_line(&mut r, String::from_str("Enter the Room ID to join:"));
            push_line(&mut r, prompt_text(&app.main_input));
        },
        AppMode::RoomHost | AppMode::RoomGuest => {
            push_line(&mut r, String::from_str("=== WAITING ROOM ==="));
            push_line(&mut r, String::from_str("Players connected:"));
            let ghost before = texts_view(r@);
            let mut i: usize = 0;
            while i < app.room_players.len()
                invariant
                    i <= app.room_players@.len(),
                    texts_view(r@) == before + app@.room_players.take(i as int).map_values(
                        |n: Seq<char>| " - "@ + n,
                    ),
                decreases app.room_players@.len() - i,
            {
                push_line(&mut r, String::from_str(" - ").concat(app.room_players[i].as_str()));
                i = i + 1;
                assert(texts_view(r@) =~= before + app@.room_players.take(i as int).map_values(
                    |n: Seq<char>| " - "@ + n,
                ));
            }
            assert(app@.room_players.take(i as int) =~= app@.room_players);
            if app.mode == AppMode::RoomHost {
                push_line(&mut r, String::from_str(""));
                push_line(&mut r, String::from_str("Press [s] to Start Game, [b] to Add Bot"));
                push_line(&mut r, prompt_text(&app.main_input));
            } else {
                push_line(&mut r, String::from_str(""));
                push_line(&mut r, String::from_str("Waiting for host to start the game..."));
            }
        },
        AppMode::GamePlay | AppMode::GamePlayRaising => {
            match &app.game_state {
                Some(game) => append_lines(&mut r, table_text(game, app, i18n)),
                None => {},
            }
        },
    }
    assert(texts_view(r@) =~= main_lines(app@, i18n.lang));
    r
}

/// Whether the main pane can be drawn.
pub fn screen_ready_now(app: &App) -> (r: bool)
    ensures
        r == screen_ready(app@),
{
    if app.mode != AppMode::GamePlay && app.mode != AppMode::GamePlayRaising {
        return true;
    }
    match &app.game_state {
        None => true,
        Some(g) => {
            if g.players.len() == 0 {
                return false;
            }
            let active = g.phase != GamePhase::WaitingForPlayers && g.phase != GamePhase::Finished;
            if g.current_turn < g.players.len() && g.players[g.current_turn].id == app.my_id
                && active {
                let seat = find_seat(&g.players, app.my_id);
                proof {
                    lemma_seat_from(g@.players, app.my_id, 0);
                }
                match seat {
                    Some(j) => g.players[j].current_bet <= g.current_highest_bet,
                    None => true,
                }
            } else {
                true
            }
        },
    }
}

} // verus!

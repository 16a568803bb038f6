//! The client's decisions: what a key does to the screen and what it asks of the server,
//! and what a message from the server does to the screen.
use vstd::prelude::*;

use crate::app::{backspaced, typed, App, AppMode, AppModel};
use crate::event::{GamePhase, PlayerAction};
use crate::event_logger::{events_lines, process_events};
use crate::i18n::{I18n, Language};
use crate::net_messages::{ClientMessage, NoticeView, RequestView, ServerMessage};
use crate::player::{Player, PlayerModel};
use crate::rules::GameModel;
use crate::state::{players_view, GameState};
use crate::text::{
    join_strings, join_words, lowercase, parse_u32, parse_u32_text, split_words, str_eq,
    strip_slashes, to_lower, trim, trim_slashes, trim_text, words,
};

verus! {

/// A key press as the client reads it.
#[derive(Debug, Clone, Copy, PartialEq, Eq, Structural)]
pub enum Key {
    Char(char),
    Backspace,
    Enter,
    Tab,
    Esc,
    CtrlC,
    Other,
}

/// What the client does after a key: go on, stop, or send a request and go on.
#[derive(Debug, Clone)]
pub enum ClientStep {
    Stay,
    Quit,
    Send(ClientMessage),
}

/// A step, with its request as a value.
pub enum StepView {
    Stay,
    Quit,
    Send(RequestView),
}

impl View for ClientStep {
    type V = StepView;

    open spec fn view(&self) -> StepView {
        match self {
            ClientStep::Stay => StepView::Stay,
            ClientStep::Quit => StepView::Quit,
            ClientStep::Send(m) => StepView::Send(m@),
        }
    }
}

/// The chat line that lists the commands.
pub open spec fn help_line() -> Seq<char> {
    "[Sistema] Comandos disponíveis: /quit (Sair), /kick <nome>"@
}

/// The chat line that shows how to kick.
pub open spec fn kick_usage_line() -> Seq<char> {
    "[Sistema] Uso: /kick <nome_do_jogador>"@
}

/// The chat line for a command the client does not know.
pub open spec fn unknown_command_line(m: Seq<char>) -> Seq<char> {
    "[Sistema] Comando desconhecido: "@ + m
}

/// What a chat line asks: the step, and the line the chat shows, if any. A line that
/// starts with `/` is a command, named by its first word after the slashes; `/c` sends
/// the words after it as a chat line.
pub open spec fn chat_command(m: Seq<char>) -> (StepView, Option<Seq<char>>) {
    if m.len() == 0 {
        (StepView::Stay, None)
    } else if m[0] != '/' {
        (StepView::Send(RequestView::Chat(m)), None)
    } else {
        let ws = words(strip_slashes(m));
        if ws.len() == 0 {
            (StepView::Stay, Some(unknown_command_line(m)))
        } else if ws[0] == "quit"@ || ws[0] == "leave"@ || ws[0] == "sair"@ {
            (StepView::Quit, None)
        } else if ws[0] == "help"@ || ws[0] == "ajuda"@ {
            (StepView::Stay, Some(help_line()))
        } else if ws[0] == "kick"@ {
            if ws.len() > 1 {
                (StepView::Send(RequestView::Kick(join_words(ws.skip(1)))), None)
            } else {
                (StepView::Stay, Some(kick_usage_line()))
            }
        } else if ws[0] == "c"@ {
            if ws.len() > 1 {
                (StepView::Send(RequestView::Chat(join_words(ws.skip(1)))), None)
            } else {
                (StepView::Stay, None)
            }
        } else {
            (StepView::Stay, Some(unknown_command_line(m)))
        }
    }
}

/// The seat of the first player from seat `k` on whose id is `id`.
pub open spec fn seat_from(ps: Seq<PlayerModel>, id: usize, k: int) -> Option<int>
    decreases ps.len() - k,
{
    if k < 0 || k >= ps.len() {
        None
    } else if ps[k].id == id {
        Some(k)
    } else {
        seat_from(ps, id, k + 1)
    }
}

/// The seat of the first player whose id is `id`.
pub open spec fn seat_of(ps: Seq<PlayerModel>, id: usize) -> Option<int> {
    seat_from(ps, id, 0)
}

/// A seat found is a seat of a player with that id.
pub proof fn lemma_seat_from(ps: Seq<PlayerModel>, id: usize, k: int)
    ensures
        seat_from(ps, id, k) matches Some(j) ==> k <= j < ps.len() && 0 <= j && ps[j].id == id,
    decreases ps.len() - k,
{
    if !(k < 0 || k >= ps.len()) && ps[k].id != id {
        lemma_seat_from(ps, id, k + 1);
    }
}

/// What `me` lacks to call the table's highest bet.
pub open spec fn call_amount(g: GameModel, me: PlayerModel) -> u32 {
    (g.highest - me.current_bet) as u32
}

/// The chips `me` has beyond a call, or none.
pub open spec fn spare_chips(g: GameModel, me: PlayerModel) -> u32 {
    if me.chips >= call_amount(g, me) {
        (me.chips - call_amount(g, me)) as u32
    } else {
        0
    }
}

/// The smaller of two amounts.
pub open spec fn smaller(a: u32, b: u32) -> u32 {
    if a <= b {
        a
    } else {
        b
    }
}

/// A bet request.
pub open spec fn act(a: PlayerAction) -> StepView {
    StepView::Send(RequestView::Action(a))
}

/// What the player `me` asks on their turn by typing `l` (in lower case), and the screen
/// that follows.
pub open spec fn turn_choice(g: GameModel, me: PlayerModel, l: Seq<char>) -> (StepView, AppMode) {
    if l == "1"@ {
        (act(PlayerAction::Fold), AppMode::GamePlay)
    } else if l == "2"@ {
        (
            act(
                if call_amount(g, me) == 0 {
                    PlayerAction::Check
                } else {
                    PlayerAction::Call
                },
            ),
            AppMode::GamePlay,
        )
    } else if l == "3"@ {
        (StepView::Stay, AppMode::GamePlayRaising)
    } else if l == "all"@ {
        (act(PlayerAction::Raise(spare_chips(g, me))), AppMode::GamePlay)
    } else if l == "min"@ {
        (act(PlayerAction::Raise(smaller(g.min_raise, spare_chips(g, me)))), AppMode::GamePlay)
    } else {
        (StepView::Stay, AppMode::GamePlay)
    }
}

/// What typing `t` at the table asks: a new hand when it is over (from the host), a bet
/// on one's own turn, nothing otherwise.
pub open spec fn play_outcome(g: GameModel, my_id: usize, is_host: bool, t: Seq<char>) -> (
    StepView,
    AppMode,
) {
    if g.phase == GamePhase::Finished {
        (
            if is_host {
                StepView::Send(RequestView::StartGame)
            } else {
                StepView::Stay
            },
            AppMode::GamePlay,
        )
    } else if g.players[g.current_turn as int].id == my_id {
        match seat_of(g.players, my_id) {
            Some(j) => turn_choice(g, g.players[j], lowercase(t)),
            None => (StepView::Stay, AppMode::GamePlay),
        }
    } else {
        (StepView::Stay, AppMode::GamePlay)
    }
}

/// What typing `t` at the raise prompt asks: a raise by the number typed, by all one has
/// beyond a call for "all", or by the minimum raise (at most that) for "min"; the table
/// shows again either way.
pub open spec fn raise_outcome(g: GameModel, my_id: usize, t: Seq<char>) -> (StepView, AppMode) {
    match parse_u32_text(t) {
        Some(x) => (act(PlayerAction::Raise(x)), AppMode::GamePlay),
        None => if lowercase(t) == "all"@ || lowercase(t) == "min"@ {
            match seat_of(g.players, my_id) {
                Some(j) => {
                    let spare = spare_chips(g, g.players[j]);
                    (
                        act(
                            PlayerAction::Raise(
                                if lowercase(t) == "all"@ {
                                    spare
                                } else {
                                    smaller(g.min_raise, spare)
                                },
                            ),
                        ),
                        AppMode::GamePlay,
                    )
                },
                None => (StepView::Stay, AppMode::GamePlay),
            }
        } else {
            (StepView::Stay, AppMode::GamePlay)
        },
    }
}

/// What the trimmed main input `t` asks on each screen, and the screen that follows.
pub open spec fn input_outcome(a: AppModel, t: Seq<char>) -> (StepView, AppMode) {
    match a.mode {
        AppMode::NameInput => (StepView::Send(RequestView::JoinServer(t)), a.mode),
        AppMode::Lobby => if t == "1"@ {
            (StepView::Stay, AppMode::RoomCreating)
        } else if t == "2"@ {
            (StepView::Stay, AppMode::RoomJoining)
        } else {
            (StepView::Stay, a.mode)
        },
        AppMode::RoomCreating => (StepView::Send(RequestView::CreateRoom(t)), a.mode),
        AppMode::RoomJoining => match parse_u32_text(t) {
            Some(id) => (StepView::Send(RequestView::JoinRoom(id)), a.mode),
            None => (StepView::Stay, a.mode),
        },
        AppMode::RoomHost | AppMode::RoomGuest => if t == "s"@ && a.mode == AppMode::RoomHost {
            (StepView::Send(RequestView::StartGame), a.mode)
        } else if t == "b"@ && a.mode == AppMode::RoomHost {
            (StepView::Send(RequestView::AddBot), a.mode)
        } else if t == "r"@ {
            (StepView::Send(RequestView::ToggleReady), a.mode)
        } else {
            (StepView::Stay, a.mode)
        },
        AppMode::GamePlay => match a.game {
            Some(g) => play_outcome(g, a.my_id, a.is_host, t),
            None => (StepView::Stay, a.mode),
        },
        AppMode::GamePlayRaising => match a.game {
            Some(g) => raise_outcome(g, a.my_id, t),
            None => (StepView::Stay, a.mode),
        },
    }
}

/// A `/c` line typed in the main input: it sends the words after `/c` as a chat line,
/// on every screen.
pub open spec fn c_line(t: Seq<char>) -> Option<StepView> {
    let ws = words(strip_slashes(t));
    if t.len() > 0 && t[0] == '/' && ws.len() > 0 && ws[0] == "c"@ {
        Some(
            if ws.len() > 1 {
                StepView::Send(RequestView::Chat(join_words(ws.skip(1))))
            } else {
                StepView::Stay
            },
        )
    } else {
        None
    }
}

/// What the trimmed main input `t` asks: a `/c` chat line, or what it means on the
/// current screen.
pub open spec fn main_input_outcome(a: AppModel, t: Seq<char>) -> (StepView, AppMode) {
    match c_line(t) {
        Some(step) => (step, a.mode),
        None => input_outcome(a, t),
    }
}

/// The first player whose id is `id` has bet no more than the table's highest bet.
pub open spec fn bet_fits(g: GameModel, id: usize) -> bool {
    match seat_of(g.players, id) {
        Some(j) => g.players[j].current_bet <= g.highest,
        None => true,
    }
}

/// What the table must satisfy for the main input to be read: the player to act has a
/// seat, and one's own bet does not exceed the highest bet where a call is worked out.
pub open spec fn input_ready(a: AppModel) -> bool {
    match a.game {
        Some(g) => {
            &&& (a.mode == AppMode::GamePlay && g.phase != GamePhase::Finished) ==> {
                &&& g.current_turn < g.players.len()
                &&& g.players[g.current_turn as int].id == a.my_id ==> bet_fits(g, a.my_id)
            }
            &&& a.mode == AppMode::GamePlayRaising ==> bet_fits(g, a.my_id)
        },
        None => true,
    }
}

/// The screen after a key, and what the client does.
pub open spec fn on_key(a: AppModel, k: Key) -> (AppModel, StepView) {
    match k {
        Key::CtrlC => (a, StepView::Quit),
        Key::Esc => if a.is_typing_chat {
            (AppModel { is_typing_chat: false, ..a }, StepView::Stay)
        } else {
            (a, StepView::Quit)
        },
        Key::Tab => (AppModel { is_typing_chat: !a.is_typing_chat, ..a }, StepView::Stay),
        Key::Char(c) => (typed(a, c), StepView::Stay),
        Key::Backspace => (backspaced(a), StepView::Stay),
        Key::Enter => if a.is_typing_chat {
            let (step, line) = chat_command(a.chat_input);
            (
                AppModel {
                    chat_input: Seq::empty(),
                    chat_messages: match line {
                        Some(l) => a.chat_messages.push(l),
                        None => a.chat_messages,
                    },
                    ..a
                },
                step,
            )
        } else {
            let (step, mode) = main_input_outcome(a, trim_text(a.main_input));
            (AppModel { main_input: Seq::empty(), mode, ..a }, step)
        },
        Key::Other => (a, StepView::Stay),
    }
}

/// The error the server sends to a player it removed from a room.
pub open spec fn removed_text() -> Seq<char> {
    "Você foi removido da sala pelo Host."@
}

/// The first player whose id is `id` has no chips left and is not all in.
pub open spec fn is_broke(g: GameModel, id: usize) -> bool {
    match seat_of(g.players, id) {
        Some(j) => g.players[j].chips == 0 && !g.players[j].is_all_in,
        None => false,
    }
}

/// The screen after a message from the server.
pub open spec fn on_notice(a: AppModel, n: NoticeView, lang: Language) -> AppModel {
    match n {
        NoticeView::Error(e) => if e == removed_text() {
            AppModel { connection_error: Some(e), mode: AppMode::Lobby, game: None, ..a }
        } else if a.mode == AppMode::RoomCreating || a.mode == AppMode::RoomJoining {
            AppModel { connection_error: Some(e), mode: AppMode::Lobby, ..a }
        } else {
            AppModel { connection_error: Some(e), ..a }
        },
        NoticeView::Welcome(id) => AppModel { my_id: id, mode: AppMode::Lobby, ..a },
        NoticeView::LobbyState(rooms) => AppModel { rooms, ..a },
        NoticeView::RoomState(_, players, host) => AppModel {
            is_host: host,
            room_players: players,
            mode: if host {
                AppMode::RoomHost
            } else {
                AppMode::RoomGuest
            },
            ..a
        },
        NoticeView::GameUpdate(g, evs, _) => AppModel {
            mode: AppMode::GamePlay,
            action_log: a.action_log + events_lines(evs, g.players, lang),
            is_typing_chat: a.is_typing_chat || is_broke(g, a.my_id),
            game: Some(g),
            ..a
        },
        NoticeView::Chat(sender, message) => AppModel {
            chat_messages: a.chat_messages.push(sender + ": "@ + message),
            ..a
        },
    }
}

/// The seat of the first player whose id is `id`.
pub fn find_seat(players: &Vec<Player>, id: usize) -> (r: Option<usize>)
    ensures
        match r {
            Some(j) => seat_of(players_view(players@), id) == Some(j as int),
            None => seat_of(players_view(players@), id) is None,
        },
{
    let ghost ps = players_view(players@);
    let mut k: usize = 0;
    while k < players.len()
        invariant
            k <= players@.len(),
            ps == players_view(players@),
            seat_of(ps, id) == seat_from(ps, id, k as int),
        decreases players@.len() - k,
    {
        if players[k].id == id {
            return Some(k);
        }
        k = k + 1;
    }
    None
}

/// The amount `me` asks to raise by with "all": every chip beyond a call.
fn spare(game: &GameState, me: &Player) -> (r: u32)
    requires
        me.current_bet <= game.current_highest_bet,
    ensures
        r == spare_chips(game@, me@),
{
    let call_amt = game.current_highest_bet - me.current_bet;
    me.chips.saturating_sub(call_amt)
}

/// What `lower` (typed in lower case) asks on `me`'s turn.
fn choose_turn(game: &GameState, me: &Player, lower: &str) -> (r: (ClientStep, AppMode))
    requires
        me.current_bet <= game.current_highest_bet,
    ensures
        (r.0@, r.1) == turn_choice(game@, me@, lower@),
{
    let call_amt = game.current_highest_bet - me.current_bet;
    if str_eq(lower, "1") {
        (ClientStep::Send(ClientMessage::Action(PlayerAction::Fold)), AppMode::GamePlay)
    } else if str_eq(lower, "2") {
        let a = if call_amt == 0 {
            PlayerAction::Check
        } else {
            PlayerAction::Call
        };
        (ClientStep::Send(ClientMessage::Action(a)), AppMode::GamePlay)
    } else if str_eq(lower, "3") {
        (ClientStep::Stay, AppMode::GamePlayRaising)
    } else if str_eq(lower, "all") {
        (
            ClientStep::Send(ClientMessage::Action(PlayerAction::Raise(spare(game, me)))),
            AppMode::GamePlay,
        )
    } else if str_eq(lower, "min") {
        let s = spare(game, me);
        let amt = if game.min_raise <= s {
            game.min_raise
        } else {
            s
        };
        (ClientStep::Send(ClientMessage::Action(PlayerAction::Raise(amt))), AppMode::GamePlay)
    } else {
        (ClientStep::Stay, AppMode::GamePlay)
    }
}

/// What typing `t` at the table asks, and the screen that follows.
fn choose_play(game: &GameState, my_id: usize, is_host: bool, t: &str) -> (r: (ClientStep, AppMode))
    requires
        game.phase != GamePhase::Finished ==> {
            &&& game.current_turn < game.players@.len()
            &&& game.players@[game.current_turn as int].id == my_id ==> bet_fits(game@, my_id)
        },
    ensures
        (r.0@, r.1) == play_outcome(game@, my_id, is_host, t@),
{
    if game.phase == GamePhase::Finished {
        if is_host {
            (ClientStep::Send(ClientMessage::StartGame), AppMode::GamePlay)
        } else {
            (ClientStep::Stay, AppMode::GamePlay)
        }
    } else if game.players[game.current_turn].id == my_id {
        match find_seat(&game.players, my_id) {
            Some(j) => {
                proof {
                    lemma_seat_from(game@.players, my_id, 0);
                }
                let lower = to_lower(t);
                choose_turn(game, &game.players[j], lower.as_str())
            },
            None => (ClientStep::Stay, AppMode::GamePlay),
        }
    } else {
        (ClientStep::Stay, AppMode::GamePlay)
    }
}

/// What typing `t` at the raise prompt asks, and the screen that follows.
fn choose_raise(game: &GameState, my_id: usize, t: &str) -> (r: (ClientStep, AppMode))
    requires
        bet_fits(game@, my_id),
    ensures
        (r.0@, r.1) == raise_outcome(game@, my_id, t@),
{
    match parse_u32(t) {
        Some(amt) => (
            ClientStep::Send(ClientMessage::Action(PlayerAction::Raise(amt))),
            AppMode::GamePlay,
        ),
        None => {
            let lower = to_lower(t);
            let all = str_eq(lower.as_str(), "all");
            if all || str_eq(lower.as_str(), "min") {
                let seat = find_seat(&game.players, my_id);
                proof {
                    lemma_seat_from(game@.players, my_id, 0);
                }
                match seat {
                    Some(j) => {
                        let s = spare(game, &game.players[j]);
                        let amt = if all {
                            s
                        } else if game.min_raise <= s {
                            game.min_raise
                        } else {
                            s
                        };
                        (
                            ClientStep::Send(ClientMessage::Action(PlayerAction::Raise(amt))),
                            AppMode::GamePlay,
                        )
                    },
                    None => (ClientStep::Stay, AppMode::GamePlay),
                }
            } else {
                (ClientStep::Stay, AppMode::GamePlay)
            }
        },
    }
}

/// A `/c` line: the chat line it sends, if `t` is one.
fn c_command(t: &str) -> (r: Option<ClientStep>)
    ensures
        match r {
            Some(st) => c_line(t@) == Some(st@),
            None => c_line(t@) is None,
        },
{
    if t.is_empty() || t.get_char(0) != '/' {
        return None;
    }
    let cmd = trim_slashes(t);
    let parts = split_words(cmd.as_str());
    proof {
        let ws = words(strip_slashes(t@));
        assert(parts@.map_values(|w: String| w@) =~= ws);
        if parts@.len() > 1 {
            assert(parts@.skip(1).map_values(|w: String| w@) =~= ws.skip(1));
        }
    }
    if parts.len() == 0 || !str_eq(parts[0].as_str(), "c") {
        return None;
    }
    if parts.len() > 1 {
        Some(ClientStep::Send(ClientMessage::Chat(join_strings(&parts, 1))))
    } else {
        Some(ClientStep::Stay)
    }
}

impl App {
    /// Sends what was typed in the main buffer, read on the current screen.
    fn submit_input(&mut self) -> (step: ClientStep)
        requires
            input_ready(old(self)@),
        ensures
            (final(self)@, step@) == ({
                let (st, mode) = main_input_outcome(old(self)@, trim_text(old(self)@.main_input));
                (AppModel { main_input: Seq::empty(), mode, ..old(self)@ }, st)
            }),
    {
        let ghost a = self@;
        let input = self.take_input();
        let t = trim(input.as_str());
        let ts = t.as_str();
        match c_command(ts) {
            Some(st) => {
                assert(self@ =~= AppModel { main_input: Seq::empty(), mode: a.mode, ..a });
                return st;
            },
            None => {},
        }
        let step = match self.mode {
            AppMode::NameInput => ClientStep::Send(ClientMessage::JoinServer { name: t.clone() }),
            AppMode::Lobby => {
                if str_eq(ts, "1") {
                    self.mode = AppMode::RoomCreating;
                } else if str_eq(ts, "2") {
                    self.mode = AppMode::RoomJoining;
                }
                ClientStep::Stay
            },
            AppMode::RoomCreating => ClientStep::Send(
                ClientMessage::CreateRoom { room_name: t.clone() },
            ),
            AppMode::RoomJoining => match parse_u32(ts) {
                Some(id) => ClientStep::Send(ClientMessage::JoinRoom { room_id: id }),
                None => ClientStep::Stay,
            },
            AppMode::RoomHost | AppMode::RoomGuest => {
                let host = self.mode == AppMode::RoomHost;
                if str_eq(ts, "s") && host {
                    ClientStep::Send(ClientMessage::StartGame)
                } else if str_eq(ts, "b") && host {
                    ClientStep::Send(ClientMessage::AddBot)
                } else if str_eq(ts, "r") {
                    ClientStep::Send(ClientMessage::ToggleReady)
                } else {
                    ClientStep::Stay
                }
            },
            AppMode::GamePlay => {
                let r = match &self.game_state {
                    Some(g) => choose_play(g, self.my_id, self.is_host, ts),
                    None => (ClientStep::Stay, AppMode::GamePlay),
                };
                self.mode = r.1;
                r.0
            },
            AppMode::GamePlayRaising => {
                let r = match &self.game_state {
                    Some(g) => choose_raise(g, self.my_id, ts),
                    None => (ClientStep::Stay, AppMode::GamePlayRaising),
                };
                self.mode = r.1;
                r.0
            },
        };
        proof {
            let (st, mode) = input_outcome(a, trim_text(a.main_input));
            assert(self@ =~= AppModel { main_input: Seq::empty(), mode, ..a });
        }
        step
    }
    /// Sends what was typed in the chat buffer: a chat line, or a command.
    fn submit_chat(&mut self) -> (step: ClientStep)
        ensures
            (final(self)@, step@) == ({
                let (st, line) = chat_command(old(self)@.chat_input);
                (
                    AppModel {
                        chat_input: Seq::empty(),
                        chat_messages: match line {
                            Some(l) => old(self)@.chat_messages.push(l),
                            None => old(self)@.chat_messages,
                        },
                        ..old(self)@
                    },
                    st,
                )
            }),
    {
        let ghost a = self@;
        let msg = self.take_chat();
        let ghost m = msg@;
        if msg.as_str().is_empty() {
            return ClientStep::Stay;
        }
        if msg.as_str().get_char(0) != '/' {
            return ClientStep::Send(ClientMessage::Chat(msg));
        }
        let cmd = trim_slashes(msg.as_str());
        let parts = split_words(cmd.as_str());
        let mut line: Option<String> = None;
        let mut step = ClientStep::Stay;
        if parts.len() == 0 {
            line = Some(String::from_str("[Sistema] Comando desconhecido: ").concat(msg.as_str()));
        } else {
            let w = parts[0].as_str();
            if str_eq(w, "quit") || str_eq(w, "leave") || str_eq(w, "sair") {
                step = ClientStep::Quit;
            } else if str_eq(w, "help") || str_eq(w, "ajuda") {
                line = Some(
                    String::from_str("[Sistema] Comandos disponíveis: /quit (Sair), /kick <nome>"),
                );
            } else if str_eq(w, "kick") {
                if parts.len() > 1 {
                    step = ClientStep::Send(ClientMessage::Kick(join_strings(&parts, 1)));
                } else {
                    line = Some(String::from_str("[Sistema] Uso: /kick <nome_do_jogador>"));
                }
            } else if str_eq(w, "c") {
                if parts.len() > 1 {
                    step = ClientStep::Send(ClientMessage::Chat(join_strings(&parts, 1)));
                }
            } else {
                line = Some(
                    String::from_str("[Sistema] Comando desconhecido: ").concat(msg.as_str()),
                );
            }
        }
        proof {
            let ws = words(strip_slashes(m));
            assert(parts@.map_values(|w: String| w@) =~= ws);
            if parts@.len() > 1 {
                assert(parts@.skip(1).map_values(|w: String| w@) =~= ws.skip(1));
            }
        }
        match line {
            Some(l) => self.chat_messages.push(l),
            None => {},
        }
        proof {
            let (st, ln) = chat_command(a.chat_input);
            assert(self@ =~= AppModel {
                chat_input: Seq::empty(),
                chat_messages: match ln {
                    Some(l) => a.chat_messages.push(l),
                    None => a.chat_messages,
                },
                ..a
            });
        }
        step
    }

    /// What a key does: to the screen, and what the client then does.
    pub fn handle_key(&mut self, key: Key) -> (step: ClientStep)
        requires
            key == Key::Enter && !old(self).is_typing_chat ==> input_ready(old(self)@),
        ensures
            (final(self)@, step@) == on_key(old(self)@, key),
    {
        match key {
            Key::CtrlC => ClientStep::Quit,
            Key::Esc => {
                if self.is_typing_chat {
                    self.is_typing_chat = false;
                    ClientStep::Stay
                } else {
                    ClientStep::Quit
                }
            },
            Key::Tab => {
                self.is_typing_chat = !self.is_typing_chat;
                ClientStep::Stay
            },
            Key::Char(c) => {
                self.handle_char(c);
                ClientStep::Stay
            },
            Key::Backspace => {
                self.handle_backspace();
                ClientStep::Stay
            },
            Key::Enter => {
                if self.is_typing_chat {
                    self.submit_chat()
                } else {
                    self.submit_input()
                }
            },
            Key::Other => ClientStep::Stay,
        }
    }
    /// What a message from the server does to the screen.
    pub fn handle_server_message(&mut self, msg: ServerMessage, i18n: &I18n)
        ensures
            final(self)@ == on_notice(old(self)@, msg@, i18n.lang),
    {
        let ghost a = self@;
        let ghost n = msg@;
        match msg {
            ServerMessage::Error(e) => {
                if self.mode == AppMode::RoomCreating || self.mode == AppMode::RoomJoining {
                    self.mode = AppMode::Lobby;
                }
                if str_eq(e.as_str(), "Você foi removido da sala pelo Host.") {
                    self.mode = AppMode::Lobby;
                    self.game_state = None;
                }
                self.connection_error = Some(e);
            },
            ServerMessage::Welcome { player_id } => {
                self.my_id = player_id;
                self.mode = AppMode::Lobby;
            },
            ServerMessage::LobbyState { rooms } => {
                self.rooms = rooms;
            },
            ServerMessage::RoomState { room_id: _, players, is_host } => {
                self.is_host = is_host;
                self.room_players = players;
                self.mode = if is_host {
                    AppMode::RoomHost
                } else {
                    AppMode::RoomGuest
                };
            },
            ServerMessage::GameUpdate { state, events, your_id: _ } => {
                self.mode = AppMode::GamePlay;
                process_events(events.as_slice(), &state, &mut self.action_log, i18n);
                let seat = find_seat(&state.players, self.my_id);
                proof {
                    lemma_seat_from(state@.players, self.my_id, 0);
                }
                match seat {
                    Some(j) => {
                        if state.players[j].chips == 0 && !state.players[j].is_all_in {
                            self.is_typing_chat = true;
                        }
                    },
                    None => {},
                }
                self.game_state = Some(state);
            },
            ServerMessage::Chat { sender, message } => {
                self.chat_messages.push(sender.concat(": ").concat(message.as_str()));
            },
        }
        assert(self@ =~= on_notice(a, n, i18n.lang));
    }
}

/// Whether the first player whose id is `id` has bet no more than the highest bet.
fn bet_fits_now(game: &GameState, id: usize) -> (r: bool)
    ensures
        r == bet_fits(game@, id),
{
    let seat = find_seat(&game.players, id);
    proof {
        lemma_seat_from(game@.players, id, 0);
    }
    match seat {
        Some(j) => game.players[j].current_bet <= game.current_highest_bet,
        None => true,
    }
}

impl App {
    /// Whether the main input can be read on the current screen.
    pub fn input_ready_now(&self) -> (r: bool)
        ensures
            r == input_ready(self@),
    {
        match &self.game_state {
            None => true,
            Some(g) => {
                let play_ok = if self.mode == AppMode::GamePlay && g.phase != GamePhase::Finished {
                    g.current_turn < g.players.len() && (g.players[g.current_turn].id
                        != self.my_id || bet_fits_now(g, self.my_id))
                } else {
                    true
                };
                let raise_ok = if self.mode == AppMode::GamePlayRaising {
                    bet_fits_now(g, self.my_id)
                } else {
                    true
                };
                play_ok && raise_ok
            },
        }
    }
}

} // verus!

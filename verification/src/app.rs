use vstd::prelude::*;

use crate::net_messages::{rooms_view, texts_view, RoomInfo, RoomInfoView};
use crate::rules::GameModel;
use crate::state::GameState;
use crate::text::{string_pop, string_push};

verus! {

/// Which screen the client shows.
#[derive(Debug, Clone, Copy, PartialEq, Eq, Structural)]
pub enum AppMode {
    NameInput,
    Lobby,
    RoomCreating,
    RoomJoining,
    RoomHost,
    RoomGuest,
    GamePlay,
    GamePlayRaising,
}

/// The client's screen state.
pub struct App {
    pub mode: AppMode,
    // Input buffers
    pub main_input: String,
    pub chat_input: String,
    pub is_typing_chat: bool,
    // Chat history and logs
    pub action_log: Vec<String>,
    pub chat_messages: Vec<String>,
    // Multiplayer lobby state
    pub my_id: usize,
    pub is_host: bool,
    pub rooms: Vec<RoomInfo>,
    pub room_players: Vec<String>,
    // Live game state
    pub game_state: Option<GameState>,
    pub connection_error: Option<String>,
}

/// The client's screen state as values.
#[verifier::ext_equal]
pub struct AppModel {
    pub mode: AppMode,
    pub main_input: Seq<char>,
    pub chat_input: Seq<char>,
    pub is_typing_chat: bool,
    pub action_log: Seq<Seq<char>>,
    pub chat_messages: Seq<Seq<char>>,
    pub my_id: usize,
    pub is_host: bool,
    pub rooms: Seq<RoomInfoView>,
    pub room_players: Seq<Seq<char>>,
    pub game: Option<GameModel>,
    pub connection_error: Option<Seq<char>>,
}

impl View for App {
    type V = AppModel;

    open spec fn view(&self) -> AppModel {
        AppModel {
            mode: self.mode,
            main_input: self.main_input@,
            chat_input: self.chat_input@,
            is_typing_chat: self.is_typing_chat,
            action_log: texts_view(self.action_log@),
            chat_messages: texts_view(self.chat_messages@),
            my_id: self.my_id,
            is_host: self.is_host,
            rooms: rooms_view(self.rooms@),
            room_players: texts_view(self.room_players@),
            game: match self.game_state {
                Some(g) => Some(g@),
                None => None,
            },
            connection_error: match self.connection_error {
                Some(e) => Some(e@),
                None => None,
            },
        }
    }
}

/// The buffer after a backspace: its last character removed, if it has one.
pub open spec fn erased(s: Seq<char>) -> Seq<char> {
    if s.len() == 0 {
        s
    } else {
        s.drop_last()
    }
}

/// The screen after typing `c`: into the chat buffer when typing chat, else into the
/// main buffer.
pub open spec fn typed(a: AppModel, c: char) -> AppModel {
    if a.is_typing_chat {
        AppModel { chat_input: a.chat_input.push(c), ..a }
    } else {
        AppModel { main_input: a.main_input.push(c), ..a }
    }
}

/// The screen after a backspace in the buffer being typed into.
pub open spec fn backspaced(a: AppModel) -> AppModel {
    if a.is_typing_chat {
        AppModel { chat_input: erased(a.chat_input), ..a }
    } else {
        AppModel { main_input: erased(a.main_input), ..a }
    }
}

impl App {
    /// The name prompt, with empty buffers and logs.
    pub fn new() -> (a: App)
        ensures
            a@ == (AppModel {
                mode: AppMode::NameInput,
                main_input: Seq::empty(),
                chat_input: Seq::empty(),
                is_typing_chat: false,
                action_log: Seq::empty(),
                chat_messages: Seq::empty(),
                my_id: 0,
                is_host: false,
                rooms: Seq::empty(),
                room_players: Seq::empty(),
                game: None,
                connection_error: None,
            }),
    {
        let a = App {
            mode: AppMode::NameInput,
            main_input: String::new(),
            chat_input: String::new(),
            is_typing_chat: false,
            action_log: Vec::new(),
            chat_messages: Vec::new(),
            my_id: 0,
            is_host: false,
            rooms: Vec::new(),
            room_players: Vec::new(),
            game_state: None,
            connection_error: None,
        };
        assert(a@ =~= AppModel {
            mode: AppMode::NameInput,
            main_input: Seq::empty(),
            chat_input: Seq::empty(),
            is_typing_chat: false,
            action_log: Seq::empty(),
            chat_messages: Seq::empty(),
            my_id: 0,
            is_host: false,
            rooms: Seq::empty(),
            room_players: Seq::empty(),
            game: None,
            connection_error: None,
        });
        a
    }

    /// Types `c` into the chat buffer when typing chat, else into the main buffer.
    pub fn handle_char(&mut self, c: char)
        ensures
            final(self)@ == typed(old(self)@, c),
    {
        if self.is_typing_chat {
            string_push(&mut self.chat_input, c);
        } else {
            string_push(&mut self.main_input, c);
        }
        assert(self@ =~= typed(old(self)@, c));
    }

    /// Erases the last character of the chat buffer when typing chat, else of the main buffer.
    pub fn handle_backspace(&mut self)
        ensures
            final(self)@ == backspaced(old(self)@),
    {
        if self.is_typing_chat {
            let _ = string_pop(&mut self.chat_input);
        } else {
            let _ = string_pop(&mut self.main_input);
        }
        assert(self@ =~= backspaced(old(self)@));
    }

    /// Hands out what was typed in the main buffer and empties it.
    pub fn take_input(&mut self) -> (v: String)
        ensures
            v@ == old(self)@.main_input,
            final(self)@ == (AppModel { main_input: Seq::empty(), ..old(self)@ }),
    {
        let val = self.main_input.clone();
        self.main_input = String::new();
        assert(self@ =~= (AppModel { main_input: Seq::empty(), ..old(self)@ }));
        val
    }

    /// Hands out what was typed in the chat buffer and empties it.
    pub fn take_chat(&mut self) -> (v: String)
        ensures
            v@ == old(self)@.chat_input,
            final(self)@ == (AppModel { chat_input: Seq::empty(), ..old(self)@ }),
    {
        let val = self.chat_input.clone();
        self.chat_input = String::new();
        assert(self@ =~= (AppModel { chat_input: Seq::empty(), ..old(self)@ }));
        val
    }
}

/// A backspace undoes the character typed just before it: the screen is as it was.
pub proof fn law_backspace_undoes_typing(a: AppModel, c: char)
    ensures
        backspaced(typed(a, c)) == a,
{
    assert(a.chat_input.push(c).drop_last() =~= a.chat_input);
    assert(a.main_input.push(c).drop_last() =~= a.main_input);
    assert(backspaced(typed(a, c)) =~= a);
}

} // verus!

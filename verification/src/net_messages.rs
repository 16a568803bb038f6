use vstd::prelude::*;

use crate::event::{events_view, EventView, GameEvent, PlayerAction};
use crate::rules::GameModel;
use crate::state::GameState;

verus! {

/// A room as listed in the lobby.
#[derive(Debug, Clone)]
pub struct RoomInfo {
    pub id: u32,
    pub name: String,
    pub player_count: usize,
    pub max_players: usize,
    pub has_started: bool,
}

/// A lobby listing, with its name as text.
pub struct RoomInfoView {
    pub id: u32,
    pub name: Seq<char>,
    pub player_count: usize,
    pub max_players: usize,
    pub has_started: bool,
}

impl View for RoomInfo {
    type V = RoomInfoView;

    open spec fn view(&self) -> RoomInfoView {
        RoomInfoView {
            id: self.id,
            name: self.name@,
            player_count: self.player_count,
            max_players: self.max_players,
            has_started: self.has_started,
        }
    }
}

/// The listings as values.
pub open spec fn rooms_view(rs: Seq<RoomInfo>) -> Seq<RoomInfoView> {
    rs.map_values(|r: RoomInfo| r@)
}

/// What a client asks of the server.
#[derive(Debug, Clone)]
pub enum ClientMessage {
    JoinServer { name: String },
    CreateRoom { room_name: String },
    JoinRoom { room_id: u32 },
    AddBot,
    StartGame,
    ToggleReady,
    Kick(String),
    Action(PlayerAction),
    Chat(String),
}

/// A request, with its texts as values.
pub enum RequestView {
    JoinServer(Seq<char>),
    CreateRoom(Seq<char>),
    JoinRoom(u32),
    AddBot,
    StartGame,
    ToggleReady,
    Kick(Seq<char>),
    Action(PlayerAction),
    Chat(Seq<char>),
}

impl View for ClientMessage {
    type V = RequestView;

    open spec fn view(&self) -> RequestView {
        match self {
            ClientMessage::JoinServer { name } => RequestView::JoinServer(name@),
            ClientMessage::CreateRoom { room_name } => RequestView::CreateRoom(room_name@),
            ClientMessage::JoinRoom { room_id } => RequestView::JoinRoom(*room_id),
            ClientMessage::AddBot => RequestView::AddBot,
            ClientMessage::StartGame => RequestView::StartGame,
            ClientMessage::ToggleReady => RequestView::ToggleReady,
            ClientMessage::Kick(target) => RequestView::Kick(target@),
            ClientMessage::Action(a) => RequestView::Action(*a),
            ClientMessage::Chat(text) => RequestView::Chat(text@),
        }
    }
}

/// What the server tells a client.
#[derive(Debug, Clone)]
pub enum ServerMessage {
    Error(String),
    Chat { sender: String, message: String },
    Welcome { player_id: usize },
    LobbyState { rooms: Vec<RoomInfo> },
    RoomState { room_id: u32, players: Vec<String>, is_host: bool },
    GameUpdate { state: GameState, events: Vec<GameEvent>, your_id: usize },
}

/// A server message, with its contents as values.
pub enum NoticeView {
    Error(Seq<char>),
    Chat(Seq<char>, Seq<char>),
    Welcome(usize),
    LobbyState(Seq<RoomInfoView>),
    RoomState(u32, Seq<Seq<char>>, bool),
    GameUpdate(GameModel, Seq<EventView>, usize),
}

/// Texts as values.
pub open spec fn texts_view(ts: Seq<String>) -> Seq<Seq<char>> {
    ts.map_values(|t: String| t@)
}

/// A copy of a list of texts.
pub fn copy_texts(v: &Vec<String>) -> (r: Vec<String>)
    ensures
        texts_view(r@) == texts_view(v@),
{
    let mut r: Vec<String> = Vec::new();
    let mut i: usize = 0;
    while i < v.len()
        invariant
            i <= v@.len(),
            r@.len() == i,
            forall|j: int| 0 <= j < i ==> (#[trigger] r@[j])@ == v@[j]@,
        decreases v@.len() - i,
    {
        r.push(v[i].clone());
        i = i + 1;
    }
    assert(texts_view(r@) =~= texts_view(v@));
    r
}

impl View for ServerMessage {
    type V = NoticeView;

    open spec fn view(&self) -> NoticeView {
        match self {
            ServerMessage::Error(e) => NoticeView::Error(e@),
            ServerMessage::Chat { sender, message } => NoticeView::Chat(sender@, message@),
            ServerMessage::Welcome { player_id } => NoticeView::Welcome(*player_id),
            ServerMessage::LobbyState { rooms } => NoticeView::LobbyState(rooms_view(rooms@)),
            ServerMessage::RoomState { room_id, players, is_host } => NoticeView::RoomState(
                *room_id,
                texts_view(players@),
                *is_host,
            ),
            ServerMessage::GameUpdate { state, events, your_id } => NoticeView::GameUpdate(
                state@,
                events_view(events@),
                *your_id,
            ),
        }
    }
}

} // verus!

//! The server's rooms and clients, and its answers to what clients ask. The connections
//! themselves stay with the caller: each operation hands back the messages to send, as
//! pairs of a client id and a message.
use vstd::prelude::*;
use std::collections::HashMap;
use vstd::std_specs::iter::IteratorSpec;

use crate::card::{copy_cards, full_deck, lemma_full_deck_distinct, Card};
use crate::client::seat_of;
use crate::event::{copy_events, events_view, EventView, GameEvent, GamePhase, PlayerAction};
use crate::net_messages::{
    copy_texts, rooms_view, texts_view, ClientMessage, NoticeView, RequestView, RoomInfo, RoomInfoView,
    ServerMessage,
};
use crate::player::{fresh_player, Player, PlayerModel};
use crate::rules::{
    due_blind, error_text, is_active, lemma_total_update, leveled, process, start, total_chips,
    well_formed, GameModel, OPENING_BIG_BLIND, OPENING_SMALL_BLIND,
};
use crate::state::{
    fresh_table, lemma_view_push, outcome_matches, players_view, table_seen_by, GameState,
};
use crate::text::{decimal_text, decimal_usize, str_eq};

verus! {

broadcast use vstd::std_specs::hash::group_hash_axioms;

/// Ids from this one on belong to bots.
pub const FIRST_BOT_ID: usize = 1000;

/// The chips each newcomer at a room's table receives.
pub const STARTING_CHIPS: u32 = 10000;

/// How many people a room holds.
pub const ROOM_CAPACITY: usize = 8;

/// A connected client: its name and the room it is in.
pub struct ClientInfo {
    pub name: String,
    pub room_id: Option<u32>,
}

/// A client as values.
pub struct ClientView {
    pub name: Seq<char>,
    pub room: Option<u32>,
}

impl View for ClientInfo {
    type V = ClientView;

    open spec fn view(&self) -> ClientView {
        ClientView { name: self.name@, room: self.room_id }
    }
}

/// A room: its host, the clients in it, its table, and how many hands it has started.
pub struct Room {
    pub id: u32,
    pub name: String,
    pub host_id: usize,
    pub players: Vec<usize>,
    pub state: GameState,
    pub hands_played: u64,
}

/// A room as values.
pub struct RoomView {
    pub id: u32,
    pub name: Seq<char>,
    pub host: usize,
    pub players: Seq<usize>,
    pub state: GameModel,
    pub hands_played: u64,
}

impl View for Room {
    type V = RoomView;

    open spec fn view(&self) -> RoomView {
        RoomView {
            id: self.id,
            name: self.name@,
            host: self.host_id,
            players: self.players@,
            state: self.state@,
            hands_played: self.hands_played,
        }
    }
}

/// Everything the server keeps.
pub struct ServerState {
    pub clients: HashMap<usize, ClientInfo>,
    pub rooms: HashMap<u32, Room>,
    pub next_client_id: usize,
    pub next_room_id: u32,
}

/// The server as values.
#[verifier::ext_equal]
pub struct ServerModel {
    pub clients: Map<usize, ClientView>,
    pub rooms: Map<u32, RoomView>,
    pub next_client: usize,
    pub next_room: u32,
}

impl View for ServerState {
    type V = ServerModel;

    open spec fn view(&self) -> ServerModel {
        ServerModel {
            clients: self.clients@.map_values(|c: ClientInfo| c@),
            rooms: self.rooms@.map_values(|r: Room| r@),
            next_client: self.next_client_id,
            next_room: self.next_room_id,
        }
    }
}

/// Messages to send, as values.
pub open spec fn outbox_view(v: Seq<(usize, ServerMessage)>) -> Seq<(usize, NoticeView)> {
    v.map_values(|p: (usize, ServerMessage)| (p.0, p.1@))
}

/// Every room's table is well formed.
pub open spec fn server_wf(s: ServerModel) -> bool {
    forall|r: u32| #[trigger] s.rooms.contains_key(r) ==> well_formed(s.rooms[r].state)
}

/// The name a client has until it chooses one.
pub open spec fn guest_name(id: usize) -> Seq<char> {
    "Guest"@ + decimal_text(id as nat)
}

/// A room's line in the lobby.
pub open spec fn listing_entry(r: RoomView) -> RoomInfoView {
    RoomInfoView {
        id: r.id,
        name: r.name,
        player_count: r.players.len() as usize,
        max_players: ROOM_CAPACITY,
        has_started: r.state.phase != GamePhase::WaitingForPlayers,
    }
}

/// `ls` lists every room once, in some order.
pub open spec fn lists_rooms(ls: Seq<RoomInfoView>, rooms: Map<u32, RoomView>) -> bool {
    exists|ks: Seq<u32>|
        {
            &&& ks.no_duplicates()
            &&& #[trigger] ks.to_set() == rooms.dom()
            &&& ls == ks.map_values(|k: u32| listing_entry(rooms[k]))
        }
}

/// The names of the bots among `ps`, in seat order.
pub open spec fn bot_names(ps: Seq<PlayerModel>) -> Seq<Seq<char>>
    decreases ps.len(),
{
    if ps.len() == 0 {
        Seq::empty()
    } else if ps.last().id >= FIRST_BOT_ID {
        bot_names(ps.drop_last()).push(ps.last().name)
    } else {
        bot_names(ps.drop_last())
    }
}

/// Every client in the room `room_id` is connected.
pub open spec fn roster_known(s: ServerModel, room_id: u32) -> bool {
    s.rooms.contains_key(room_id) ==> forall|i: int|
        0 <= i < s.rooms[room_id].players.len() ==> s.clients.contains_key(
            #[trigger] s.rooms[room_id].players[i],
        )
}

/// The names shown in a waiting room: its clients', then its bots'.
pub open spec fn roster(s: ServerModel, r: RoomView) -> Seq<Seq<char>> {
    r.players.map_values(|pid: usize| s.clients[pid].name) + bot_names(r.state.players)
}

/// The waiting-room view each client of the room receives.
pub open spec fn room_notices(s: ServerModel, room_id: u32) -> Seq<(usize, NoticeView)> {
    if s.rooms.contains_key(room_id) {
        let r = s.rooms[room_id];
        r.players.map_values(
            |id: usize| (id, NoticeView::RoomState(room_id, roster(s, r), r.host == id)),
        )
    } else {
        Seq::empty()
    }
}

/// The table each client of the room receives after `evs`, as that client may see it:
/// the other players' cards stay hidden unless shown at a showdown.
pub open spec fn update_notices(s: ServerModel, room_id: u32, evs: Seq<EventView>) -> Seq<
    (usize, NoticeView),
> {
    if s.rooms.contains_key(room_id) {
        let r = s.rooms[room_id];
        r.players.map_values(
            |id: usize| (id, NoticeView::GameUpdate(table_seen_by(r.state, id), evs, id)),
        )
    } else {
        Seq::empty()
    }
}

impl ServerState {
    /// A server with no clients and no rooms; the first ids given out are 1.
    pub fn new() -> (s: ServerState)
        ensures
            s@ == (ServerModel {
                clients: Map::empty(),
                rooms: Map::empty(),
                next_client: 1,
                next_room: 1,
            }),
            server_wf(s@),
    {
        let s = ServerState {
            clients: HashMap::new(),
            rooms: HashMap::new(),
            next_client_id: 1,
            next_room_id: 1,
        };
        assert(s@ =~= ServerModel {
            clients: Map::empty(),
            rooms: Map::empty(),
            next_client: 1,
            next_room: 1,
        });
        s
    }

    /// Registers a new connection under the next id, named "Guest" and its id, in no room.
    pub fn connect(&mut self) -> (id: usize)
        requires
            old(self)@.next_client < usize::MAX,
        ensures
            id == old(self)@.next_client,
            final(self)@ == (ServerModel {
                clients: old(self)@.clients.insert(id, ClientView { name: guest_name(id), room: None }),
                next_client: (id + 1) as usize,
                ..old(self)@
            }),
    {
        let id = self.next_client_id;
        self.next_client_id = id + 1;
        let name = String::from_str("Guest").concat(decimal_usize(id).as_str());
        self.clients.insert(id, ClientInfo { name, room_id: None });
        assert(self@ =~= ServerModel {
            clients: old(self)@.clients.insert(id, ClientView { name: guest_name(id), room: None }),
            next_client: (id + 1) as usize,
            ..old(self)@
        });
        id
    }

    /// The lobby: every room once, in the order the map gives them.
    pub fn room_listing(&self) -> (r: Vec<RoomInfo>)
        ensures
            lists_rooms(rooms_view(r@), self@.rooms),
    {
        let mut r: Vec<RoomInfo> = Vec::new();
        let ghost ks: Seq<u32> = vstd::std_specs::hash::spec_keys_iter(&self.rooms).remaining().unref();
        for k in it: self.rooms.keys()
            invariant
                it.seq().unref() == ks,
                r@.len() == it.index(),
                forall|i: int|
                    0 <= i < it.index() ==> (#[trigger] r@[i])@ == listing_entry(
                        self@.rooms[*it.seq()[i]],
                    ),
        {
            match self.rooms.get(k) {
                Some(room) => r.push(
                    RoomInfo {
                        id: room.id,
                        name: room.name.clone(),
                        player_count: room.players.len(),
                        max_players: ROOM_CAPACITY,
                        has_started: room.state.phase != GamePhase::WaitingForPlayers,
                    },
                ),
                None => {},
            }
        }
        proof {
            assert(rooms_view(r@) =~= ks.map_values(|k: u32| listing_entry(self@.rooms[k])));
            assert(ks.no_duplicates());
            assert(self@.rooms.dom() =~= self.rooms@.dom());
            assert(ks.to_set() == self@.rooms.dom());
        }
        r
    }
}

/// The names of the bots among `players`, in seat order.
fn bot_name_list(players: &Vec<Player>) -> (r: Vec<String>)
    ensures
        texts_view(r@) == bot_names(players_view(players@)),
{
    let ghost ps = players_view(players@);
    let mut r: Vec<String> = Vec::new();
    let mut i: usize = 0;
    while i < players.len()
        invariant
            i <= players@.len(),
            ps == players_view(players@),
            texts_view(r@) == bot_names(ps.take(i as int)),
        decreases players@.len() - i,
    {
        let ghost before = r@;
        assert(ps.take(i + 1).drop_last() =~= ps.take(i as int));
        if players[i].id >= FIRST_BOT_ID {
            r.push(players[i].name.clone());
            assert(texts_view(r@) =~= texts_view(before).push(players@[i as int].name@));
        }
        i = i + 1;
    }
    assert(ps.take(players@.len() as int) =~= ps);
    r
}

impl ServerState {
    /// The waiting-room view for each client of the room, in the room's order.
    pub fn broadcast_room_state(&self, room_id: u32) -> (out: Vec<(usize, ServerMessage)>)
        requires
            roster_known(self@, room_id),
        ensures
            outbox_view(out@) == room_notices(self@, room_id),
    {
        let mut out: Vec<(usize, ServerMessage)> = Vec::new();
        match self.rooms.get(&room_id) {
            None => {
                assert(outbox_view(out@) =~= room_notices(self@, room_id));
                out
            },
            Some(room) => {
                let ghost r = self@.rooms[room_id];
                assert(r == room@);
                let mut names: Vec<String> = Vec::new();
                let mut i: usize = 0;
                while i < room.players.len()
                    invariant
                        r == room@,
                        roster_known(self@, room_id),
                        self@.rooms.contains_key(room_id),
                        self@.rooms[room_id] == r,
                        i <= r.players.len(),
                        names@.len() == i,
                        forall|j: int|
                            0 <= j < i ==> (#[trigger] names@[j])@ == self@.clients[r.players[j]].name,
                    decreases r.players.len() - i,
                {
                    let pid = room.players[i];
                    assert(self@.clients.contains_key(r.players[i as int]));
                    match self.clients.get(&pid) {
                        Some(c) => names.push(c.name.clone()),
                        None => {},
                    }
                    i = i + 1;
                }
                let bots = bot_name_list(&room.state.players);
                let ghost n = names@.len();
                let mut k: usize = 0;
                while k < bots.len()
                    invariant
                        n == r.players.len(),
                        names@.len() == n + k,
                        forall|j: int|
                            0 <= j < n ==> (#[trigger] names@[j])@ == self@.clients[r.players[j]].name,
                        forall|j: int| 0 <= j < k ==> (#[trigger] names@[n + j])@ == bots@[j]@,
                        k <= bots@.len(),
                    decreases bots@.len() - k,
                {
                    names.push(bots[k].clone());
                    k = k + 1;
                }
                proof {
                    assert(texts_view(names@) =~= roster(self@, r)) by {
                        assert forall|j: int| 0 <= j < names@.len() implies texts_view(names@)[j]
                            == roster(self@, r)[j] by {
                            if j >= n {
                                assert(names@[n + (j - n)]@ == bots@[j - n]@);
                            }
                        }
                    }
                }
                let mut t: usize = 0;
                while t < room.players.len()
                    invariant
                        r == room@,
                        self@.rooms.contains_key(room_id),
                        self@.rooms[room_id] == r,
                        texts_view(names@) == roster(self@, r),
                        t <= r.players.len(),
                        out@.len() == t,
                        forall|j: int|
                            0 <= j < t ==> (#[trigger] out@[j]).0 == r.players[j] && out@[j].1@
                                == NoticeView::RoomState(
                                room_id,
                                roster(self@, r),
                                r.host == r.players[j],
                            ),
                    decreases r.players.len() - t,
                {
                    let id = room.players[t];
                    let msg = ServerMessage::RoomState {
                        room_id,
                        players: copy_texts(&names),
                        is_host: room.host_id == id,
                    };
                    out.push((id, msg));
                    t = t + 1;
                }
                assert(outbox_view(out@) =~= room_notices(self@, room_id));
                out
            },
        }
    }

    /// The table, after `events`, for each client of the room, in the room's order.
    pub fn broadcast_game_update(&self, room_id: u32, events: &Vec<GameEvent>) -> (out: Vec<
        (usize, ServerMessage),
    >)
        ensures
            outbox_view(out@) == update_notices(self@, room_id, events_view(events@)),
    {
        let mut out: Vec<(usize, ServerMessage)> = Vec::new();
        match self.rooms.get(&room_id) {
            None => {
                assert(outbox_view(out@) =~= update_notices(self@, room_id, events_view(events@)));
                out
            },
            Some(room) => {
                let ghost r = self@.rooms[room_id];
                assert(r == room@);
                let mut t: usize = 0;
                while t < room.players.len()
                    invariant
                        r == room@,
                        self@.rooms.contains_key(room_id),
                        self@.rooms[room_id] == r,
                        t <= r.players.len(),
                        out@.len() == t,
                        forall|j: int|
                            0 <= j < t ==> (#[trigger] out@[j]).0 == r.players[j] && out@[j].1@
                                == NoticeView::GameUpdate(
                                table_seen_by(r.state, r.players[j]),
                                events_view(events@),
                                r.players[j],
                            ),
                    decreases r.players.len() - t,
                {
                    let id = room.players[t];
                    let msg = ServerMessage::GameUpdate {
                        state: room.state.seen_by(id),
                        events: copy_events(events),
                        your_id: id,
                    };
                    out.push((id, msg));
                    t = t + 1;
                }
                assert(outbox_view(out@) =~= update_notices(self@, room_id, events_view(events@)));
                out
            },
        }
    }
}

/// The error for a name another client already has.
pub open spec fn name_in_use_text() -> Seq<char> {
    "Nome já está em uso."@
}

/// The error for a full room.
pub open spec fn room_full_text() -> Seq<char> {
    "Sala cheia."@
}

/// The error for a room that does not exist.
pub open spec fn no_such_room_text() -> Seq<char> {
    "Sala não encontrada."@
}

/// The error for a start with fewer than two players at the table.
pub open spec fn too_few_text() -> Seq<char> {
    "Not enough players with chips to start."@
}

/// Some connected client, the asker included, is called `name`.
pub open spec fn name_taken(s: ServerModel, name: Seq<char>) -> bool {
    exists|k: usize| #[trigger] s.clients.contains_key(k) && s.clients[k].name == name
}

/// The server with client `c` (if connected) in room `rid`.
pub open spec fn enter_room(s: ServerModel, c: usize, rid: u32) -> ServerModel {
    if s.clients.contains_key(c) {
        ServerModel { clients: s.clients.insert(c, ClientView { room: Some(rid), ..s.clients[c] }), ..s }
    } else {
        s
    }
}

/// The server with room `rid` replaced by `r`.
pub open spec fn put_room(s: ServerModel, rid: u32, r: RoomView) -> ServerModel {
    ServerModel { rooms: s.rooms.insert(rid, r), ..s }
}

/// Choosing a name: refused when taken; else the client is renamed, welcomed, and shown
/// the lobby `ls`.
pub open spec fn join_server_outcome(s: ServerModel, c: usize, name: Seq<char>, ls: Seq<RoomInfoView>) -> (
    ServerModel,
    Seq<(usize, NoticeView)>,
) {
    if name_taken(s, name) {
        (s, seq![(c, NoticeView::Error(name_in_use_text()))])
    } else {
        let s1 = if s.clients.contains_key(c) {
            ServerModel { clients: s.clients.insert(c, ClientView { name, ..s.clients[c] }), ..s }
        } else {
            s
        };
        (s1, seq![(c, NoticeView::Welcome(c)), (c, NoticeView::LobbyState(ls))])
    }
}

/// The table of a new room: empty, with the deck `d`, at the opening blinds.
pub open spec fn room_table(d: Seq<Card>) -> GameModel {
    GameModel {
        small_blind: OPENING_SMALL_BLIND,
        big_blind: OPENING_BIG_BLIND,
        min_raise: OPENING_BIG_BLIND,
        ..fresh_table(d)
    }
}

/// A room's table is at the blinds its count of hands calls for (`due_blind`), for every
/// count short of the largest one.
pub open spec fn blinds_on_schedule(r: RoomView) -> bool {
    r.hands_played < u64::MAX ==> {
        &&& r.state.small_blind == due_blind(OPENING_SMALL_BLIND, r.hands_played)
        &&& r.state.big_blind == due_blind(OPENING_BIG_BLIND, r.hands_played)
    }
}

/// Every room is on its blind schedule.
pub open spec fn rooms_on_schedule(s: ServerModel) -> bool {
    forall|rid: u32| s.rooms.contains_key(rid) ==> blinds_on_schedule(#[trigger] s.rooms[rid])
}

/// Creating a room: it takes the next room id, with the asker as host and only member and
/// an empty table with the deck `d` at the opening blinds, having played no hand; its
/// members are shown the waiting room.
pub open spec fn create_room_outcome(s: ServerModel, c: usize, name: Seq<char>, d: Seq<Card>) -> (
    ServerModel,
    Seq<(usize, NoticeView)>,
) {
    let rid = s.next_room;
    let r = RoomView {
        id: rid,
        name,
        host: c,
        players: seq![c],
        state: room_table(d),
        hands_played: 0,
    };
    let s1 = enter_room(
        ServerModel { rooms: s.rooms.insert(rid, r), next_room: (rid + 1) as u32, ..s },
        c,
        rid,
    );
    (s1, room_notices(s1, rid))
}

/// Joining a room: refused when it does not exist or is full; else the asker joins it and
/// its members are shown the waiting room.
pub open spec fn join_room_outcome(s: ServerModel, c: usize, rid: u32) -> (
    ServerModel,
    Seq<(usize, NoticeView)>,
) {
    if !s.rooms.contains_key(rid) {
        (s, seq![(c, NoticeView::Error(no_such_room_text()))])
    } else if s.rooms[rid].players.len() >= ROOM_CAPACITY {
        (s, seq![(c, NoticeView::Error(room_full_text()))])
    } else {
        let r = s.rooms[rid];
        let s1 = enter_room(put_room(s, rid, RoomView { players: r.players.push(c), ..r }), c, rid);
        (s1, room_notices(s1, rid))
    }
}

/// The room of the connected client `c`, if it is in one.
pub open spec fn room_of(s: ServerModel, c: usize) -> Option<u32> {
    if s.clients.contains_key(c) {
        s.clients[c].room
    } else {
        None
    }
}

/// The name of the bot that takes seat `n`.
pub open spec fn bot_name(n: nat) -> Seq<char> {
    seq!["Bot Alice"@, "Bot Bob"@, "Bot Charlie"@, "Bot Dave"@, "Bot Eve"@][(n % 5) as int]
}

/// Adding a bot (the host only): it sits down with the starting chips, named after its
/// seat and with id 1000 plus its seat, and the members are shown the waiting room.
pub open spec fn add_bot_outcome(s: ServerModel, c: usize) -> (ServerModel, Seq<(usize, NoticeView)>) {
    match room_of(s, c) {
        Some(rid) => if !s.rooms.contains_key(rid) {
            (s, Seq::empty())
        } else {
            let r = s.rooms[rid];
            if r.host == c {
                let n = r.state.players.len();
                let bot = fresh_player((FIRST_BOT_ID + n) as usize, bot_name(n), STARTING_CHIPS);
                let s1 = put_room(
                    s,
                    rid,
                    RoomView {
                        state: GameModel { players: r.state.players.push(bot), ..r.state },
                        ..r
                    },
                );
                (s1, room_notices(s1, rid))
            } else {
                (s, Seq::empty())
            }
        },
        None => (s, Seq::empty()),
    }
}

/// A deck holding each card once, in some order.
pub open spec fn shuffled_deck(d: Seq<Card>) -> bool {
    d.len() == 52 && d.to_multiset() == full_deck().to_multiset()
}

/// The chips on a table: the players' stacks, and the pot while a hand is played.
pub open spec fn table_chips(m: GameModel) -> int {
    total_chips(m.players) + if is_active(m.phase) {
        m.pot as int
    } else {
        0
    }
}

/// What adding a bot needs: the asker's room exists, and for the host, its members are
/// connected, the bot's id fits, and the chips on the table stay countable.
pub open spec fn add_bot_ok(s: ServerModel, c: usize) -> bool {
    match room_of(s, c) {
        Some(rid) => s.rooms.contains_key(rid) && (s.rooms[rid].host == c ==> {
            &&& roster_known(s, rid)
            &&& FIRST_BOT_ID + s.rooms[rid].state.players.len() <= usize::MAX
            &&& table_chips(s.rooms[rid].state) + STARTING_CHIPS <= u32::MAX
        }),
        None => true,
    }
}

impl ServerState {
    /// Whether some connected client is called `name`.
    fn is_name_taken(&self, name: &str) -> (r: bool)
        ensures
            r == name_taken(self@, name@),
    {
        let mut taken = false;
        let ghost ks: Seq<usize> = vstd::std_specs::hash::spec_keys_iter(&self.clients).remaining().unref();
        proof {
            assert(self@.clients.dom() =~= self.clients@.dom());
        }
        for k in it: self.clients.keys()
            invariant
                it.seq().unref() == ks,
                ks.to_set() == self.clients@.dom(),
                taken <==> exists|j: int|
                    0 <= j < it.index() && self@.clients[#[trigger] ks[j]].name == name@,
        {
            let ghost j = it.index();
            assert(*k == ks[j]);
            assert(ks.to_set().contains(ks[j]));
            match self.clients.get(k) {
                Some(cl) => {
                    assert(self@.clients[ks[j]] == cl@);
                    if str_eq(cl.name.as_str(), name) {
                        taken = true;
                    }
                    proof {
                        if !taken {
                            assert forall|jj: int| 0 <= jj < j + 1 implies self@.clients[#[trigger] ks[jj]].name != name@ by {
                                if jj < j {
                                } else {
                                    assert(ks[jj] == ks[j]);
                                }
                            }
                        }
                    }
                },
                None => {},
            }
        }
        proof {
            if taken {
                let j = choose|j: int| 0 <= j < ks.len() && self@.clients[#[trigger] ks[j]].name == name@;
                assert(ks.to_set().contains(ks[j]));
                assert(self@.clients.contains_key(ks[j]));
            } else {
                assert forall|k: usize| #[trigger] self@.clients.contains_key(k) implies self@.clients[k].name != name@ by {
                    assert(ks.to_set().contains(k));
                    let j = choose|j: int| 0 <= j < ks.len() && ks[j] == k;
                    assert(self@.clients[ks[j]].name != name@);
                }
            }
        }
        taken
    }

    /// The rooms can always be listed.
    proof fn lemma_some_listing(&self)
        ensures
            exists|ls: Seq<RoomInfoView>| lists_rooms(ls, self@.rooms),
    {
        let ks = vstd::std_specs::hash::spec_keys_iter(&self.rooms).remaining().unref();
        assert(ks.no_duplicates());
        assert(self@.rooms.dom() =~= self.rooms@.dom());
        assert(ks.to_set() == self@.rooms.dom());
        assert(lists_rooms(ks.map_values(|k: u32| listing_entry(self@.rooms[k])), self@.rooms));
    }

    /// Choosing a name.
    fn join_server(&mut self, c: usize, name: String) -> (out: Vec<(usize, ServerMessage)>)
        ensures
            exists|ls: Seq<RoomInfoView>|
                lists_rooms(ls, old(self)@.rooms) && (final(self)@, outbox_view(out@))
                    == join_server_outcome(old(self)@, c, name@, ls),
    {
        let ghost s0 = self@;
        let mut out: Vec<(usize, ServerMessage)> = Vec::new();
        if self.is_name_taken(name.as_str()) {
            out.push((c, ServerMessage::Error(String::from_str("Nome já está em uso."))));
            proof {
                self.lemma_some_listing();
                let ls = choose|ls: Seq<RoomInfoView>| lists_rooms(ls, s0.rooms);
                assert(outbox_view(out@) =~= join_server_outcome(s0, c, name@, ls).1);
            }
            return out;
        }
        let ghost nm = name@;
        match self.clients.remove(&c) {
            Some(cl) => {
                self.clients.insert(c, ClientInfo { name, room_id: cl.room_id });
            },
            None => {},
        }
        let listing = self.room_listing();
        out.push((c, ServerMessage::Welcome { player_id: c }));
        out.push((c, ServerMessage::LobbyState { rooms: listing }));
        proof {
            let ls = rooms_view(listing@);
            assert(self@.rooms =~= s0.rooms);
            assert(self@ =~= join_server_outcome(s0, c, nm, ls).0);
            assert(outbox_view(out@) =~= join_server_outcome(s0, c, nm, ls).1);
        }
        out
    }
}

impl ServerState {
    /// Puts client `c`, if connected, in room `rid`.
    fn put_client_in_room(&mut self, c: usize, rid: u32)
        ensures
            final(self)@ == enter_room(old(self)@, c, rid),
    {
        match self.clients.remove(&c) {
            Some(cl) => {
                self.clients.insert(c, ClientInfo { name: cl.name, room_id: Some(rid) });
            },
            None => {},
        }
        assert(self@ =~= enter_room(old(self)@, c, rid));
    }

    /// Creating a room.
    fn create_room(&mut self, c: usize, room_name: String) -> (out: Vec<(usize, ServerMessage)>)
        requires
            old(self)@.next_room < u32::MAX,
            old(self)@.clients.contains_key(c),
            server_wf(old(self)@),
        ensures
            exists|d: Seq<Card>|
                shuffled_deck(d) && (final(self)@, outbox_view(out@)) == create_room_outcome(
                    old(self)@,
                    c,
                    room_name@,
                    d,
                ),
            server_wf(final(self)@),
    {
        let ghost s0 = self@;
        let ghost nm = room_name@;
        let room_id = self.next_room_id;
        self.next_room_id = room_id + 1;
        let mut state = GameState::new();
        let ghost d = state@.deck;
        state.small_blind = OPENING_SMALL_BLIND;
        state.big_blind = OPENING_BIG_BLIND;
        state.min_raise = OPENING_BIG_BLIND;
        let mut players: Vec<usize> = Vec::new();
        players.push(c);
        let room = Room { id: room_id, name: room_name, host_id: c, players, state, hands_played: 0 };
        self.rooms.insert(room_id, room);
        self.put_client_in_room(c, room_id);
        proof {
            let r = RoomView {
                id: room_id,
                name: nm,
                host: c,
                players: seq![c],
                state: room_table(d),
                hands_played: 0,
            };
            assert(self@ =~= create_room_outcome(s0, c, nm, d).0);
            assert(roster_known(self@, room_id));
        }
        let out = self.broadcast_room_state(room_id);
        assert(shuffled_deck(d));
        assert((self@, outbox_view(out@)) == create_room_outcome(s0, c, nm, d));
        out
    }

    /// Joining a room.
    fn join_room(&mut self, c: usize, rid: u32) -> (out: Vec<(usize, ServerMessage)>)
        requires
            old(self)@.rooms.contains_key(rid) && old(self)@.rooms[rid].players.len()
                < ROOM_CAPACITY ==> old(self)@.clients.contains_key(c) && roster_known(
                old(self)@,
                rid,
            ),
            server_wf(old(self)@),
        ensures
            (final(self)@, outbox_view(out@)) == join_room_outcome(old(self)@, c, rid),
            server_wf(final(self)@),
    {
        let ghost s0 = self@;
        let mut out: Vec<(usize, ServerMessage)> = Vec::new();
        match self.rooms.remove(&rid) {
            None => {
                out.push((c, ServerMessage::Error(String::from_str("Sala não encontrada."))));
                assert(self@ =~= s0);
                assert(outbox_view(out@) =~= join_room_outcome(s0, c, rid).1);
                out
            },
            Some(mut room) => {
                if room.players.len() >= ROOM_CAPACITY {
                    self.rooms.insert(rid, room);
                    out.push((c, ServerMessage::Error(String::from_str("Sala cheia."))));
                    assert(self@ =~= s0);
                    assert(outbox_view(out@) =~= join_room_outcome(s0, c, rid).1);
                    out
                } else {
                    room.players.push(c);
                    self.rooms.insert(rid, room);
                    self.put_client_in_room(c, rid);
                    proof {
                        assert(self@ =~= join_room_outcome(s0, c, rid).0);
                        assert(roster_known(self@, rid));
                    }
                    self.broadcast_room_state(rid)
                }
            },
        }
    }

    /// The room of client `c`, if connected and in one.
    fn room_of_client(&self, c: usize) -> (r: Option<u32>)
        ensures
            r == room_of(self@, c),
    {
        match self.clients.get(&c) {
            Some(cl) => cl.room_id,
            None => None,
        }
    }

    /// Adding a bot.
    fn add_bot(&mut self, c: usize) -> (out: Vec<(usize, ServerMessage)>)
        requires
            add_bot_ok(old(self)@, c),
            server_wf(old(self)@),
        ensures
            (final(self)@, outbox_view(out@)) == add_bot_outcome(old(self)@, c),
            server_wf(final(self)@),
    {
        let ghost s0 = self@;
        let empty: Vec<(usize, ServerMessage)> = Vec::new();
        assert(outbox_view(empty@) =~= Seq::<(usize, NoticeView)>::empty());
        let rid = match self.room_of_client(c) {
            Some(rid) => rid,
            None => return empty,
        };
        let mut room = match self.rooms.remove(&rid) {
            Some(room) => room,
            None => return empty,
        };
        if room.host_id != c {
            self.rooms.insert(rid, room);
            assert(self@ =~= s0);
            return empty;
        }
        let n = room.state.players.len();
        let name = if n % 5 == 0 {
            String::from_str("Bot Alice")
        } else if n % 5 == 1 {
            String::from_str("Bot Bob")
        } else if n % 5 == 2 {
            String::from_str("Bot Charlie")
        } else if n % 5 == 3 {
            String::from_str("Bot Dave")
        } else {
            String::from_str("Bot Eve")
        };
        assert(name@ == bot_name(n as nat));
        let bot_id = FIRST_BOT_ID + n;
        room.state.add_player(bot_id, name, STARTING_CHIPS);
        self.rooms.insert(rid, room);
        proof {
            assert(self@ =~= add_bot_outcome(s0, c).0);
            assert(roster_known(self@, rid));
        }
        self.broadcast_room_state(rid)
    }
}

/// The players of `ps` who have chips, in order.
pub open spec fn with_chips(ps: Seq<PlayerModel>) -> Seq<PlayerModel>
    decreases ps.len(),
{
    if ps.len() == 0 {
        Seq::empty()
    } else if ps.last().chips > 0 {
        with_chips(ps.drop_last()).push(ps.last())
    } else {
        with_chips(ps.drop_last())
    }
}

/// Some player of `ps` has the id `id`.
pub open spec fn has_seat(ps: Seq<PlayerModel>, id: usize) -> bool {
    exists|i: int| 0 <= i < ps.len() && #[trigger] ps[i].id == id
}

/// `ps` with each member of `names` not yet seated sitting down with the starting chips,
/// in order.
pub open spec fn seat_newcomers(ps: Seq<PlayerModel>, names: Seq<(usize, Seq<char>)>) -> Seq<
    PlayerModel,
>
    decreases names.len(),
{
    if names.len() == 0 {
        ps
    } else {
        let prev = seat_newcomers(ps, names.drop_last());
        let (pid, name) = names.last();
        if has_seat(prev, pid) {
            prev
        } else {
            prev.push(fresh_player(pid, name, STARTING_CHIPS))
        }
    }
}

/// The members of a room with their names.
pub open spec fn member_names(s: ServerModel, r: RoomView) -> Seq<(usize, Seq<char>)> {
    r.players.map_values(|pid: usize| (pid, s.clients[pid].name))
}

/// After a finished hand, the players without chips leave and the button moves one seat.
pub open spec fn regrouped(m: GameModel) -> GameModel {
    if m.phase == GamePhase::Finished {
        let kept = with_chips(m.players);
        GameModel {
            players: kept,
            dealer_button: if kept.len() > 1 {
                ((m.dealer_button + 1) % (kept.len() as int)) as usize
            } else {
                m.dealer_button
            },
            ..m
        }
    } else {
        m
    }
}

/// The room's table once its members are all seated.
pub open spec fn seated_table(s: ServerModel, r: RoomView) -> GameModel {
    let m = regrouped(r.state);
    GameModel { players: seat_newcomers(m.players, member_names(s, r)), ..m }
}

/// A count one higher, or the largest count when it cannot grow.
pub open spec fn one_more(n: u64) -> u64 {
    if n < u64::MAX {
        (n + 1) as u64
    } else {
        n
    }
}

/// Starting a hand (the host only): the members sit down; with fewer than two players
/// the host is told so, else the blinds rise when the room has played a multiple of five
/// hands, the hand starts with the deck `d`, the room counts one hand more, and the
/// members see it. The room whose bots may then have to act comes last.
pub open spec fn start_outcome(s: ServerModel, c: usize, d: Seq<Card>) -> (
    ServerModel,
    Seq<(usize, NoticeView)>,
    Option<u32>,
) {
    match room_of(s, c) {
        Some(rid) => if !s.rooms.contains_key(rid) {
            (s, Seq::empty(), None)
        } else {
            let r = s.rooms[rid];
            if r.host == c {
                let m = seated_table(s, r);
                if m.players.len() < 2 {
                    (
                        put_room(s, rid, RoomView { state: m, ..r }),
                        seq![(c, NoticeView::Error(too_few_text()))],
                        None,
                    )
                } else {
                    let (m1, res) = start(leveled(m, r.hands_played), d);
                    let s1 = put_room(
                        s,
                        rid,
                        RoomView { state: m1, hands_played: one_more(r.hands_played), ..r },
                    );
                    match res {
                        Ok(evs) => (s1, update_notices(s1, rid, evs), Some(rid)),
                        Err(_) => (s1, Seq::empty(), None),
                    }
                }
            } else {
                (s, Seq::empty(), None)
            }
        },
        None => (s, Seq::empty(), None),
    }
}

/// What starting a hand needs: the asker's room exists, and for the host, its members
/// are connected and the chips on the seated table stay countable.
pub open spec fn start_ok(s: ServerModel, c: usize) -> bool {
    match room_of(s, c) {
        Some(rid) => s.rooms.contains_key(rid) && (s.rooms[rid].host == c ==> {
            &&& forall|i: int|
                0 <= i < s.rooms[rid].players.len() ==> s.clients.contains_key(
                    #[trigger] s.rooms[rid].players[i],
                )
            &&& table_chips(seated_table(s, s.rooms[rid])) <= u32::MAX
        }),
        None => true,
    }
}

/// A bet from a client in a room: the table's answer, shown to the members, or the
/// refusal, told to the asker.
pub open spec fn action_outcome(s: ServerModel, c: usize, a: PlayerAction) -> (
    ServerModel,
    Seq<(usize, NoticeView)>,
    Option<u32>,
) {
    match room_of(s, c) {
        Some(rid) => if !s.rooms.contains_key(rid) {
            (s, Seq::empty(), None)
        } else {
            let r = s.rooms[rid];
            let (m1, res) = process(r.state, c, a);
            let s1 = put_room(s, rid, RoomView { state: m1, ..r });
            match res {
                Ok(evs) => (s1, update_notices(s1, rid, evs), Some(rid)),
                Err(e) => (s1, seq![(c, NoticeView::Error(error_text(e)))], None),
            }
        },
        None => (s, Seq::empty(), None),
    }
}

/// Members with their names, as values.
pub open spec fn names_view(v: Seq<(usize, String)>) -> Seq<(usize, Seq<char>)> {
    v.map_values(|p: (usize, String)| (p.0, p.1@))
}

/// Leaving out players without chips leaves the chips on the table as they were.
pub proof fn lemma_with_chips_total(ps: Seq<PlayerModel>)
    ensures
        total_chips(with_chips(ps)) == total_chips(ps),
        with_chips(ps).len() <= ps.len(),
    decreases ps.len(),
{
    if ps.len() > 0 {
        lemma_with_chips_total(ps.drop_last());
        let w = with_chips(ps.drop_last());
        if ps.last().chips > 0 {
            assert(w.push(ps.last()).drop_last() =~= w);
        }
    }
}

/// Seating more members never takes chips off the table.
proof fn lemma_seat_grows(ps: Seq<PlayerModel>, names: Seq<(usize, Seq<char>)>, k: int)
    requires
        0 <= k <= names.len(),
    ensures
        total_chips(seat_newcomers(ps, names.take(k))) <= total_chips(seat_newcomers(ps, names)),
    decreases names.len(),
{
    if k < names.len() {
        lemma_seat_grows(ps, names.drop_last(), k);
        assert(names.drop_last().take(k) =~= names.take(k));
        let prev = seat_newcomers(ps, names.drop_last());
        let (pid, name) = names.last();
        if !has_seat(prev, pid) {
            assert(prev.push(fresh_player(pid, name, STARTING_CHIPS)).drop_last() =~= prev);
        }
    } else {
        assert(names.take(k) =~= names);
    }
}

/// Some order of the cards is a shuffled deck.
proof fn lemma_some_deck()
    ensures
        exists|d: Seq<Card>| shuffled_deck(d),
{
    lemma_full_deck_distinct();
    assert(shuffled_deck(full_deck()));
}

/// The players of `players` who have chips.
fn keep_funded(players: &Vec<Player>) -> (r: Vec<Player>)
    ensures
        players_view(r@) == with_chips(players_view(players@)),
{
    let ghost ps = players_view(players@);
    let mut r: Vec<Player> = Vec::new();
    let mut i: usize = 0;
    while i < players.len()
        invariant
            i <= players@.len(),
            ps == players_view(players@),
            players_view(r@) == with_chips(ps.take(i as int)),
        decreases players@.len() - i,
    {
        let ghost before = r@;
        assert(ps.take(i + 1).drop_last() =~= ps.take(i as int));
        if players[i].chips > 0 {
            r.push(players[i].copy());
            assert(players_view(r@) =~= players_view(before).push(players@[i as int]@));
        }
        i = i + 1;
    }
    assert(ps.take(players@.len() as int) =~= ps);
    r
}

/// Whether some player of `players` has the id `id`.
fn has_player(players: &Vec<Player>, id: usize) -> (r: bool)
    ensures
        r == has_seat(players_view(players@), id),
{
    let ghost ps = players_view(players@);
    let mut i: usize = 0;
    while i < players.len()
        invariant
            i <= players@.len(),
            ps == players_view(players@),
            forall|j: int| 0 <= j < i ==> ps[j].id != id,
        decreases players@.len() - i,
    {
        if players[i].id == id {
            assert(ps[i as int].id == id);
            return true;
        }
        i = i + 1;
    }
    false
}

impl ServerState {
    /// Starting a hand.
    fn start_room_game(&mut self, c: usize) -> (r: (Vec<(usize, ServerMessage)>, Option<u32>))
        requires
            start_ok(old(self)@, c),
            server_wf(old(self)@),
        ensures
            exists|d: Seq<Card>|
                shuffled_deck(d) && (final(self)@, outbox_view(r.0@), r.1) == start_outcome(
                    old(self)@,
                    c,
                    d,
                ),
            server_wf(final(self)@),
    {
        let ghost s0 = self@;
        let empty: Vec<(usize, ServerMessage)> = Vec::new();
        proof {
            lemma_some_deck();
            assert(outbox_view(empty@) =~= Seq::<(usize, NoticeView)>::empty());
        }
        let rid = match self.room_of_client(c) {
            Some(rid) => rid,
            None => return (empty, None),
        };
        let mut room = match self.rooms.remove(&rid) {
            Some(room) => room,
            None => return (empty, None),
        };
        let ghost r0 = s0.rooms[rid];
        assert(room@ == r0);
        if room.host_id != c {
            self.rooms.insert(rid, room);
            assert(self@ =~= s0);
            return (empty, None);
        }
        let mut names: Vec<(usize, String)> = Vec::new();
        let mut i: usize = 0;
        while i < room.players.len()
            invariant
                room@ == r0,
                self@.clients == s0.clients,
                forall|j: int| 0 <= j < r0.players.len() ==> s0.clients.contains_key(#[trigger] r0.players[j]),
                i <= r0.players.len(),
                names@.len() == i,
                forall|j: int|
                    0 <= j < i ==> (#[trigger] names@[j]).0 == r0.players[j] && names@[j].1@
                        == s0.clients[r0.players[j]].name,
            decreases r0.players.len() - i,
        {
            let pid = room.players[i];
            assert(s0.clients.contains_key(r0.players[i as int]));
            match self.clients.get(&pid) {
                Some(cl) => {
                    assert(s0.clients[pid] == cl@);
                    names.push((pid, cl.name.clone()));
                },
                None => {},
            }
            i = i + 1;
        }
        assert(names_view(names@) =~= member_names(s0, r0));
        let ghost m0 = r0.state;
        if room.state.phase == GamePhase::Finished {
            let kept = keep_funded(&room.state.players);
            room.state.players = kept;
            let n = room.state.players.len();
            if n > 1 {
                proof {
                    vstd::arithmetic::div_mod::lemma_add_mod_noop(m0.dealer_button as int, 1, n as int);
                    vstd::arithmetic::div_mod::lemma_small_mod(1, n as nat);
                }
                room.state.dealer_button = (room.state.dealer_button % n + 1) % n;
            }
            proof {
                lemma_with_chips_total(m0.players);
            }
        }
        let ghost m1 = regrouped(m0);
        assert(room.state@ =~= m1);
        assert(well_formed(m1));
        let ghost nv = names_view(names@);
        let mut k: usize = 0;
        assert(nv.take(0) =~= Seq::<(usize, Seq<char>)>::empty());
        while k < names.len()
            invariant
                room@.id == r0.id,
                room@.name == r0.name,
                room@.host == r0.host,
                room@.players == r0.players,
                room@.hands_played == r0.hands_played,
                nv == names_view(names@),
                k <= nv.len(),
                room.state@ == (GameModel { players: seat_newcomers(m1.players, nv.take(k as int)), ..m1 }),
                well_formed(room.state@),
                table_chips(GameModel { players: seat_newcomers(m1.players, nv), ..m1 }) <= u32::MAX,
            decreases nv.len() - k,
        {
            let pid = names[k].0;
            assert(nv.take(k + 1).drop_last() =~= nv.take(k as int));
            proof {
                lemma_seat_grows(m1.players, nv, k + 1);
            }
            if !has_player(&room.state.players, pid) {
                proof {
                    let prev = seat_newcomers(m1.players, nv.take(k as int));
                    let fresh = fresh_player(pid, nv[k as int].1, STARTING_CHIPS);
                    assert(nv.take(k + 1).last() == nv[k as int]);
                    assert(seat_newcomers(m1.players, nv.take(k + 1)) == prev.push(fresh));
                    assert(prev.push(fresh).drop_last() =~= prev);
                }
                room.state.add_player(pid, names[k].1.clone(), STARTING_CHIPS);
            }
            k = k + 1;
            assert(room.state@ =~= GameModel { players: seat_newcomers(m1.players, nv.take(k as int)), ..m1 });
        }
        assert(nv.take(nv.len() as int) =~= nv);
        assert(room.state@ == seated_table(s0, r0));
        if room.state.players.len() < 2 {
            self.rooms.insert(rid, room);
            let mut out: Vec<(usize, ServerMessage)> = Vec::new();
            out.push(
                (c, ServerMessage::Error(String::from_str("Not enough players with chips to start."))),
            );
            proof {
                assert(self@ =~= start_outcome(s0, c, full_deck()).0);
                assert(outbox_view(out@) =~= start_outcome(s0, c, full_deck()).1);
            }
            return (out, None);
        }
        room.state.level_blinds(room.hands_played);
        room.hands_played = room.hands_played.saturating_add(1);
        let ghost lv = leveled(seated_table(s0, r0), r0.hands_played);
        let res = room.state.start_game();
        let ghost d = choose|d: Seq<Card>|
            {
                &&& d.len() == 52
                &&& #[trigger] d.to_multiset() == full_deck().to_multiset()
                &&& room.state@ == start(lv, d).0
                &&& outcome_matches(res, start(lv, d).1)
            };
        self.rooms.insert(rid, room);
        proof {
            assert(self@ =~= start_outcome(s0, c, d).0);
        }
        match res {
            Ok(events) => {
                let out = self.broadcast_game_update(rid, &events);
                assert(shuffled_deck(d));
                (out, Some(rid))
            },
            Err(_) => {
                assert(shuffled_deck(d));
                (empty, None)
            },
        }
    }

    /// A bet from client `c`.
    fn room_action(&mut self, c: usize, action: PlayerAction) -> (r: (Vec<(usize, ServerMessage)>, Option<u32>))
        requires
            room_of(old(self)@, c) matches Some(rid) ==> old(self)@.rooms.contains_key(rid),
            server_wf(old(self)@),
        ensures
            (final(self)@, outbox_view(r.0@), r.1) == action_outcome(old(self)@, c, action),
            server_wf(final(self)@),
    {
        let ghost s0 = self@;
        let empty: Vec<(usize, ServerMessage)> = Vec::new();
        assert(outbox_view(empty@) =~= Seq::<(usize, NoticeView)>::empty());
        let rid = match self.room_of_client(c) {
            Some(rid) => rid,
            None => return (empty, None),
        };
        let mut room = match self.rooms.remove(&rid) {
            Some(room) => room,
            None => return (empty, None),
        };
        let ghost r0 = s0.rooms[rid];
        assert(room@ == r0);
        let res = room.state.process_action(c, action);
        self.rooms.insert(rid, room);
        proof {
            assert(self@ =~= action_outcome(s0, c, action).0);
        }
        match res {
            Ok(events) => (self.broadcast_game_update(rid, &events), Some(rid)),
            Err(msg) => {
                let mut out: Vec<(usize, ServerMessage)> = Vec::new();
                out.push((c, ServerMessage::Error(String::from_str(msg))));
                assert(outbox_view(out@) =~= action_outcome(s0, c, action).1);
                (out, None)
            },
        }
    }
}

/// What a message from client `c` needs so that answering it cannot fail.
pub open spec fn message_ok(s: ServerModel, c: usize, msg: RequestView) -> bool {
    match msg {
        RequestView::CreateRoom(_) => s.next_room < u32::MAX && s.clients.contains_key(c),
        RequestView::JoinRoom(rid) => s.rooms.contains_key(rid) && s.rooms[rid].players.len()
            < ROOM_CAPACITY ==> s.clients.contains_key(c) && roster_known(s, rid),
        RequestView::AddBot => add_bot_ok(s, c),
        RequestView::StartGame => start_ok(s, c),
        RequestView::Action(_) => room_of(s, c) matches Some(rid) ==> s.rooms.contains_key(rid),
        _ => true,
    }
}

/// A chat line from client `c`: every client of its room receives it, with the sender's
/// name.
pub open spec fn chat_outcome(s: ServerModel, c: usize, text: Seq<char>) -> Seq<(usize, NoticeView)> {
    match room_of(s, c) {
        Some(rid) => if s.rooms.contains_key(rid) {
            s.rooms[rid].players.map_values(
                |id: usize| (id, NoticeView::Chat(s.clients[c].name, text)),
            )
        } else {
            Seq::empty()
        },
        None => Seq::empty(),
    }
}

/// The server's answer to a message from client `c`, with `d` the deck a new table or a
/// new hand takes and `ls` the lobby as listed: the server after it, the messages to
/// send, and the room whose bots may then have to act. Marking oneself ready and kicking
/// are not acted on.
pub open spec fn on_message(
    s: ServerModel,
    c: usize,
    msg: RequestView,
    d: Seq<Card>,
    ls: Seq<RoomInfoView>,
) -> (ServerModel, Seq<(usize, NoticeView)>, Option<u32>) {
    match msg {
        RequestView::JoinServer(name) => {
            let (s1, out) = join_server_outcome(s, c, name, ls);
            (s1, out, None)
        },
        RequestView::CreateRoom(name) => {
            let (s1, out) = create_room_outcome(s, c, name, d);
            (s1, out, None)
        },
        RequestView::JoinRoom(rid) => {
            let (s1, out) = join_room_outcome(s, c, rid);
            (s1, out, None)
        },
        RequestView::AddBot => {
            let (s1, out) = add_bot_outcome(s, c);
            (s1, out, None)
        },
        RequestView::StartGame => start_outcome(s, c, d),
        RequestView::Action(a) => action_outcome(s, c, a),
        RequestView::Chat(text) => (s, chat_outcome(s, c, text), None),
        _ => (s, Seq::empty(), None),
    }
}

impl ServerState {
    /// A chat line from client `c`, for every client of its room.
    fn relay_chat(&self, c: usize, text: &String) -> (out: Vec<(usize, ServerMessage)>)
        ensures
            outbox_view(out@) == chat_outcome(self@, c, text@),
    {
        let mut out: Vec<(usize, ServerMessage)> = Vec::new();
        let (name, rid) = match self.clients.get(&c) {
            Some(cl) => match cl.room_id {
                Some(rid) => (cl.name.clone(), rid),
                None => {
                    assert(outbox_view(out@) =~= chat_outcome(self@, c, text@));
                    return out;
                },
            },
            None => {
                assert(outbox_view(out@) =~= chat_outcome(self@, c, text@));
                return out;
            },
        };
        let room = match self.rooms.get(&rid) {
            Some(room) => room,
            None => {
                assert(outbox_view(out@) =~= chat_outcome(self@, c, text@));
                return out;
            },
        };
        let ghost r = self@.rooms[rid];
        assert(room@ == r);
        let mut t: usize = 0;
        while t < room.players.len()
            invariant
                room@ == r,
                self@.rooms.contains_key(rid),
                self@.rooms[rid] == r,
                room_of(self@, c) == Some(rid),
                name@ == self@.clients[c].name,
                t <= r.players.len(),
                out@.len() == t,
                forall|j: int|
                    0 <= j < t ==> (#[trigger] out@[j]).0 == r.players[j] && out@[j].1@
                        == NoticeView::Chat(self@.clients[c].name, text@),
            decreases r.players.len() - t,
        {
            out.push(
                (room.players[t], ServerMessage::Chat { sender: name.clone(), message: text.clone() }),
            );
            t = t + 1;
        }
        assert(outbox_view(out@) =~= chat_outcome(self@, c, text@));
        out
    }

    /// Answers a message from client `c`: returns the messages to send and the room whose
    /// bots may have to act next.
    pub fn process_message(&mut self, c: usize, msg: ClientMessage) -> (r: (
        Vec<(usize, ServerMessage)>,
        Option<u32>,
    ))
        requires
            server_wf(old(self)@),
            message_ok(old(self)@, c, msg@),
        ensures
            exists|d: Seq<Card>, ls: Seq<RoomInfoView>|
                {
                    &&& shuffled_deck(d)
                    &&& lists_rooms(ls, old(self)@.rooms)
                    &&& (final(self)@, outbox_view(r.0@), r.1) == #[trigger] on_message(
                        old(self)@,
                        c,
                        msg@,
                        d,
                        ls,
                    )
                },
            server_wf(final(self)@),
    {
        let ghost s0 = self@;
        let ghost m = msg@;
        proof {
            lemma_some_deck();
            self.lemma_some_listing();
        }
        let ghost d0 = choose|d: Seq<Card>| shuffled_deck(d);
        let ghost ls0 = choose|ls: Seq<RoomInfoView>| lists_rooms(ls, s0.rooms);
        let empty: Vec<(usize, ServerMessage)> = Vec::new();
        assert(outbox_view(empty@) =~= Seq::<(usize, NoticeView)>::empty());
        match msg {
            ClientMessage::JoinServer { name } => {
                let out = self.join_server(c, name);
                let ghost ls = choose|ls: Seq<RoomInfoView>|
                    lists_rooms(ls, s0.rooms) && (self@, outbox_view(out@)) == join_server_outcome(
                        s0,
                        c,
                        m->JoinServer_0,
                        ls,
                    );
                assert(on_message(s0, c, m, d0, ls) == (self@, outbox_view(out@), None::<u32>));
                (out, None)
            },
            ClientMessage::CreateRoom { room_name } => {
                let out = self.create_room(c, room_name);
                let ghost d = choose|d: Seq<Card>|
                    shuffled_deck(d) && (self@, outbox_view(out@)) == create_room_outcome(
                        s0,
                        c,
                        m->CreateRoom_0,
                        d,
                    );
                assert(on_message(s0, c, m, d, ls0) == (self@, outbox_view(out@), None::<u32>));
                (out, None)
            },
            ClientMessage::JoinRoom { room_id } => {
                let out = self.join_room(c, room_id);
                assert(on_message(s0, c, m, d0, ls0) == (self@, outbox_view(out@), None::<u32>));
                (out, None)
            },
            ClientMessage::AddBot => {
                let out = self.add_bot(c);
                assert(on_message(s0, c, m, d0, ls0) == (self@, outbox_view(out@), None::<u32>));
                (out, None)
            },
            ClientMessage::StartGame => {
                let r = self.start_room_game(c);
                let ghost d = choose|d: Seq<Card>|
                    shuffled_deck(d) && (self@, outbox_view(r.0@), r.1) == start_outcome(s0, c, d);
                assert(on_message(s0, c, m, d, ls0) == (self@, outbox_view(r.0@), r.1));
                r
            },
            ClientMessage::Action(action) => {
                let r = self.room_action(c, action);
                assert(on_message(s0, c, m, d0, ls0) == (self@, outbox_view(r.0@), r.1));
                r
            },
            ClientMessage::Chat(text) => {
                let out = self.relay_chat(c, &text);
                assert(on_message(s0, c, m, d0, ls0) == (self@, outbox_view(out@), None::<u32>));
                (out, None)
            },
            _ => {
                assert(on_message(s0, c, m, d0, ls0) == (self@, outbox_view(empty@), None::<u32>));
                (empty, None)
            },
        }
    }
}

/// `ps` without the id `c`.
pub open spec fn without(ps: Seq<usize>, c: usize) -> Seq<usize>
    decreases ps.len(),
{
    if ps.len() == 0 {
        Seq::empty()
    } else if ps.last() == c {
        without(ps.drop_last(), c)
    } else {
        without(ps.drop_last(), c).push(ps.last())
    }
}

/// The table with the first player whose id is `c` folded and without chips.
pub open spec fn mark_gone(m: GameModel, c: usize) -> GameModel {
    match seat_of(m.players, c) {
        Some(j) => GameModel {
            players: m.players.update(j, PlayerModel { is_folded: true, chips: 0, ..m.players[j] }),
            ..m
        },
        None => m,
    }
}

/// A client leaving: it is forgotten and leaves its room. During a hand it folds (when it
/// is its turn) and its seat loses its chips, and the members see the table; otherwise
/// they see the waiting room. The room whose bots may then have to act comes last.
pub open spec fn disconnect_outcome(s: ServerModel, c: usize) -> (
    ServerModel,
    Seq<(usize, NoticeView)>,
    Option<u32>,
) {
    if !s.clients.contains_key(c) {
        (s, Seq::empty(), None)
    } else {
        let s0 = ServerModel { clients: s.clients.remove(c), ..s };
        match s.clients[c].room {
            None => (s0, Seq::empty(), None),
            Some(rid) => if s0.rooms.contains_key(rid) {
                let r = s0.rooms[rid];
                let r1 = RoomView { players: without(r.players, c), ..r };
                if is_active(r.state.phase) {
                    let (m1, res) = process(r.state, c, PlayerAction::Fold);
                    let s1 = put_room(s0, rid, RoomView { state: mark_gone(m1, c), ..r1 });
                    match res {
                        Ok(evs) => (s1, update_notices(s1, rid, evs), Some(rid)),
                        Err(_) => (s1, Seq::empty(), None),
                    }
                } else {
                    let s1 = put_room(s0, rid, r1);
                    (s1, room_notices(s1, rid), None)
                }
            } else {
                (s0, Seq::empty(), None)
            },
        }
    }
}

/// What a client leaving needs: when its room waits for a hand, the members who stay
/// are connected.
pub open spec fn disconnect_ok(s: ServerModel, c: usize) -> bool {
    match room_of(s, c) {
        Some(rid) => s.rooms.contains_key(rid) && !is_active(s.rooms[rid].state.phase)
            ==> forall|i: int|
            0 <= i < s.rooms[rid].players.len() && s.rooms[rid].players[i] != c
                ==> s.clients.contains_key(#[trigger] s.rooms[rid].players[i]),
        None => true,
    }
}

/// `ps` without the id `c`.
fn remove_id(ps: &Vec<usize>, c: usize) -> (r: Vec<usize>)
    ensures
        r@ == without(ps@, c),
        forall|i: int| 0 <= i < r@.len() ==> #[trigger] r@[i] != c && ps@.contains(r@[i]),
{
    let mut r: Vec<usize> = Vec::new();
    let mut i: usize = 0;
    while i < ps.len()
        invariant
            i <= ps@.len(),
            r@ == without(ps@.take(i as int), c),
            forall|k: int| 0 <= k < r@.len() ==> #[trigger] r@[k] != c && ps@.contains(r@[k]),
        decreases ps@.len() - i,
    {
        assert(ps@.take(i + 1).drop_last() =~= ps@.take(i as int));
        if ps[i] != c {
            r.push(ps[i]);
            assert(ps@.contains(ps@[i as int]));
        }
        i = i + 1;
    }
    assert(ps@.take(ps@.len() as int) =~= ps@);
    r
}

impl ServerState {
    /// Client `c` left: returns the messages to send and the room whose bots may have to
    /// act next.
    pub fn disconnect(&mut self, c: usize) -> (r: (Vec<(usize, ServerMessage)>, Option<u32>))
        requires
            server_wf(old(self)@),
            disconnect_ok(old(self)@, c),
        ensures
            (final(self)@, outbox_view(r.0@), r.1) == disconnect_outcome(old(self)@, c),
            server_wf(final(self)@),
    {
        let ghost s = self@;
        let empty: Vec<(usize, ServerMessage)> = Vec::new();
        assert(outbox_view(empty@) =~= Seq::<(usize, NoticeView)>::empty());
        let client = match self.clients.remove(&c) {
            Some(client) => client,
            None => {
                assert(self@ =~= s);
                return (empty, None);
            },
        };
        let ghost s0 = ServerModel { clients: s.clients.remove(c), ..s };
        assert(self@ =~= s0);
        let rid = match client.room_id {
            Some(rid) => rid,
            None => return (empty, None),
        };
        let mut room = match self.rooms.remove(&rid) {
            Some(room) => room,
            None => {
                assert(self@ =~= s0);
                return (empty, None);
            },
        };
        let ghost r = s0.rooms[rid];
        assert(room@ == r);
        room.players = remove_id(&room.players, c);
        let playing = room.state.phase != GamePhase::WaitingForPlayers && room.state.phase
            != GamePhase::Finished;
        if playing {
            let res = room.state.process_action(c, PlayerAction::Fold);
            let ghost m1 = room.state@;
            match crate::client::find_seat(&room.state.players, c) {
                Some(j) => {
                    proof {
                        crate::client::lemma_seat_from(m1.players, c, 0);
                        lemma_total_update(
                            m1.players,
                            j as int,
                            PlayerModel { is_folded: true, chips: 0, ..m1.players[j as int] },
                        );
                    }
                    let mut p = room.state.players[j].copy();
                    p.is_folded = true;
                    p.chips = 0;
                    room.state.players.set(j, p);
                    assert(room.state@ =~= mark_gone(m1, c));
                },
                None => {},
            }
            self.rooms.insert(rid, room);
            proof {
                assert(self@ =~= disconnect_outcome(s, c).0);
            }
            match res {
                Ok(events) => (self.broadcast_game_update(rid, &events), Some(rid)),
                Err(_) => (empty, None),
            }
        } else {
            self.rooms.insert(rid, room);
            proof {
                assert(self@ =~= disconnect_outcome(s, c).0);
                assert forall|i: int| 0 <= i < self@.rooms[rid].players.len() implies self@.clients.contains_key(
                    #[trigger] self@.rooms[rid].players[i],
                ) by {
                    let x = self@.rooms[rid].players[i];
                    let k = choose|k: int| 0 <= k < r.players.len() && r.players[k] == x;
                    assert(s.rooms[rid].players[k] == x);
                }
            }
            (self.broadcast_room_state(rid), None)
        }
    }
}

/// A bot must act in room `rid`: a hand is under way there and the seat to act is a bot's.
pub open spec fn bot_due(s: ServerModel, rid: u32) -> bool {
    &&& s.rooms.contains_key(rid)
    &&& is_active(s.rooms[rid].state.phase)
    &&& s.rooms[rid].state.players[s.rooms[rid].state.current_turn as int].id >= FIRST_BOT_ID
}

/// The players with chips still in the hand, other than `id`: a server bot's opponents.
pub open spec fn funded_opponents(ps: Seq<PlayerModel>, id: usize) -> nat
    decreases ps.len(),
{
    if ps.len() == 0 {
        0
    } else {
        funded_opponents(ps.drop_last(), id) + if ps.last().chips > 0 && !ps.last().is_folded
            && ps.last().id != id {
            1nat
        } else {
            0nat
        }
    }
}

/// What a bot to act knows: its id, its cards, the board, how many opponents it faces,
/// what it lacks to call, and its chips.
pub struct BotTurn {
    pub id: usize,
    pub hole_cards: Vec<Card>,
    pub community_cards: Vec<Card>,
    pub opponents: usize,
    pub to_call: u32,
    pub chips: u32,
}

/// A bot's bet at the server; when refused, a call (or a check with nothing to call),
/// then a fold, is tried in its place. Returns the table and the events of the bet that
/// went through (none when all three were refused).
pub open spec fn bot_act(m: GameModel, id: usize, a: PlayerAction, to_call: u32) -> (
    GameModel,
    Seq<EventView>,
) {
    let (m1, r1) = process(m, id, a);
    match r1 {
        Ok(evs) => (m1, evs),
        Err(_) => {
            let fallback = if to_call > 0 {
                PlayerAction::Call
            } else {
                PlayerAction::Check
            };
            let (m2, r2) = process(m1, id, fallback);
            match r2 {
                Ok(evs) => (m2, evs),
                Err(_) => {
                    let (m3, r3) = process(m2, id, PlayerAction::Fold);
                    match r3 {
                        Ok(evs) => (m3, evs),
                        Err(_) => (m3, Seq::empty()),
                    }
                },
            }
        },
    }
}

/// How much a bot at the server raises by: 150 when aggressive, else 50.
pub open spec fn server_raise_size(id: usize) -> u32 {
    if crate::local::aggressive(id) {
        150
    } else {
        50
    }
}

/// How much the bot `id` raises by at the server.
pub fn server_raise_size_of(id: usize) -> (r: u32)
    ensures
        r == server_raise_size(id),
{
    if crate::local::is_aggressive(id) {
        150
    } else {
        50
    }
}

/// A server bot's bet, given how its chances compare with its two thresholds.
pub fn server_bot_action(turn: &BotTurn, beats_raise: bool, beats_call: bool) -> (a: PlayerAction)
    requires
        turn.to_call + server_raise_size(turn.id) <= u32::MAX,
    ensures
        a == crate::local::bot_choice(
            turn.to_call,
            turn.chips,
            server_raise_size(turn.id),
            beats_raise,
            beats_call,
        ),
{
    let raise_amount = server_raise_size_of(turn.id);
    crate::local::choose_bot_action(turn.to_call, turn.chips, raise_amount, beats_raise, beats_call)
}

impl ServerState {
    /// The bot that must act in room `rid`, if any, and what it knows.
    pub fn bot_to_act(&self, rid: u32) -> (r: Option<BotTurn>)
        requires
            server_wf(self@),
        ensures
            r is Some <==> bot_due(self@, rid),
            r matches Some(t) ==> {
                let m = self@.rooms[rid].state;
                let me = m.players[m.current_turn as int];
                &&& t.id == me.id
                &&& t.hole_cards@ == me.hole_cards
                &&& t.community_cards@ == m.community
                &&& t.opponents == funded_opponents(m.players, me.id)
                &&& t.to_call == m.highest - me.current_bet
                &&& t.chips == me.chips
            },
    {
        let room = match self.rooms.get(&rid) {
            Some(room) => room,
            None => return None,
        };
        let ghost m = self@.rooms[rid].state;
        assert(self@.rooms.contains_key(rid));
        assert(room.state@ == m);
        if room.state.phase == GamePhase::WaitingForPlayers || room.state.phase
            == GamePhase::Finished {
            return None;
        }
        assert(well_formed(m));
        let me = &room.state.players[room.state.current_turn];
        assert(m.players[m.current_turn as int].current_bet <= m.highest);
        if me.id < FIRST_BOT_ID {
            return None;
        }
        let ghost ps = m.players;
        let mut count: usize = 0;
        let mut i: usize = 0;
        while i < room.state.players.len()
            invariant
                room.state@ == m,
                ps == m.players,
                i <= ps.len(),
                count == funded_opponents(ps.take(i as int), me.id),
                count <= i,
            decreases ps.len() - i,
        {
            assert(ps.take(i + 1).drop_last() =~= ps.take(i as int));
            let p = &room.state.players[i];
            if p.chips > 0 && !p.is_folded && p.id != me.id {
                count = count + 1;
            }
            i = i + 1;
        }
        assert(ps.take(ps.len() as int) =~= ps);
        Some(
            BotTurn {
                id: me.id,
                hole_cards: copy_cards(&me.hole_cards),
                community_cards: copy_cards(&room.state.community_cards),
                opponents: count,
                to_call: room.state.current_highest_bet - me.current_bet,
                chips: me.chips,
            },
        )
    }

    /// The bot to act in room `rid` bets `action` (or its fallbacks); returns the table
    /// for each member.
    pub fn play_bot_turn(&mut self, rid: u32, action: PlayerAction) -> (out: Vec<
        (usize, ServerMessage),
    >)
        requires
            server_wf(old(self)@),
            bot_due(old(self)@, rid),
        ensures
            ({
                let r = old(self)@.rooms[rid];
                let m = r.state;
                let me = m.players[m.current_turn as int];
                let (m1, evs) = bot_act(m, me.id, action, (m.highest - me.current_bet) as u32);
                &&& final(self)@ == put_room(old(self)@, rid, RoomView { state: m1, ..r })
                &&& outbox_view(out@) == update_notices(final(self)@, rid, evs)
            }),
            server_wf(final(self)@),
    {
        let ghost s0 = self@;
        let mut room = match self.rooms.remove(&rid) {
            Some(room) => room,
            None => return Vec::new(),
        };
        let ghost r = s0.rooms[rid];
        assert(room@ == r);
        let active_id = room.state.players[room.state.current_turn].id;
        let to_call = room.state.current_highest_bet - room.state.players[room.state.current_turn].current_bet;
        let events = match room.state.process_action(active_id, action) {
            Ok(e) => e,
            Err(_) => {
                let fallback = if to_call > 0 {
                    PlayerAction::Call
                } else {
                    PlayerAction::Check
                };
                match room.state.process_action(active_id, fallback) {
                    Ok(e) => e,
                    Err(_) => match room.state.process_action(active_id, PlayerAction::Fold) {
                        Ok(e) => e,
                        Err(_) => Vec::new(),
                    },
                }
            },
        };
        self.rooms.insert(rid, room);
        proof {
            let m = r.state;
            let me = m.players[m.current_turn as int];
            let (m1, evs) = bot_act(m, me.id, action, (m.highest - me.current_bet) as u32);
            assert(self@ =~= put_room(s0, rid, RoomView { state: m1, ..r }));
            assert(events_view(events@) =~= evs);
        }
        self.broadcast_game_update(rid, &events)
    }
}

/// The chips of a prefix never exceed the chips of all.
proof fn lemma_total_prefix(ps: Seq<PlayerModel>, i: int)
    requires
        0 <= i <= ps.len(),
    ensures
        0 <= total_chips(ps.take(i)) <= total_chips(ps),
    decreases ps.len(),
{
    crate::rules::lemma_total_nonneg(ps.take(i));
    if i < ps.len() {
        lemma_total_prefix(ps.drop_last(), i);
        assert(ps.drop_last().take(i) =~= ps.take(i));
    } else {
        assert(ps.take(i) =~= ps);
    }
}

/// The chips on a well-formed table.
fn table_chips_of(g: &GameState) -> (r: u64)
    requires
        well_formed(g@),
    ensures
        r == table_chips(g@),
{
    let ghost ps = g@.players;
    let mut total: u64 = 0;
    let mut i: usize = 0;
    while i < g.players.len()
        invariant
            well_formed(g@),
            ps == g@.players,
            i <= ps.len(),
            total == total_chips(ps.take(i as int)),
        decreases ps.len() - i,
    {
        assert(ps.take(i + 1).drop_last() =~= ps.take(i as int));
        proof {
            lemma_total_prefix(ps, i + 1);
        }
        total = total + g.players[i].chips as u64;
        i = i + 1;
    }
    assert(ps.take(ps.len() as int) =~= ps);
    if g.phase != GamePhase::WaitingForPlayers && g.phase != GamePhase::Finished {
        total + g.pot as u64
    } else {
        total
    }
}

impl ServerState {
    /// Whether every client of room `rid`, other than `except` when given, is connected.
    fn members_connected(&self, rid: u32, except: Option<usize>) -> (r: bool)
        ensures
            r == (self@.rooms.contains_key(rid) ==> forall|i: int|
                0 <= i < self@.rooms[rid].players.len() && Some(self@.rooms[rid].players[i]) != except
                    ==> self@.clients.contains_key(#[trigger] self@.rooms[rid].players[i])),
    {
        let room = match self.rooms.get(&rid) {
            Some(room) => room,
            None => return true,
        };
        let ghost r = self@.rooms[rid];
        assert(room@ == r);
        let mut i: usize = 0;
        while i < room.players.len()
            invariant
                room@ == r,
                self@.rooms.contains_key(rid),
                self@.rooms[rid] == r,
                i <= r.players.len(),
                forall|j: int|
                    0 <= j < i && Some(r.players[j]) != except ==> self@.clients.contains_key(
                        #[trigger] r.players[j],
                    ),
            decreases r.players.len() - i,
        {
            let pid = room.players[i];
            let skip = match except {
                Some(x) => x == pid,
                None => false,
            };
            if !skip && !self.clients.contains_key(&pid) {
                return false;
            }
            i = i + 1;
        }
        true
    }

    /// Whether the chips on room `rid`'s table, with its members seated, stay countable.
    fn seated_chips_fit(&self, rid: u32) -> (r: bool)
        requires
            server_wf(self@),
            self@.rooms.contains_key(rid),
            forall|i: int|
                0 <= i < self@.rooms[rid].players.len() ==> self@.clients.contains_key(
                    #[trigger] self@.rooms[rid].players[i],
                ),
        ensures
            r == (table_chips(seated_table(self@, self@.rooms[rid])) <= u32::MAX),
    {
        let room = match self.rooms.get(&rid) {
            Some(room) => room,
            None => return true,
        };
        let ghost r = self@.rooms[rid];
        assert(room@ == r);
        assert(well_formed(r.state));
        let ghost m0 = r.state;
        let ghost m1 = regrouped(m0);
        let mut seated: Vec<Player> = if room.state.phase == GamePhase::Finished {
            keep_funded(&room.state.players)
        } else {
            let mut v: Vec<Player> = Vec::new();
            let mut i: usize = 0;
            while i < room.state.players.len()
                invariant
                    room@ == r,
                    m0 == r.state,
                    i <= m0.players.len(),
                    players_view(v@) == m0.players.take(i as int),
                decreases m0.players.len() - i,
            {
                let p = room.state.players[i].copy();
                proof {
                    lemma_view_push(v@, p);
                }
                v.push(p);
                i = i + 1;
                assert(players_view(v@) =~= m0.players.take(i as int));
            }
            assert(m0.players.take(m0.players.len() as int) =~= m0.players);
            v
        };
        proof {
            lemma_with_chips_total(m0.players);
        }
        assert(players_view(seated@) == m1.players);
        let mut total: u64 = table_chips_of(&room.state);
        assert(total == table_chips(m1));
        let ghost nv = member_names(self@, r);
        let mut k: usize = 0;
        assert(nv.take(0) =~= Seq::<(usize, Seq<char>)>::empty());
        while k < room.players.len()
            invariant
                room@ == r,
                self@.rooms.contains_key(rid),
                self@.rooms[rid] == r,
                forall|i: int| 0 <= i < r.players.len() ==> self@.clients.contains_key(#[trigger] r.players[i]),
                nv == member_names(self@, r),
                m1 == regrouped(r.state),
                nv.len() == r.players.len(),
                k <= nv.len(),
                players_view(seated@) == seat_newcomers(m1.players, nv.take(k as int)),
                total == table_chips(GameModel { players: seat_newcomers(m1.players, nv.take(k as int)), ..m1 }),
                total <= u32::MAX,
            decreases nv.len() - k,
        {
            let pid = room.players[k];
            assert(nv.take(k + 1).drop_last() =~= nv.take(k as int));
            assert(self@.clients.contains_key(r.players[k as int]));
            if !has_player(&seated, pid) {
                let name = match self.clients.get(&pid) {
                    Some(cl) => cl.name.clone(),
                    None => String::new(),
                };
                let p = Player::new(pid, name, STARTING_CHIPS);
                proof {
                    let prev = seat_newcomers(m1.players, nv.take(k as int));
                    let fresh = fresh_player(pid, nv[k as int].1, STARTING_CHIPS);
                    assert(nv.take(k + 1).last() == nv[k as int]);
                    assert(seat_newcomers(m1.players, nv.take(k + 1)) == prev.push(fresh));
                    assert(prev.push(fresh).drop_last() =~= prev);
                    assert(p@ == fresh);
                    lemma_view_push(seated@, p);
                }
                seated.push(p);
                total = total + STARTING_CHIPS as u64;
                if total > u32::MAX as u64 {
                    proof {
                        lemma_seat_grows(m1.players, nv, k + 1);
                        assert(total == table_chips(
                            GameModel { players: seat_newcomers(m1.players, nv.take(k + 1)), ..m1 },
                        ));
                        assert(seated_table(self@, r) == GameModel {
                            players: seat_newcomers(m1.players, nv),
                            ..m1
                        });
                    }
                    return false;
                }
            }
            k = k + 1;
        }
        assert(nv.take(nv.len() as int) =~= nv);
        true
    }
}

impl ServerState {
    /// Whether answering `msg` from client `c` cannot fail.
    pub fn message_ok_now(&self, c: usize, msg: &ClientMessage) -> (r: bool)
        requires
            server_wf(self@),
        ensures
            r == message_ok(self@, c, msg@),
    {
        match msg {
            ClientMessage::CreateRoom { .. } => self.next_room_id < u32::MAX
                && self.clients.contains_key(&c),
            ClientMessage::JoinRoom { room_id } => {
                let rid = *room_id;
                let open = match self.rooms.get(&rid) {
                    Some(room) => room.players.len() < ROOM_CAPACITY,
                    None => false,
                };
                !open || (self.clients.contains_key(&c) && self.members_connected(rid, None))
            },
            ClientMessage::AddBot => match self.room_of_client(c) {
                Some(rid) => match self.rooms.get(&rid) {
                    Some(room) => {
                        assert(self@.rooms.contains_key(rid));
                        if room.host_id != c {
                            true
                        } else {
                            self.members_connected(rid, None) && room.state.players.len()
                                <= usize::MAX - FIRST_BOT_ID && table_chips_of(&room.state)
                                + STARTING_CHIPS as u64 <= u32::MAX as u64
                        }
                    },
                    None => false,
                },
                None => true,
            },
            ClientMessage::StartGame => match self.room_of_client(c) {
                Some(rid) => match self.rooms.get(&rid) {
                    Some(room) => {
                        if room.host_id != c {
                            true
                        } else {
                            self.members_connected(rid, None) && self.seated_chips_fit(rid)
                        }
                    },
                    None => false,
                },
                None => true,
            },
            ClientMessage::Action(_) => match self.room_of_client(c) {
                Some(rid) => self.rooms.contains_key(&rid),
                None => true,
            },
            _ => true,
        }
    }

    /// Whether client `c` leaving cannot fail.
    pub fn disconnect_ok_now(&self, c: usize) -> (r: bool)
        ensures
            r == disconnect_ok(self@, c),
    {
        match self.room_of_client(c) {
            Some(rid) => match self.rooms.get(&rid) {
                Some(room) => {
                    if room.state.phase != GamePhase::WaitingForPlayers && room.state.phase
                        != GamePhase::Finished {
                        true
                    } else {
                        self.members_connected(rid, Some(c))
                    }
                },
                None => true,
            },
            None => true,
        }
    }
}

} // verus!

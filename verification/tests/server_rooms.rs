use engine::event::{GamePhase, PlayerAction};
use engine::net_messages::{ClientMessage, ServerMessage};
use engine::server::{server_bot_action, server_raise_size_of, BotTurn, ServerState};

fn join(server: &mut ServerState, name: &str) -> usize {
    let id = server.connect();
    let (out, due) = server.process_message(id, ClientMessage::JoinServer { name: name.to_string() });
    assert!(due.is_none());
    assert!(matches!(out[0], (to, ServerMessage::Welcome { player_id }) if to == id && player_id == id));
    id
}

fn error_text(msg: &ServerMessage) -> &str {
    match msg {
        ServerMessage::Error(e) => e.as_str(),
        _ => panic!("expected an error"),
    }
}

fn roster(msg: &ServerMessage) -> (Vec<String>, bool) {
    match msg {
        ServerMessage::RoomState { players, is_host, .. } => (players.clone(), *is_host),
        _ => panic!("expected a waiting room"),
    }
}

#[test]
fn clients_get_guest_names_and_unique_names() {
    let mut server = ServerState::new();
    let a = server.connect();
    let b = server.connect();
    assert_eq!((a, b), (1, 2));
    assert_eq!(server.clients.get(&a).unwrap().name, "Guest1");
    let (out, _) = server.process_message(a, ClientMessage::JoinServer { name: "Ana".to_string() });
    assert_eq!(out.len(), 2);
    assert!(matches!(&out[1], (1, ServerMessage::LobbyState { rooms }) if rooms.is_empty()));
    assert_eq!(server.clients.get(&a).unwrap().name, "Ana");
    let (out, _) = server.process_message(b, ClientMessage::JoinServer { name: "Ana".to_string() });
    assert_eq!(out.len(), 1);
    assert_eq!(out[0].0, b);
    assert_eq!(error_text(&out[0].1), "Nome já está em uso.");
    assert_eq!(server.clients.get(&b).unwrap().name, "Guest2");
    let (out, _) = server.process_message(a, ClientMessage::JoinServer { name: "Ana".to_string() });
    assert_eq!(error_text(&out[0].1), "Nome já está em uso.");
}

#[test]
fn rooms_are_created_listed_and_joined() {
    let mut server = ServerState::new();
    let ana = join(&mut server, "Ana");
    let (out, _) = server.process_message(ana, ClientMessage::CreateRoom { room_name: "Mesa".to_string() });
    assert_eq!(out.len(), 1);
    assert_eq!(out[0].0, ana);
    assert_eq!(roster(&out[0].1), (vec!["Ana".to_string()], true));
    assert_eq!(server.clients.get(&ana).unwrap().room_id, Some(1));
    assert_eq!(server.next_room_id, 2);

    let bob = server.connect();
    let (out, _) = server.process_message(bob, ClientMessage::JoinServer { name: "Bob".to_string() });
    match &out[1].1 {
        ServerMessage::LobbyState { rooms } => {
            assert_eq!(rooms.len(), 1);
            assert_eq!(rooms[0].id, 1);
            assert_eq!(rooms[0].name, "Mesa");
            assert_eq!(rooms[0].player_count, 1);
            assert_eq!(rooms[0].max_players, 8);
            assert!(!rooms[0].has_started);
        }
        _ => panic!("expected the lobby"),
    }
    let (out, _) = server.process_message(bob, ClientMessage::JoinRoom { room_id: 1 });
    assert_eq!(out.len(), 2);
    assert_eq!(out[0].0, ana);
    assert_eq!(out[1].0, bob);
    assert_eq!(roster(&out[0].1), (vec!["Ana".to_string(), "Bob".to_string()], true));
    assert_eq!(roster(&out[1].1), (vec!["Ana".to_string(), "Bob".to_string()], false));
    let (out, _) = server.process_message(bob, ClientMessage::JoinRoom { room_id: 9 });
    assert_eq!(error_text(&out[0].1), "Sala não encontrada.");
}

#[test]
fn a_room_holds_eight() {
    let mut server = ServerState::new();
    let host = join(&mut server, "P0");
    server.process_message(host, ClientMessage::CreateRoom { room_name: "Cheia".to_string() });
    for i in 1..8 {
        let id = join(&mut server, &format!("P{}", i));
        let (out, _) = server.process_message(id, ClientMessage::JoinRoom { room_id: 1 });
        assert_eq!(out.len(), i + 1);
    }
    let late = join(&mut server, "P8");
    let (out, _) = server.process_message(late, ClientMessage::JoinRoom { room_id: 1 });
    assert_eq!(out.len(), 1);
    assert_eq!(error_text(&out[0].1), "Sala cheia.");
    assert_eq!(server.rooms.get(&1).unwrap().players.len(), 8);
}

#[test]
fn only_the_host_adds_bots_and_starts() {
    let mut server = ServerState::new();
    let ana = join(&mut server, "Ana");
    server.process_message(ana, ClientMessage::CreateRoom { room_name: "Mesa".to_string() });
    let bob = join(&mut server, "Bob");
    server.process_message(bob, ClientMessage::JoinRoom { room_id: 1 });
    let (out, _) = server.process_message(bob, ClientMessage::AddBot);
    assert!(out.is_empty());
    let (out, _) = server.process_message(ana, ClientMessage::AddBot);
    assert_eq!(out.len(), 2);
    assert_eq!(
        roster(&out[0].1).0,
        vec!["Ana".to_string(), "Bob".to_string(), "Bot Alice".to_string()]
    );
    let (out, _) = server.process_message(ana, ClientMessage::AddBot);
    assert_eq!(roster(&out[1].1).0[3], "Bot Bob");
    let bots: Vec<usize> = server.rooms.get(&1).unwrap().state.players.iter().map(|p| p.id).collect();
    assert_eq!(bots, vec![1000, 1001]);
    assert!(server.rooms.get(&1).unwrap().state.players.iter().all(|p| p.chips == 10000));
    let (out, due) = server.process_message(bob, ClientMessage::StartGame);
    assert!(out.is_empty() && due.is_none());
    let (out, due) = server.process_message(ana, ClientMessage::StartGame);
    assert_eq!(due, Some(1));
    assert_eq!(out.len(), 2);
    for (i, (to, msg)) in out.iter().enumerate() {
        assert_eq!(*to, [ana, bob][i]);
        match msg {
            ServerMessage::GameUpdate { state, your_id, .. } => {
                assert_eq!(*your_id, *to);
                assert_eq!(state.phase, GamePhase::PreFlop);
                assert_eq!(state.players.len(), 4);
                assert_eq!(state.players[2].id, ana);
                assert_eq!(state.players[3].id, bob);
                // Muck: each client sees only its own cards, and no deck.
                for p in &state.players {
                    assert_eq!(p.hole_cards.len(), if p.id == *to { 2 } else { 0 });
                }
                assert_eq!(state.deck.remaining_cards(), 0);
            }
            _ => panic!("expected the table"),
        }
    }
    assert_eq!(server.rooms.get(&1).unwrap().state.phase, GamePhase::PreFlop);
}

#[test]
fn a_host_alone_cannot_start() {
    let mut server = ServerState::new();
    let ana = join(&mut server, "Ana");
    server.process_message(ana, ClientMessage::CreateRoom { room_name: "Só".to_string() });
    let (out, due) = server.process_message(ana, ClientMessage::StartGame);
    assert!(due.is_none());
    assert_eq!(out.len(), 1);
    assert_eq!(error_text(&out[0].1), "Not enough players with chips to start.");
    assert_eq!(server.rooms.get(&1).unwrap().state.players.len(), 1);
}

#[test]
fn bets_are_answered_or_refused() {
    let mut server = ServerState::new();
    let ana = join(&mut server, "Ana");
    server.process_message(ana, ClientMessage::CreateRoom { room_name: "Mesa".to_string() });
    let bob = join(&mut server, "Bob");
    server.process_message(bob, ClientMessage::JoinRoom { room_id: 1 });
    let (_, due) = server.process_message(ana, ClientMessage::StartGame);
    assert_eq!(due, Some(1));
    let turn = server.rooms.get(&1).unwrap().state.current_turn;
    let to_act = server.rooms.get(&1).unwrap().state.players[turn].id;
    let waiting = if to_act == ana { bob } else { ana };
    let (out, due) = server.process_message(waiting, ClientMessage::Action(PlayerAction::Call));
    assert!(due.is_none());
    assert_eq!(out.len(), 1);
    assert_eq!(out[0].0, waiting);
    assert_eq!(error_text(&out[0].1), "It is not this player's turn.");
    let (out, due) = server.process_message(to_act, ClientMessage::Action(PlayerAction::Call));
    assert_eq!(due, Some(1));
    assert_eq!(out.len(), 2);
    assert!(server.bot_to_act(1).is_none());
    let (out, due) = server.process_message(ana, ClientMessage::ToggleReady);
    assert!(out.is_empty() && due.is_none());
}

#[test]
fn bots_act_with_fallbacks() {
    let mut server = ServerState::new();
    let ana = join(&mut server, "Ana");
    server.process_message(ana, ClientMessage::CreateRoom { room_name: "Mesa".to_string() });
    server.process_message(ana, ClientMessage::AddBot);
    let (_, due) = server.process_message(ana, ClientMessage::StartGame);
    assert_eq!(due, Some(1));
    let state = &server.rooms.get(&1).unwrap().state;
    let actor = state.players[state.current_turn].id;
    if actor == ana {
        let (_, due) = server.process_message(ana, ClientMessage::Action(PlayerAction::Call));
        assert_eq!(due, Some(1));
    }
    let turn: BotTurn = server.bot_to_act(1).expect("the bot acts");
    assert_eq!(turn.id, 1000);
    assert_eq!(turn.hole_cards.len(), 2);
    assert_eq!(turn.opponents, 1);
    let before = server.rooms.get(&1).unwrap().state.current_highest_bet;
    // A check facing a bet is refused, so the bot calls instead; with nothing to call,
    // the check goes through.
    let out = server.play_bot_turn(1, PlayerAction::Check);
    assert_eq!(out.len(), 1);
    let bot = server.rooms.get(&1).unwrap().state.players.iter().find(|p| p.id == 1000).unwrap().clone();
    assert!(!bot.is_folded);
    assert!(bot.current_bet == before || server.rooms.get(&1).unwrap().state.phase != GamePhase::PreFlop);
    assert_eq!(
        server_bot_action(&turn, true, true),
        if turn.chips >= turn.to_call + 150 { PlayerAction::Raise(150) } else if turn.to_call == 0 { PlayerAction::Check } else { PlayerAction::Call }
    );
}

#[test]
fn leaving_clients_leave_their_rooms() {
    let mut server = ServerState::new();
    let ana = join(&mut server, "Ana");
    server.process_message(ana, ClientMessage::CreateRoom { room_name: "Mesa".to_string() });
    let bob = join(&mut server, "Bob");
    server.process_message(bob, ClientMessage::JoinRoom { room_id: 1 });
    let (out, due) = server.disconnect(bob);
    assert!(due.is_none());
    assert_eq!(out.len(), 1);
    assert_eq!(out[0].0, ana);
    assert_eq!(roster(&out[0].1), (vec!["Ana".to_string()], true));
    assert!(server.clients.get(&bob).is_none());
    let (out, due) = server.disconnect(bob);
    assert!(out.is_empty() && due.is_none());
}

#[test]
fn leaving_during_a_hand_folds_and_empties_the_seat() {
    let mut server = ServerState::new();
    let ana = join(&mut server, "Ana");
    server.process_message(ana, ClientMessage::CreateRoom { room_name: "Mesa".to_string() });
    let bob = join(&mut server, "Bob");
    server.process_message(bob, ClientMessage::JoinRoom { room_id: 1 });
    let cid = join(&mut server, "Cid");
    server.process_message(cid, ClientMessage::JoinRoom { room_id: 1 });
    server.process_message(ana, ClientMessage::StartGame);
    let state = &server.rooms.get(&1).unwrap().state;
    let actor = state.players[state.current_turn].id;
    let (out, _) = server.disconnect(actor);
    assert_eq!(out.len(), 2);
    let room = server.rooms.get(&1).unwrap();
    assert!(!room.players.contains(&actor));
    let seat = room.state.players.iter().find(|p| p.id == actor).unwrap();
    assert!(seat.is_folded);
    assert_eq!(seat.chips, 0);
}

#[test]
fn preconditions_are_checked_before_answering() {
    let mut server = ServerState::new();
    let ana = join(&mut server, "Ana");
    assert!(server.message_ok_now(ana, &ClientMessage::JoinServer { name: "x".to_string() }));
    assert!(server.message_ok_now(ana, &ClientMessage::CreateRoom { room_name: "M".to_string() }));
    assert!(!server.message_ok_now(77, &ClientMessage::CreateRoom { room_name: "M".to_string() }));
    assert!(server.message_ok_now(ana, &ClientMessage::AddBot));
    assert!(server.message_ok_now(ana, &ClientMessage::StartGame));
    assert!(server.message_ok_now(ana, &ClientMessage::JoinRoom { room_id: 5 }));
    server.process_message(ana, ClientMessage::CreateRoom { room_name: "M".to_string() });
    assert!(server.message_ok_now(ana, &ClientMessage::AddBot));
    assert!(server.message_ok_now(ana, &ClientMessage::StartGame));
    assert!(!server.message_ok_now(77, &ClientMessage::JoinRoom { room_id: 1 }));
    assert!(server.disconnect_ok_now(ana));
    assert_eq!(server_raise_size_of(1000), 150);
    assert_eq!(server_raise_size_of(1001), 50);
}

#[test]
fn chat_lines_reach_the_room() {
    let mut server = ServerState::new();
    let ana = join(&mut server, "Ana");
    let (out, _) = server.process_message(ana, ClientMessage::Chat("oi".to_string()));
    assert!(out.is_empty());
    server.process_message(ana, ClientMessage::CreateRoom { room_name: "Mesa".to_string() });
    let bob = join(&mut server, "Bob");
    server.process_message(bob, ClientMessage::JoinRoom { room_id: 1 });
    let (out, due) = server.process_message(bob, ClientMessage::Chat("boa sorte".to_string()));
    assert!(due.is_none());
    assert_eq!(out.len(), 2);
    for (i, (to, msg)) in out.iter().enumerate() {
        assert_eq!(*to, [ana, bob][i]);
        match msg {
            ServerMessage::Chat { sender, message } => {
                assert_eq!(sender, "Bob");
                assert_eq!(message, "boa sorte");
            }
            _ => panic!("expected a chat line"),
        }
    }
    let (out, _) = server.process_message(ana, ClientMessage::Kick("Bob".to_string()));
    assert!(out.is_empty());
}

fn two_player_room() -> (ServerState, usize, usize) {
    let mut server = ServerState::new();
    let ana = join(&mut server, "Ana");
    server.process_message(ana, ClientMessage::CreateRoom { room_name: "Mesa".to_string() });
    let bob = join(&mut server, "Bob");
    server.process_message(bob, ClientMessage::JoinRoom { room_id: 1 });
    (server, ana, bob)
}

fn player_to_act(server: &ServerState) -> usize {
    let state = &server.rooms.get(&1).unwrap().state;
    state.players[state.current_turn].id
}

#[test]
fn room_blinds_open_at_100_200_and_double_every_five_hands() {
    let (mut server, ana, _bob) = two_player_room();
    let mut big_blinds = Vec::new();
    for hand in 0..11 {
        server.process_message(ana, ClientMessage::StartGame);
        let room = server.rooms.get(&1).unwrap();
        assert_eq!(room.hands_played, hand + 1);
        assert_eq!(room.state.phase, GamePhase::PreFlop);
        big_blinds.push(room.state.big_blind);
        if hand == 0 {
            assert_eq!(room.state.small_blind, 100);
            assert_eq!(room.state.pot, 300);
        }
        let actor = player_to_act(&server);
        server.process_message(actor, ClientMessage::Action(PlayerAction::Fold));
        assert_eq!(server.rooms.get(&1).unwrap().state.phase, GamePhase::Finished);
    }
    assert_eq!(big_blinds, vec![200, 200, 200, 200, 200, 400, 400, 400, 400, 400, 800]);
}

#[test]
fn a_pot_left_by_a_departed_player_is_still_won() {
    let (mut server, ana, bob) = two_player_room();
    server.process_message(ana, ClientMessage::StartGame);
    let actor = player_to_act(&server);
    let gone = if actor == ana { bob } else { ana };
    let (seats_before, pot) = {
        let state = &server.rooms.get(&1).unwrap().state;
        let stay = state.players.iter().find(|p| p.id == actor).unwrap().chips;
        (stay, state.pot)
    };
    server.disconnect(gone);
    server.process_message(actor, ClientMessage::Action(PlayerAction::Fold));
    let state = &server.rooms.get(&1).unwrap().state;
    assert_eq!(state.phase, GamePhase::Finished);
    assert_eq!(state.players.iter().find(|p| p.id == actor).unwrap().chips, seats_before + pot);
}

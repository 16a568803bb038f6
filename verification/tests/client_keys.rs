use engine::app::{App, AppMode};
use engine::client::{find_seat, ClientStep, Key};
use engine::event::{GameEvent, GamePhase, PlayerAction};
use engine::i18n::{I18n, Language};
use engine::net_messages::{ClientMessage, RoomInfo, ServerMessage};
use engine::player::Player;
use engine::state::GameState;

fn type_line(app: &mut App, text: &str) {
    for c in text.chars() {
        assert!(matches!(app.handle_key(Key::Char(c)), ClientStep::Stay));
    }
}

fn submit(app: &mut App, text: &str) -> ClientStep {
    type_line(app, text);
    app.handle_key(Key::Enter)
}

fn chat(app: &mut App, text: &str) -> ClientStep {
    app.is_typing_chat = true;
    submit(app, text)
}

/// A table in the middle of a hand where player 7 is to act, facing a bet of 40.
fn table_with_my_turn() -> GameState {
    let mut game = GameState::new();
    let mut me = Player::new(7, "Me".to_string(), 500);
    me.current_bet = 10;
    let mut other = Player::new(8, "Other".to_string(), 500);
    other.current_bet = 50;
    game.players.push(other);
    game.players.push(me);
    game.phase = GamePhase::Flop;
    game.current_turn = 1;
    game.current_highest_bet = 50;
    game.min_raise = 20;
    game
}

#[test]
fn name_is_trimmed_and_sent() {
    let mut app = App::new();
    match submit(&mut app, "  Ana  ") {
        ClientStep::Send(ClientMessage::JoinServer { name }) => assert_eq!(name, "Ana"),
        _ => panic!("expected a join"),
    }
    assert_eq!(app.main_input, "");
    assert!(app.mode == AppMode::NameInput);
}

#[test]
fn lobby_choices() {
    let mut app = App::new();
    app.mode = AppMode::Lobby;
    assert!(matches!(submit(&mut app, "1"), ClientStep::Stay));
    assert!(app.mode == AppMode::RoomCreating);
    match submit(&mut app, " Mesa ") {
        ClientStep::Send(ClientMessage::CreateRoom { room_name }) => assert_eq!(room_name, "Mesa"),
        _ => panic!("expected a room"),
    }
    app.mode = AppMode::Lobby;
    assert!(matches!(submit(&mut app, "2"), ClientStep::Stay));
    assert!(app.mode == AppMode::RoomJoining);
    assert!(matches!(
        submit(&mut app, "42"),
        ClientStep::Send(ClientMessage::JoinRoom { room_id: 42 })
    ));
    assert!(matches!(submit(&mut app, "+7"), ClientStep::Send(ClientMessage::JoinRoom { room_id: 7 })));
    assert!(matches!(submit(&mut app, "sete"), ClientStep::Stay));
    assert!(matches!(submit(&mut app, "4294967296"), ClientStep::Stay));
    assert!(matches!(submit(&mut app, ""), ClientStep::Stay));
}

#[test]
fn waiting_room_choices() {
    let mut app = App::new();
    app.mode = AppMode::RoomHost;
    assert!(matches!(submit(&mut app, "s"), ClientStep::Send(ClientMessage::StartGame)));
    assert!(matches!(submit(&mut app, "b"), ClientStep::Send(ClientMessage::AddBot)));
    assert!(matches!(submit(&mut app, "r"), ClientStep::Send(ClientMessage::ToggleReady)));
    app.mode = AppMode::RoomGuest;
    assert!(matches!(submit(&mut app, "s"), ClientStep::Stay));
    assert!(matches!(submit(&mut app, "b"), ClientStep::Stay));
    assert!(matches!(submit(&mut app, "r"), ClientStep::Send(ClientMessage::ToggleReady)));
}

#[test]
fn chat_lines_and_commands() {
    let mut app = App::new();
    match chat(&mut app, "olá mesa") {
        ClientStep::Send(ClientMessage::Chat(text)) => assert_eq!(text, "olá mesa"),
        _ => panic!("expected a chat line"),
    }
    assert_eq!(app.chat_input, "");
    assert!(matches!(chat(&mut app, ""), ClientStep::Stay));
    assert!(matches!(chat(&mut app, "/quit"), ClientStep::Quit));
    assert!(matches!(chat(&mut app, "//  sair agora"), ClientStep::Quit));
    assert!(matches!(chat(&mut app, "/leave"), ClientStep::Quit));
    assert!(matches!(chat(&mut app, "/help"), ClientStep::Stay));
    assert_eq!(
        app.chat_messages.last().unwrap(),
        "[Sistema] Comandos disponíveis: /quit (Sair), /kick <nome>"
    );
    match chat(&mut app, "/kick  Bob   Lee ") {
        ClientStep::Send(ClientMessage::Kick(target)) => assert_eq!(target, "Bob Lee"),
        _ => panic!("expected a kick"),
    }
    assert!(matches!(chat(&mut app, "/kick"), ClientStep::Stay));
    assert_eq!(app.chat_messages.last().unwrap(), "[Sistema] Uso: /kick <nome_do_jogador>");
    assert!(matches!(chat(&mut app, "/dance now"), ClientStep::Stay));
    assert_eq!(
        app.chat_messages.last().unwrap(),
        "[Sistema] Comando desconhecido: /dance now"
    );
    assert!(matches!(chat(&mut app, "/"), ClientStep::Stay));
    assert_eq!(app.chat_messages.last().unwrap(), "[Sistema] Comando desconhecido: /");
    assert_eq!(app.chat_messages.len(), 4);
}

#[test]
fn keys_that_steer() {
    let mut app = App::new();
    assert!(matches!(app.handle_key(Key::Tab), ClientStep::Stay));
    assert!(app.is_typing_chat);
    type_line(&mut app, "ab");
    assert!(matches!(app.handle_key(Key::Backspace), ClientStep::Stay));
    assert_eq!(app.chat_input, "a");
    assert!(matches!(app.handle_key(Key::Esc), ClientStep::Stay));
    assert!(!app.is_typing_chat);
    assert!(matches!(app.handle_key(Key::Other), ClientStep::Stay));
    assert!(matches!(app.handle_key(Key::Esc), ClientStep::Quit));
    app.is_typing_chat = true;
    assert!(matches!(app.handle_key(Key::CtrlC), ClientStep::Quit));
    assert!(app.is_typing_chat);
}

#[test]
fn bets_on_my_turn() {
    let mut app = App::new();
    app.my_id = 7;
    app.mode = AppMode::GamePlay;
    app.game_state = Some(table_with_my_turn());
    assert!(matches!(submit(&mut app, "1"), ClientStep::Send(ClientMessage::Action(PlayerAction::Fold))));
    assert!(matches!(submit(&mut app, "2"), ClientStep::Send(ClientMessage::Action(PlayerAction::Call))));
    assert!(matches!(
        submit(&mut app, " ALL "),
        ClientStep::Send(ClientMessage::Action(PlayerAction::Raise(460)))
    ));
    assert!(matches!(
        submit(&mut app, "Min"),
        ClientStep::Send(ClientMessage::Action(PlayerAction::Raise(20)))
    ));
    assert!(matches!(submit(&mut app, "9"), ClientStep::Stay));
    assert!(app.mode == AppMode::GamePlay);
    assert!(matches!(submit(&mut app, "3"), ClientStep::Stay));
    assert!(app.mode == AppMode::GamePlayRaising);
    assert!(matches!(
        submit(&mut app, "120"),
        ClientStep::Send(ClientMessage::Action(PlayerAction::Raise(120)))
    ));
    assert!(app.mode == AppMode::GamePlay);
    app.mode = AppMode::GamePlayRaising;
    assert!(matches!(
        submit(&mut app, "All"),
        ClientStep::Send(ClientMessage::Action(PlayerAction::Raise(460)))
    ));
    app.mode = AppMode::GamePlayRaising;
    assert!(matches!(submit(&mut app, "lots"), ClientStep::Stay));
    assert!(app.mode == AppMode::GamePlay);
}

#[test]
fn check_when_nothing_to_call_and_waiting_otherwise() {
    let mut app = App::new();
    app.my_id = 7;
    app.mode = AppMode::GamePlay;
    let mut game = table_with_my_turn();
    game.players[1].current_bet = 50;
    app.game_state = Some(game);
    assert!(matches!(submit(&mut app, "2"), ClientStep::Send(ClientMessage::Action(PlayerAction::Check))));
    let mut game = table_with_my_turn();
    game.current_turn = 0;
    app.game_state = Some(game);
    assert!(matches!(submit(&mut app, "1"), ClientStep::Stay));
    let mut game = table_with_my_turn();
    game.phase = GamePhase::Finished;
    app.game_state = Some(game.clone());
    assert!(matches!(submit(&mut app, "1"), ClientStep::Stay));
    app.is_host = true;
    assert!(matches!(submit(&mut app, "anything"), ClientStep::Send(ClientMessage::StartGame)));
    app.game_state = None;
    assert!(matches!(submit(&mut app, "1"), ClientStep::Stay));
}

#[test]
fn server_messages_steer_the_screen() {
    let en = I18n::new(Language::English);
    let mut app = App::new();
    app.handle_server_message(ServerMessage::Welcome { player_id: 3 }, &en);
    assert_eq!(app.my_id, 3);
    assert!(app.mode == AppMode::Lobby);
    let room = RoomInfo {
        id: 1,
        name: "Mesa".to_string(),
        player_count: 2,
        max_players: 8,
        has_started: false,
    };
    app.handle_server_message(ServerMessage::LobbyState { rooms: vec![room] }, &en);
    assert_eq!(app.rooms.len(), 1);
    app.mode = AppMode::RoomJoining;
    app.handle_server_message(ServerMessage::Error("Sala cheia.".to_string()), &en);
    assert!(app.mode == AppMode::Lobby);
    assert_eq!(app.connection_error.as_deref(), Some("Sala cheia."));
    app.handle_server_message(
        ServerMessage::RoomState { room_id: 1, players: vec!["Ana".to_string()], is_host: true },
        &en,
    );
    assert!(app.mode == AppMode::RoomHost);
    assert!(app.is_host);
    assert_eq!(app.room_players, vec!["Ana".to_string()]);
    app.handle_server_message(
        ServerMessage::Chat { sender: "Ana".to_string(), message: "oi".to_string() },
        &en,
    );
    assert_eq!(app.chat_messages, vec!["Ana: oi".to_string()]);
    let mut game = GameState::new();
    let mut me = Player::new(3, "Me".to_string(), 0);
    me.is_folded = true;
    game.players.push(me);
    app.handle_server_message(
        ServerMessage::GameUpdate { state: game, events: vec![GameEvent::GameStarted], your_id: 3 },
        &en,
    );
    assert!(app.mode == AppMode::GamePlay);
    assert!(app.is_typing_chat);
    assert_eq!(app.action_log, vec!["The dealer is dealing hole cards...".to_string()]);
    assert!(app.game_state.is_some());
    app.handle_server_message(
        ServerMessage::Error("Você foi removido da sala pelo Host.".to_string()),
        &en,
    );
    assert!(app.mode == AppMode::Lobby);
    assert!(app.game_state.is_none());
}

#[test]
fn seats_are_found_by_id() {
    let players = vec![
        Player::new(4, "A".to_string(), 10),
        Player::new(9, "B".to_string(), 10),
        Player::new(9, "C".to_string(), 10),
    ];
    assert_eq!(find_seat(&players, 9), Some(1));
    assert_eq!(find_seat(&players, 4), Some(0));
    assert_eq!(find_seat(&players, 5), None);
}

#[test]
fn readiness_of_the_table_for_input() {
    let mut app = App::new();
    app.my_id = 7;
    app.mode = AppMode::GamePlay;
    app.game_state = Some(table_with_my_turn());
    assert!(app.input_ready_now());
    let mut odd = table_with_my_turn();
    odd.current_turn = 5;
    app.game_state = Some(odd);
    assert!(!app.input_ready_now());
    let mut over = table_with_my_turn();
    over.players[1].current_bet = 60;
    app.game_state = Some(over.clone());
    assert!(!app.input_ready_now());
    app.mode = AppMode::Lobby;
    assert!(app.input_ready_now());
    app.mode = AppMode::GamePlayRaising;
    assert!(!app.input_ready_now());
}

#[test]
fn chat_through_the_c_command() {
    let mut app = App::new();
    match chat(&mut app, "/c  boa   sorte ") {
        ClientStep::Send(ClientMessage::Chat(text)) => assert_eq!(text, "boa sorte"),
        _ => panic!("expected a chat line"),
    }
    assert!(matches!(chat(&mut app, "/c"), ClientStep::Stay));
    assert!(app.chat_messages.is_empty());
}

#[test]
fn minimum_raise_at_the_raise_prompt() {
    let mut app = App::new();
    app.my_id = 7;
    app.mode = AppMode::GamePlayRaising;
    app.game_state = Some(table_with_my_turn());
    assert!(matches!(
        submit(&mut app, "MIN"),
        ClientStep::Send(ClientMessage::Action(PlayerAction::Raise(20)))
    ));
    assert!(app.mode == AppMode::GamePlay);
}

#[test]
fn c_command_from_the_main_input() {
    let mut app = App::new();
    app.mode = AppMode::Lobby;
    match submit(&mut app, " /c hello ") {
        ClientStep::Send(ClientMessage::Chat(text)) => assert_eq!(text, "hello"),
        _ => panic!("expected a chat line"),
    }
    assert!(app.mode == AppMode::Lobby);
    assert_eq!(app.main_input, "");
    app.mode = AppMode::RoomJoining;
    assert!(matches!(submit(&mut app, "/c"), ClientStep::Stay));
    assert!(app.mode == AppMode::RoomJoining);
    assert!(matches!(submit(&mut app, "/cx 5"), ClientStep::Stay));
}

#[test]
fn white_space_and_equal_texts() {
    assert_eq!(engine::text::trim("\u{3000}\t ab c\u{a0}\n"), "ab c");
    assert_eq!(engine::text::trim("\u{200b}x"), "\u{200b}x");
    assert!(engine::text::str_eq("mão", "mão"));
    assert!(!engine::text::str_eq("mão", "mao"));
    assert!(!engine::text::str_eq("a", "ab"));
}

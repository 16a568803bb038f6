use engine::app::{App, AppMode};
use engine::card::{Card, Rank, Suit};
use engine::event::GamePhase;
use engine::i18n::{I18n, Language};
use engine::net_messages::RoomInfo;
use engine::player::Player;
use engine::screen::{draw_cards_ascii_lines, main_pane_lines, pad_text, replace_text, screen_ready_now};
use engine::state::GameState;

#[test]
fn padding_and_replacing() {
    assert_eq!(pad_text("ab", 5), "ab   ");
    assert_eq!(pad_text("abcdef", 3), "abcdef");
    assert_eq!(pad_text("", 2), "  ");
    assert_eq!(replace_text("| {} | {} |", "{}", "=>"), "| => | => |");
    assert_eq!(replace_text("{{}}", "{}", "x"), "{x}");
    assert_eq!(replace_text("???", "{}", "=>"), "???");
    assert_eq!(replace_text("abc", "", "x"), "abc");
}

#[test]
fn card_pictures() {
    let cards = vec![Card::new(Rank::Ten, Suit::Hearts), Card::new(Rank::Ace, Suit::Spades)];
    let hand = draw_cards_ascii_lines(&cards, false);
    assert_eq!(hand.len(), 5);
    assert_eq!(hand[0], "┌───────┐ ┌───────┐ ");
    assert_eq!(hand[1], "│ 10    │ │ A     │ ");
    assert_eq!(hand[2], "│   ♥   │ │   ♠   │ ");
    assert_eq!(hand[3], "│    10 │ │     A │ ");
    assert_eq!(hand[4], "└───────┘ └───────┘ ");
    let board = draw_cards_ascii_lines(&cards[..1].to_vec(), true);
    assert_eq!(board[1], format!("│ 10    │ {}", "│ ░░░░░ │ ".repeat(4)));
    assert_eq!(board[4], "└───────┘ ".repeat(5));
    let none = draw_cards_ascii_lines(&Vec::new(), false);
    assert_eq!(none, vec![String::new(); 5]);
}

#[test]
fn lobby_and_waiting_room_screens() {
    let en = I18n::new(Language::English);
    let mut app = App::new();
    app.main_input = "Ana".to_string();
    assert_eq!(main_pane_lines(&app, &en), vec!["Welcome! Please enter your name:", "> Ana"]);
    app.mode = AppMode::Lobby;
    app.main_input.clear();
    assert_eq!(
        main_pane_lines(&app, &en),
        vec!["=== MULTIPLAYER LOBBY ===", "No rooms found.", "", "[1] Create Room | [2] Join Room", "> "]
    );
    app.rooms.push(RoomInfo {
        id: 3,
        name: "Mesa".to_string(),
        player_count: 2,
        max_players: 8,
        has_started: true,
    });
    app.connection_error = Some("Sala cheia.".to_string());
    let lines = main_pane_lines(&app, &en);
    assert_eq!(lines[0], "ERROR: Sala cheia.");
    assert_eq!(lines[1], "");
    assert_eq!(lines[3], " [3] Mesa (2/8) - IN PROGRESS");
    app.connection_error = None;
    app.mode = AppMode::RoomGuest;
    app.room_players = vec!["Ana".to_string(), "Bot Alice".to_string()];
    assert_eq!(
        main_pane_lines(&app, &en),
        vec![
            "=== WAITING ROOM ===",
            "Players connected:",
            " - Ana",
            " - Bot Alice",
            "",
            "Waiting for host to start the game..."
        ]
    );
    app.mode = AppMode::RoomHost;
    let lines = main_pane_lines(&app, &en);
    assert_eq!(lines[5], "Press [s] to Start Game, [b] to Add Bot");
    assert_eq!(lines[6], "> ");
}

#[test]
fn table_screen() {
    let en = I18n::new(Language::English);
    let mut game = GameState::new();
    let mut me = Player::new(0, "Você".to_string(), 990);
    me.current_bet = 10;
    me.hole_cards = vec![Card::new(Rank::Two, Suit::Clubs), Card::new(Rank::King, Suit::Diamonds)];
    game.players.push(me);
    let mut rich = Player::new(1, "A very long player name".to_string(), 980);
    rich.current_bet = 20;
    game.players.push(rich);
    let mut gone = Player::new(2, "Gone".to_string(), 0);
    gone.is_folded = true;
    game.players.push(gone);
    game.phase = GamePhase::PreFlop;
    game.pot = 30;
    game.current_highest_bet = 20;
    game.current_turn = 0;
    game.dealer_button = 1;
    let mut app = App::new();
    app.mode = AppMode::GamePlay;
    app.my_id = 0;
    app.main_input = "2".to_string();
    app.game_state = Some(game);
    assert!(screen_ready_now(&app));
    let lines = main_pane_lines(&app, &en);
    assert_eq!(lines[0], "PHASE Pre-Flop | POT $30 | HIGHEST BET $20");
    assert_eq!(lines[1], "");
    assert_eq!(lines[2], "BOARD CARDS:");
    assert_eq!(lines[8], "");
    assert_eq!(lines[9], "PLAYERS:");
    assert_eq!(lines[10], "| => | ROLE | NAME            | CHIPS   | BET      | STATUS     |");
    let row = |token: &str, role: &str, name: &str, chips: u32, bet: u32, status: &str| {
        format!(
            "| {} | {} | {:<15} | ${:<6} | ${:<7} | {:<10} |",
            token, role, name, chips, bet, status
        )
    };
    assert_eq!(lines[11], row("=>", "[BB]", "Você", 990, 10, ""));
    assert_eq!(lines[12], row("  ", "[D] ", "A very long ...", 980, 20, ""));
    assert_eq!(lines[13], row("  ", "    ", "Gone", 0, 0, "(OUT)"));
    assert_eq!(lines[14], "");
    assert_eq!(lines[15], "Suas Cartas:");
    assert_eq!(lines[17], "│ 2     │ │ K     │ ");
    assert_eq!(lines[21], "Actions: [1] Fold | [2] Call ($10) | [3] Raise");
    assert_eq!(lines[22], "Action: > 2");
    assert_eq!(lines.len(), 23);
    // Seat 0 is to act, but the client is the player with id 1: no menu.
    app.my_id = 1;
    let lines = main_pane_lines(&app, &en);
    assert_eq!(lines.len(), 16);
    assert_eq!(lines[15], "Suas Cartas:");
}

#[test]
fn empty_table_cannot_be_drawn() {
    let mut app = App::new();
    app.mode = AppMode::GamePlay;
    app.game_state = Some(GameState::new());
    assert!(!screen_ready_now(&app));
    app.mode = AppMode::Lobby;
    assert!(screen_ready_now(&app));
}

use engine::ai::{simulate_deal, unseen_cards, win_counts, SimOutcome};
use engine::app::{App, AppMode};
use engine::card::{Card, Rank, Suit};
use engine::event::{GameEvent, GamePhase, PlayerAction};
use engine::event_logger::{award_line, process_events};
use engine::i18n::{I18n, Language};
use engine::player::Player;
use engine::state::GameState;

#[test]
fn typing_and_erasing() {
    let mut app = App::new();
    assert!(app.mode == AppMode::NameInput);
    app.handle_char('a');
    app.handle_char('b');
    app.handle_backspace();
    app.handle_char('c');
    app.is_typing_chat = true;
    app.handle_char('x');
    assert_eq!(app.main_input, "ac");
    assert_eq!(app.chat_input, "x");
    app.handle_backspace();
    app.handle_backspace();
    assert_eq!(app.chat_input, "");
    app.handle_char('y');
    assert_eq!(app.take_chat(), "y");
    assert_eq!(app.chat_input, "");
    assert_eq!(app.take_input(), "ac");
    assert_eq!(app.main_input, "");
}

#[test]
fn interface_texts() {
    let en = I18n::new(Language::English);
    let pt = I18n::new(Language::Portuguese);
    assert_eq!(en.t("pot"), "POT");
    assert_eq!(pt.t("pot"), "POTE");
    assert_eq!(pt.t("new_hand"), "NOVA MÃO");
    assert_eq!(en.t("no such key"), "???");
    assert_eq!(en.t("chips"), "CHIPS");
    assert_eq!(pt.t("select_mode"), "Escolha o modo de jogo:");
    assert_eq!(en.t("actions_menu"), "Actions: [1] Fold | [2] Check/Call | [3] Raise");
    assert_eq!(pt.t_phase(&GamePhase::WaitingForPlayers), "Aguardando Jogadores");
    assert_eq!(en.t_phase(&GamePhase::PreFlop), "Pre-Flop");
    assert_eq!(en.t_hand("FullHouse"), "Full House");
    assert_eq!(pt.t_hand("StraightFlush"), "Straight Flush");
    assert_eq!(pt.t_hand("Straight"), "Sequência");
    assert_eq!(en.t_hand("OnePair"), "One Pair");
    assert_eq!(en.t_hand("TwoPair"), "Two Pair");
    assert_eq!(en.t_hand("something else"), "something else");
    assert_eq!(pt.t_hand("Everyone else folded"), "Todos os outros correram");
    assert_eq!(en.t_player_cards(false, "Ana"), "Ana's CARDS:");
    assert_eq!(pt.t_player_cards(false, "Ana"), "CARTAS de Ana:");
    assert_eq!(pt.t_player_cards(true, "Ana"), "Suas CARTAS:");
}

#[test]
fn event_log_lines() {
    let mut game = GameState::new();
    game.players.push(Player::new(1000, "Bot Alice".to_string(), 1000));
    let pt = I18n::new(Language::Portuguese);
    let en = I18n::new(Language::English);
    let events = vec![
        GameEvent::GameStarted,
        GameEvent::PhaseChanged(GamePhase::Flop),
        GameEvent::CommunityCardsRevealed(vec![
            Card::new(Rank::King, Suit::Hearts),
            Card::new(Rank::Ten, Suit::Clubs),
        ]),
        GameEvent::PlayerActed(1000, PlayerAction::Raise(250)),
        GameEvent::PlayerActed(5, PlayerAction::Fold),
        GameEvent::PlayerJoined(3, "x".to_string()),
        GameEvent::PotAwarded(1000, 3000, "Everyone else folded".to_string()),
        GameEvent::PotAwarded(1000, 3000, "FullHouse".to_string()),
    ];
    let mut log = vec!["earlier".to_string()];
    process_events(&events, &game, &mut log, &en);
    assert_eq!(
        log,
        vec![
            "earlier",
            "The dealer is dealing hole cards...",
            "--- PHASE Flop ---",
            "Dealer revealed: K♥ 10♣",
            "Bot Alice RAISED by 250",
            "Unknown folded.",
            "*** Bot Alice WON 3000 CHIPS! ***",
            "*** Bot Alice WON 3000 CHIPS WITH FULL HOUSE! ***",
        ]
    );
    let mut log_pt = Vec::new();
    process_events(&events[7..], &game, &mut log_pt, &pt);
    assert_eq!(log_pt, vec!["*** Bot Alice VENCEU 3000 FICHAS COM FULL HOUSE! ***"]);
    let mut log_seq = Vec::new();
    process_events(&[GameEvent::PotAwarded(1000, 7, "Straight".to_string())], &game, &mut log_seq, &pt);
    assert_eq!(log_seq, vec!["*** Bot Alice VENCEU 7 FICHAS COM SEQUÊNCIA! ***"]);
    assert_eq!(award_line(&en, "Bo", 5, "X"), "*** Bo WON 5 CHIPS WITH X! ***");
}

#[test]
fn unseen_cards_leave_out_known_ones() {
    let mine = vec![Card::new(Rank::Two, Suit::Hearts), Card::new(Rank::Ace, Suit::Spades)];
    let board = vec![Card::new(Rank::Three, Suit::Hearts)];
    let rest = unseen_cards(&mine, &board);
    assert_eq!(rest.len(), 49);
    assert_eq!(rest[0], Card::new(Rank::Four, Suit::Hearts));
    assert_eq!(rest[48], Card::new(Rank::King, Suit::Spades));
}

#[test]
fn simulated_deal_outcomes() {
    let board = vec![
        Card::new(Rank::Two, Suit::Hearts),
        Card::new(Rank::Four, Suit::Clubs),
        Card::new(Rank::Six, Suit::Diamonds),
    ];
    // cards are drawn from the end: board gets Eight, Nine; then the opponent gets Ace, King
    let deck = vec![
        Card::new(Rank::King, Suit::Spades),
        Card::new(Rank::Ace, Suit::Spades),
        Card::new(Rank::Nine, Suit::Spades),
        Card::new(Rank::Eight, Suit::Spades),
    ];
    let low = vec![Card::new(Rank::Three, Suit::Clubs), Card::new(Rank::Five, Suit::Clubs)];
    assert_eq!(simulate_deal(&low, &board, &deck, 1), SimOutcome::Loss);
    let high = vec![Card::new(Rank::Ace, Suit::Hearts), Card::new(Rank::King, Suit::Hearts)];
    assert_eq!(simulate_deal(&high, &board, &deck, 1), SimOutcome::Tie);
    let higher = vec![Card::new(Rank::Ace, Suit::Hearts), Card::new(Rank::Ace, Suit::Clubs)];
    assert_eq!(simulate_deal(&higher, &board, &deck, 1), SimOutcome::Win);
}

#[test]
fn win_counts_bounds() {
    let mine = vec![Card::new(Rank::Ace, Suit::Hearts), Card::new(Rank::Ace, Suit::Clubs)];
    assert_eq!(win_counts(&mine[..1], &[], 2, 100), (0, 0));
    assert_eq!(win_counts(&mine, &[], 0, 100), (0, 0));
    let (w, t) = win_counts(&mine, &[], 3, 200);
    assert!(w + t <= 200);
    assert!(w > 0);
}

use engine::app::AppMode;
use engine::event::{GamePhase, PlayerAction};
use engine::local::{
    choose_bot_action, compute_bot_action, count_local_opponents, is_aggressive, local_turn,
    local_table, next_local_hand,
};
use engine::player::Player;
use engine::state::GameState;

/// A flop where seat 1 (the human, id 0) faces a bet of 30 more.
fn human_to_act() -> GameState {
    let mut game = GameState::new();
    let mut bot = Player::new(1, "Bot Alice".to_string(), 900);
    bot.current_bet = 50;
    let mut human = Player::new(0, "Você".to_string(), 200);
    human.current_bet = 20;
    game.players.push(bot);
    game.players.push(human);
    game.phase = GamePhase::Flop;
    game.current_turn = 1;
    game.current_highest_bet = 50;
    game.min_raise = 20;
    game.pot = 100;
    game
}

#[test]
fn the_humans_choices() {
    let game = human_to_act();
    assert_eq!(local_turn(&game, false, " 1 "), (Some(PlayerAction::Fold), AppMode::GamePlay));
    assert_eq!(local_turn(&game, false, "2"), (Some(PlayerAction::Call), AppMode::GamePlay));
    assert_eq!(local_turn(&game, false, "3"), (None, AppMode::GamePlayRaising));
    assert_eq!(local_turn(&game, false, "ALL"), (Some(PlayerAction::Raise(170)), AppMode::GamePlay));
    assert_eq!(local_turn(&game, false, "min"), (Some(PlayerAction::Raise(20)), AppMode::GamePlay));
    assert_eq!(local_turn(&game, false, "x"), (None, AppMode::GamePlay));
    assert_eq!(local_turn(&game, true, "75"), (Some(PlayerAction::Raise(75)), AppMode::GamePlay));
    assert_eq!(local_turn(&game, true, "all"), (Some(PlayerAction::Raise(170)), AppMode::GamePlay));
    assert_eq!(local_turn(&game, true, "-5"), (None, AppMode::GamePlay));
    assert_eq!(local_turn(&game, true, "min"), (Some(PlayerAction::Raise(20)), AppMode::GamePlay));
    let mut even = human_to_act();
    even.players[1].current_bet = 50;
    assert_eq!(local_turn(&even, false, "2"), (Some(PlayerAction::Check), AppMode::GamePlay));
    let mut short = human_to_act();
    short.players[1].chips = 10;
    assert_eq!(local_turn(&short, false, "all"), (Some(PlayerAction::Raise(0)), AppMode::GamePlay));
    assert_eq!(local_turn(&short, false, "min"), (Some(PlayerAction::Raise(0)), AppMode::GamePlay));
}

#[test]
fn bots_size_their_raises_by_the_pot() {
    let game = human_to_act();
    assert!(is_aggressive(2));
    assert!(!is_aggressive(3));
    // Aggressive bot: the larger of 20 and 100 / 2.
    assert_eq!(compute_bot_action(&game, 2, 900, 50, true, true), PlayerAction::Raise(50));
    // Conservative bot: the larger of 20 and 100 / 4.
    assert_eq!(compute_bot_action(&game, 3, 900, 50, true, true), PlayerAction::Raise(25));
    // Not enough chips to raise: nothing to call, so a check.
    assert_eq!(compute_bot_action(&game, 3, 10, 50, true, true), PlayerAction::Check);
    assert_eq!(compute_bot_action(&game, 3, 900, 20, false, true), PlayerAction::Call);
    assert_eq!(compute_bot_action(&game, 3, 900, 20, false, false), PlayerAction::Fold);
    assert_eq!(choose_bot_action(0, 100, 50, false, false), PlayerAction::Check);
    assert_eq!(choose_bot_action(10, 60, 50, true, false), PlayerAction::Raise(50));
    assert_eq!(choose_bot_action(10, 59, 50, true, false), PlayerAction::Fold);
}

#[test]
fn opponents_still_in_the_hand() {
    let mut game = human_to_act();
    let mut folded = Player::new(2, "Bot Bob".to_string(), 300);
    folded.is_folded = true;
    game.players.push(folded);
    game.players.push(Player::new(3, "Bot Charlie".to_string(), 0));
    assert_eq!(count_local_opponents(&game, 0), 2);
    assert_eq!(count_local_opponents(&game, 1), 2);
    assert_eq!(count_local_opponents(&game, 9), 3);
}

#[test]
fn the_next_hand_moves_the_button() {
    let mut game = GameState::new();
    game.players.push(Player::new(0, "Você".to_string(), 500));
    game.players.push(Player::new(1, "Bot Alice".to_string(), 0));
    game.players.push(Player::new(2, "Bot Bob".to_string(), 500));
    game.phase = GamePhase::Finished;
    let result = next_local_hand(&mut game, 1).expect("two players have chips");
    assert!(result.is_ok());
    assert_eq!(game.dealer_button, 2);
    assert_eq!(game.phase, GamePhase::PreFlop);

    let mut over = GameState::new();
    over.players.push(Player::new(0, "Você".to_string(), 1000));
    over.players.push(Player::new(1, "Bot Alice".to_string(), 0));
    over.phase = GamePhase::Finished;
    assert!(next_local_hand(&mut over, 5).is_none());
    assert_eq!(over.dealer_button, 0);
    assert_eq!(over.phase, GamePhase::Finished);
}

#[test]
fn raise_sizes_at_the_local_table() {
    assert_eq!(engine::local::local_raise_size_of(100, 20, true), 50);
    assert_eq!(engine::local::local_raise_size_of(100, 20, false), 25);
    assert_eq!(engine::local::local_raise_size_of(40, 20, false), 20);
}

#[test]
fn the_local_table_starts_deep_with_rising_blinds() {
    let mut game = local_table("Você".to_string(), 3);
    assert_eq!(game.players.len(), 4);
    assert!(game.players.iter().all(|p| p.chips == 10000));
    assert_eq!((game.small_blind, game.big_blind), (100, 200));
    game.start_game().unwrap();
    assert_eq!(game.pot, 300);
    assert_eq!(game.current_highest_bet, 200);
    let mut hands: u64 = 1;
    let mut big_blinds = vec![game.big_blind];
    while hands < 11 {
        game.phase = GamePhase::Finished;
        next_local_hand(&mut game, hands).unwrap().unwrap();
        hands += 1;
        big_blinds.push(game.big_blind);
    }
    assert_eq!(big_blinds, vec![200, 200, 200, 200, 200, 400, 400, 400, 400, 400, 800]);
}

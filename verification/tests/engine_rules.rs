use engine::card::{Card, Rank, Suit};
use engine::deck::Deck;
use engine::event::{GameEvent, GamePhase, PlayerAction};
use engine::player::Player;
use engine::state::GameState;

fn table(chips: &[u32]) -> GameState {
    let mut game = GameState::new();
    for (i, c) in chips.iter().enumerate() {
        game.add_player(i + 1, format!("P{}", i + 1), *c);
    }
    game
}

/// 52 cards in fresh-deck order; the last ones are drawn first.
fn ordered_deck() -> Deck {
    let mut cards = Vec::new();
    for s in Suit::all() {
        for r in Rank::all() {
            cards.push(Card::new(r, s));
        }
    }
    Deck::from_cards(cards)
}

fn total(game: &GameState) -> u64 {
    game.players.iter().map(|p| p.chips as u64).sum::<u64>()
}

#[test]
fn start_needs_two_seated_players() {
    let mut game = table(&[1000]);
    assert_eq!(game.start_game().unwrap_err(), "Not enough players to start.");
    assert_eq!(game.phase, GamePhase::WaitingForPlayers);
    let mut game = table(&[1000, 0]);
    assert!(game.start_game().is_ok());
    assert_eq!(game.phase, GamePhase::PreFlop);
    assert!(!game.players[1].is_folded);
    assert_eq!(game.players[1].hole_cards.len(), 2);
}

#[test]
fn start_posts_blinds_and_deals_from_the_end() {
    let mut game = table(&[1000, 1000, 1000]);
    let events = game.start_game_with_deck(ordered_deck()).unwrap();
    assert!(matches!(events[0], GameEvent::GameStarted));
    assert!(matches!(events[1], GameEvent::PhaseChanged(GamePhase::PreFlop)));
    assert_eq!(game.phase, GamePhase::PreFlop);
    // seat 0 is the dealer, seat 1 the small blind, seat 2 the big blind
    assert_eq!(game.players[1].chips, 990);
    assert_eq!(game.players[2].chips, 980);
    assert_eq!(game.pot, 30);
    assert_eq!(game.current_highest_bet, 20);
    assert_eq!(game.current_turn, 0);
    assert_eq!(game.min_raise, 20);
    // first drawn: Ace of spades, then King of spades
    assert_eq!(
        game.players[0].hole_cards,
        vec![Card::new(Rank::Ace, Suit::Spades), Card::new(Rank::King, Suit::Spades)]
    );
    assert_eq!(game.deck.remaining_cards(), 46);
}

#[test]
fn heads_up_dealer_posts_small_blind_and_acts_first() {
    let mut game = table(&[500, 500]);
    game.dealer_button = 1;
    game.start_game_with_deck(ordered_deck()).unwrap();
    assert_eq!(game.players[1].current_bet, 10);
    assert_eq!(game.players[0].current_bet, 20);
    assert_eq!(game.current_turn, 1);
}

#[test]
fn busted_player_is_dealt_in() {
    let mut game = table(&[1000, 0, 1000, 1000]);
    game.start_game_with_deck(ordered_deck()).unwrap();
    assert!(!game.players[1].is_folded);
    assert_eq!(game.players[1].hole_cards.len(), 2);
    // blinds skip the player without chips
    assert_eq!(game.players[2].current_bet, 10);
    assert_eq!(game.players[3].current_bet, 20);
    assert_eq!(game.current_turn, 0);
}

#[test]
fn refusals() {
    let mut game = table(&[1000, 1000, 1000]);
    assert_eq!(game.process_action(1, PlayerAction::Call).unwrap_err(), "Game is not active.");
    game.start_game_with_deck(ordered_deck()).unwrap();
    assert_eq!(
        game.process_action(2, PlayerAction::Call).unwrap_err(),
        "It is not this player's turn."
    );
    assert_eq!(
        game.process_action(1, PlayerAction::Check).unwrap_err(),
        "Cannot check. You must call or raise."
    );
    // a refused check still marks the player as having acted
    assert!(game.players[0].has_acted);
    assert_eq!(
        game.process_action(1, PlayerAction::Raise(981)).unwrap_err(),
        "Not enough chips to raise that amount."
    );
    assert_eq!(game.players[0].chips, 1000);
    assert_eq!(game.pot, 30);
    assert_eq!(game.current_turn, 0);
    // the largest raise the stack allows is accepted
    assert!(game.process_action(1, PlayerAction::Raise(980)).is_ok());
    assert!(game.players[0].is_all_in);
}

#[test]
fn everyone_folds_to_the_big_blind() {
    let mut game = table(&[1000, 1000, 1000]);
    game.start_game_with_deck(ordered_deck()).unwrap();
    let before = total(&game) + game.pot as u64;
    game.process_action(1, PlayerAction::Fold).unwrap();
    assert_eq!(game.current_turn, 1);
    let events = game.process_action(2, PlayerAction::Fold).unwrap();
    assert_eq!(game.phase, GamePhase::Finished);
    assert_eq!(game.players[2].chips, 1010);
    assert_eq!(total(&game), before);
    match &events[2] {
        GameEvent::PotAwarded(id, amount, reason) => {
            assert_eq!(*id, 3);
            assert_eq!(*amount, 30);
            assert_eq!(reason, "Everyone else folded");
        }
        other => panic!("unexpected event {:?}", other),
    }
    assert_eq!(events.len(), 3);
    assert!(!events.iter().any(|e| matches!(e, GameEvent::CommunityCardsRevealed(_))));
    assert!(game.community_cards.is_empty());
    assert_eq!(game.process_action(3, PlayerAction::Check).unwrap_err(), "Game is not active.");
}

#[test]
fn raise_reopens_the_betting() {
    let mut game = table(&[1000, 1000, 1000]);
    game.start_game_with_deck(ordered_deck()).unwrap();
    game.process_action(1, PlayerAction::Call).unwrap();
    game.process_action(2, PlayerAction::Raise(50)).unwrap();
    assert_eq!(game.current_highest_bet, 70);
    assert_eq!(game.players[1].current_bet, 70);
    assert!(!game.players[0].has_acted);
    assert_eq!(game.current_turn, 2);
    game.process_action(3, PlayerAction::Call).unwrap();
    game.process_action(1, PlayerAction::Call).unwrap();
    // everyone matched: the flop is dealt
    assert_eq!(game.phase, GamePhase::Flop);
    assert_eq!(game.community_cards.len(), 3);
    assert_eq!(game.pot, 210);
    assert_eq!(game.current_highest_bet, 0);
    assert_eq!(game.current_turn, 1);
}

#[test]
fn checked_down_hand_ends_at_showdown_with_pot_paid() {
    let mut game = table(&[1000, 1000, 1000]);
    game.start_game_with_deck(ordered_deck()).unwrap();
    let before = total(&game) + game.pot as u64;
    game.process_action(1, PlayerAction::Call).unwrap();
    game.process_action(2, PlayerAction::Call).unwrap();
    game.process_action(3, PlayerAction::Check).unwrap();
    for _ in 0..3 {
        for _ in 0..3 {
            let id = game.players[game.current_turn].id;
            game.process_action(id, PlayerAction::Check).unwrap();
        }
    }
    assert_eq!(game.phase, GamePhase::Finished);
    assert_eq!(game.community_cards.len(), 5);
    assert_eq!(total(&game), before);
}

#[test]
fn all_in_before_the_flop_runs_the_board_out() {
    let mut game = table(&[100, 100]);
    game.start_game_with_deck(ordered_deck()).unwrap();
    // heads-up: seat 0 is the dealer and small blind
    let events = game.process_action(1, PlayerAction::Raise(80)).unwrap();
    assert_eq!(events.len(), 1);
    let events = game.process_action(2, PlayerAction::Call).unwrap();
    assert_eq!(game.phase, GamePhase::Finished);
    assert_eq!(game.community_cards.len(), 5);
    assert_eq!(total(&game), 200);
    let phases: Vec<GamePhase> = events
        .iter()
        .filter_map(|e| match e {
            GameEvent::PhaseChanged(p) => Some(*p),
            _ => None,
        })
        .collect();
    assert_eq!(
        phases,
        vec![
            GamePhase::Flop,
            GamePhase::Turn,
            GamePhase::River,
            GamePhase::Showdown,
            GamePhase::Finished
        ]
    );
}

#[test]
fn split_pot_gives_odd_chip_to_first_winner() {
    let mut game = GameState::new();
    game.players.push(Player::new(7, "A".to_string(), 0));
    game.players.push(Player::new(8, "B".to_string(), 0));
    game.players[0].hole_cards = vec![Card::new(Rank::Two, Suit::Hearts), Card::new(Rank::Three, Suit::Hearts)];
    game.players[1].hole_cards = vec![Card::new(Rank::Two, Suit::Clubs), Card::new(Rank::Three, Suit::Clubs)];
    game.community_cards = vec![
        Card::new(Rank::Ace, Suit::Spades),
        Card::new(Rank::King, Suit::Spades),
        Card::new(Rank::Queen, Suit::Spades),
        Card::new(Rank::Jack, Suit::Spades),
        Card::new(Rank::Nine, Suit::Diamonds),
    ];
    game.players[1].chips = 50;
    game.phase = GamePhase::River;
    game.pot = 101;
    game.current_turn = 1;
    game.players[0].has_acted = true;
    let events = game.process_action(8, PlayerAction::Check).unwrap();
    assert_eq!(game.phase, GamePhase::Finished);
    assert_eq!(game.players[0].chips, 51);
    assert_eq!(game.players[1].chips, 100);
    let awards: Vec<(usize, u32, String)> = events
        .iter()
        .filter_map(|e| match e {
            GameEvent::PotAwarded(id, a, n) => Some((*id, *a, n.clone())),
            _ => None,
        })
        .collect();
    assert_eq!(
        awards,
        vec![(7, 51, "HighCard".to_string()), (8, 50, "HighCard".to_string())]
    );
}

#[test]
fn next_active_player_skips_empty_stacks() {
    let game = table(&[100, 0, 0, 50]);
    assert_eq!(game.next_active_player(0), 3);
    assert_eq!(game.next_active_player(3), 0);
    assert_eq!(game.next_active_player(7), 0);
}

#[test]
fn drawing_the_whole_deck_gives_each_card_once() {
    let mut deck = Deck::new();
    let mut seen: Vec<Card> = Vec::new();
    for k in 0..52 {
        let c = deck.draw().expect("a card is left");
        assert!(!seen.contains(&c));
        seen.push(c);
        assert_eq!(deck.remaining_cards(), 51 - k);
    }
    assert!(deck.draw().is_none());
    assert_eq!(deck.remaining_cards(), 0);
}

#[test]
fn fresh_deck_holds_each_card_once_and_is_shuffled() {
    let mut deck = Deck::new();
    assert_eq!(deck.remaining_cards(), 52);
    let mut seen = Vec::new();
    while let Some(c) = deck.draw() {
        assert!(!seen.contains(&c));
        seen.push(c);
    }
    assert_eq!(seen.len(), 52);
    assert!(deck.draw().is_none());
    // a shuffled deck is, with overwhelming likelihood, not in building order
    let ordered = ordered_deck();
    let shuffled = Deck::new();
    assert_ne!(ordered.cards(), shuffled.cards());
    let mut resorted = shuffled.cards().clone();
    resorted.sort();
    let mut expected = ordered.cards().clone();
    expected.sort();
    assert_eq!(resorted, expected);
}

#[test]
fn card_texts() {
    assert_eq!(Card::new(Rank::Ten, Suit::Hearts).to_string(), "10♥");
    assert_eq!(Card::new(Rank::Ace, Suit::Spades).to_string(), "A♠");
    assert_eq!(Rank::Queen.value(), 12);
}

#[test]
fn a_hand_of_raises_and_calls_comes_to_an_end() {
    let mut game = table(&[1000, 1000, 1000]);
    game.start_game_with_deck(ordered_deck()).unwrap();
    let mut turns = 0;
    while game.phase != GamePhase::Finished {
        assert!(turns < 200, "the hand did not end");
        let me = &game.players[game.current_turn];
        let id = me.id;
        let owed = game.current_highest_bet - me.current_bet;
        if me.chips >= owed + 50 {
            game.process_action(id, PlayerAction::Raise(50)).unwrap();
        } else {
            game.process_action(id, PlayerAction::Call).unwrap();
        }
        turns += 1;
    }
    assert_eq!(total(&game), 3000);
}

#[test]
fn checking_and_calling_ends_each_round_in_one_pass() {
    let mut game = table(&[1000, 1000, 1000]);
    game.start_game_with_deck(ordered_deck()).unwrap();
    let mut turns = 0;
    while game.phase != GamePhase::Finished {
        let me = &game.players[game.current_turn];
        let id = me.id;
        if me.current_bet < game.current_highest_bet {
            game.process_action(id, PlayerAction::Call).unwrap();
        } else {
            game.process_action(id, PlayerAction::Check).unwrap();
        }
        turns += 1;
    }
    // three players, four betting rounds, one action each
    assert_eq!(turns, 12);
    assert_eq!(total(&game), 3000);
}

#[test]
fn the_last_player_folding_still_takes_the_pot() {
    let mut game = table(&[1000, 1000]);
    game.start_game_with_deck(ordered_deck()).unwrap();
    let before = total(&game) + game.pot as u64;
    let actor = game.current_turn;
    let other = 1 - actor;
    // the other player left the table out of turn
    game.players[other].is_folded = true;
    let pot = game.pot;
    let actor_chips = game.players[actor].chips;
    let id = game.players[actor].id;
    let events = game.process_action(id, PlayerAction::Fold).unwrap();
    assert_eq!(game.phase, GamePhase::Finished);
    assert_eq!(game.players[actor].chips, actor_chips + pot);
    assert_eq!(total(&game), before);
    assert!(matches!(events.last(), Some(GameEvent::PotAwarded(w, p, _)) if *w == id && *p == pot));
}

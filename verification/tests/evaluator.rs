use engine::card::{Card, Rank, Suit};
use engine::evaluator::{evaluate, HandRank};

#[test]
fn test_skeleton_evaluator() {
    let cards = vec![
        Card::new(Rank::Two, Suit::Hearts),
        Card::new(Rank::Ace, Suit::Spades),
        Card::new(Rank::King, Suit::Diamonds),
        Card::new(Rank::Five, Suit::Clubs),
        Card::new(Rank::Ten, Suit::Hearts),
    ];

    let result = evaluate(&cards);
    assert_eq!(
        result,
        HandRank::HighCard([Rank::Ace, Rank::King, Rank::Ten, Rank::Five, Rank::Two])
    );
}

#[test]
fn evaluate_seven_cards_keeps_five_highest_with_repeats() {
    let cards = vec![
        Card::new(Rank::Nine, Suit::Hearts),
        Card::new(Rank::Three, Suit::Spades),
        Card::new(Rank::Nine, Suit::Diamonds),
        Card::new(Rank::Queen, Suit::Clubs),
        Card::new(Rank::Two, Suit::Hearts),
        Card::new(Rank::Jack, Suit::Clubs),
        Card::new(Rank::Four, Suit::Spades),
    ];
    assert_eq!(
        evaluate(&cards),
        HandRank::HighCard([Rank::Queen, Rank::Jack, Rank::Nine, Rank::Nine, Rank::Four])
    );
}

#[test]
fn hand_kinds_order_as_listed() {
    let high = HandRank::HighCard([Rank::Ace, Rank::King, Rank::Queen, Rank::Jack, Rank::Nine]);
    let pair = HandRank::OnePair(Rank::Two, [Rank::Five, Rank::Four, Rank::Three]);
    assert!(pair > high);
    assert!(HandRank::RoyalFlush > HandRank::StraightFlush(Rank::King));
    let k_high = engine::evaluator::hand_key_of(&high);
    let k_pair = engine::evaluator::hand_key_of(&pair);
    assert!(engine::evaluator::key_before(&k_high, &k_pair));
    assert!(!engine::evaluator::key_before(&k_pair, &k_high));
    assert_eq!(k_high, vec![0, 14, 13, 12, 11, 9]);
    assert_eq!(engine::evaluator::hand_name(&pair), "OnePair".to_string());
}

use balatro_ai::{card_chips, hand_rank_to_api_key, rank_to_value, suit_to_suit, Card, HandRank, Suit, Value};

#[test]
fn rank_labels_parse() {
    let expected = [
        ("2", Value::Two),
        ("3", Value::Three),
        ("4", Value::Four),
        ("5", Value::Five),
        ("6", Value::Six),
        ("7", Value::Seven),
        ("8", Value::Eight),
        ("9", Value::Nine),
        ("T", Value::Ten),
        ("J", Value::Jack),
        ("Q", Value::Queen),
        ("K", Value::King),
        ("A", Value::Ace),
    ];
    for (label, value) in expected {
        assert_eq!(rank_to_value(label), Some(value));
    }
}

#[test]
fn unknown_rank_labels_are_refused() {
    assert_eq!(rank_to_value("10"), None);
    assert_eq!(rank_to_value(""), None);
    assert_eq!(rank_to_value("t"), None);
    assert_eq!(rank_to_value("1"), None);
    assert_eq!(rank_to_value("AA"), None);
}

#[test]
fn suit_labels_parse() {
    assert_eq!(suit_to_suit("S"), Some(Suit::Spade));
    assert_eq!(suit_to_suit("C"), Some(Suit::Club));
    assert_eq!(suit_to_suit("H"), Some(Suit::Heart));
    assert_eq!(suit_to_suit("D"), Some(Suit::Diamond));
    assert_eq!(suit_to_suit("s"), None);
    assert_eq!(suit_to_suit("Spades"), None);
    assert_eq!(suit_to_suit(""), None);
}

#[test]
fn api_keys_of_hand_ranks() {
    assert_eq!(hand_rank_to_api_key(HandRank::HighCard), "High Card");
    assert_eq!(hand_rank_to_api_key(HandRank::OnePair), "Pair");
    assert_eq!(hand_rank_to_api_key(HandRank::TwoPair), "Two Pair");
    assert_eq!(hand_rank_to_api_key(HandRank::ThreeOfAKind), "Three of a Kind");
    assert_eq!(hand_rank_to_api_key(HandRank::Straight), "Straight");
    assert_eq!(hand_rank_to_api_key(HandRank::Flush), "Flush");
    assert_eq!(hand_rank_to_api_key(HandRank::FullHouse), "Full House");
    assert_eq!(hand_rank_to_api_key(HandRank::FourOfAKind), "Four of a Kind");
    assert_eq!(hand_rank_to_api_key(HandRank::StraightFlush), "Straight Flush");
    assert_eq!(hand_rank_to_api_key(HandRank::FiveOfAKind), "Five of a Kind");
    assert_eq!(hand_rank_to_api_key(HandRank::FlushHouse), "Flush House");
    assert_eq!(hand_rank_to_api_key(HandRank::FlushFive), "Flush Five");
}

#[test]
fn royal_flush_is_scored_as_straight_flush() {
    assert_eq!(
        hand_rank_to_api_key(HandRank::RoyalFlush),
        hand_rank_to_api_key(HandRank::StraightFlush)
    );
}

#[test]
fn api_keys_are_distinct_except_royal_flush() {
    let ranks = [
        HandRank::HighCard,
        HandRank::OnePair,
        HandRank::TwoPair,
        HandRank::ThreeOfAKind,
        HandRank::Straight,
        HandRank::Flush,
        HandRank::FullHouse,
        HandRank::FourOfAKind,
        HandRank::StraightFlush,
        HandRank::FiveOfAKind,
        HandRank::FlushHouse,
        HandRank::FlushFive,
    ];
    for (i, a) in ranks.iter().enumerate() {
        for (j, b) in ranks.iter().enumerate() {
            if i != j {
                assert_ne!(hand_rank_to_api_key(*a), hand_rank_to_api_key(*b));
            }
        }
    }
}

#[test]
fn card_chips_follow_the_rank() {
    let expected = [
        (Value::Two, 2),
        (Value::Three, 3),
        (Value::Four, 4),
        (Value::Five, 5),
        (Value::Six, 6),
        (Value::Seven, 7),
        (Value::Eight, 8),
        (Value::Nine, 9),
        (Value::Ten, 10),
        (Value::Jack, 10),
        (Value::Queen, 10),
        (Value::King, 10),
        (Value::Ace, 11),
    ];
    for (value, chips) in expected {
        assert_eq!(card_chips(&Card { value, suit: Suit::Club }), chips);
        assert_eq!(card_chips(&Card { value, suit: Suit::Heart }), chips);
    }
}

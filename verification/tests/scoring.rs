use balatro_ai::{
    evaluate_combo, find_best_balatro_hand, find_best_hand, remaining_deck, rollout_once,
    rollout_with_draw, score_hand, scores_fit_within, ApiCard, Card, CardCost, CardModifier, CardState, CardValue, HandData,
    HandRank, ScoreTable, Suit, Value,
};
use rand::rngs::SmallRng;
use rand::SeedableRng;

fn card(value: Value, suit: Suit) -> Card {
    Card { value, suit }
}

fn level(order: u64, chips: u64, mult: u64) -> HandData {
    HandData { order, level: 1, chips, mult, played: 0, played_this_round: 0 }
}

fn table() -> ScoreTable {
    let mut t = ScoreTable::new();
    t.insert(String::from("High Card"), level(12, 5, 1));
    t.insert(String::from("Pair"), level(11, 10, 2));
    t.insert(String::from("Two Pair"), level(10, 20, 2));
    t.insert(String::from("Three of a Kind"), level(9, 30, 3));
    t.insert(String::from("Straight"), level(8, 30, 4));
    t.insert(String::from("Flush"), level(7, 35, 4));
    t.insert(String::from("Full House"), level(6, 40, 4));
    t.insert(String::from("Four of a Kind"), level(5, 60, 7));
    t.insert(String::from("Straight Flush"), level(4, 100, 8));
    t.insert(String::from("Five of a Kind"), level(3, 120, 12));
    t.insert(String::from("Flush House"), level(2, 140, 14));
    t.insert(String::from("Flush Five"), level(1, 160, 16));
    t
}

fn api_card(rank: Option<&str>, suit: Option<&str>) -> ApiCard {
    ApiCard {
        id: 0,
        key: String::new(),
        set: String::new(),
        label: String::new(),
        value: CardValue { suit: suit.map(String::from), rank: rank.map(String::from), effect: String::new() },
        modifier: CardModifier::default(),
        state: CardState::default(),
        cost: CardCost::default(),
    }
}

#[test]
fn score_table_insert_and_get() {
    let mut t = ScoreTable::new();
    assert!(t.get("Pair").is_none());
    t.insert(String::from("Pair"), level(1, 10, 2));
    t.insert(String::from("Flush"), level(2, 35, 4));
    assert_eq!(t.get("Pair"), Some(&level(1, 10, 2)));
    assert_eq!(t.get("Flush"), Some(&level(2, 35, 4)));
    assert!(t.get("pair").is_none());
    t.insert(String::from("Pair"), level(1, 25, 3));
    assert_eq!(t.get("Pair"), Some(&level(1, 25, 3)));
    assert_eq!(t.entries().len(), 2);
}

#[test]
fn pair_of_kings_scores() {
    let cards = [
        card(Value::King, Suit::Heart),
        card(Value::King, Suit::Spade),
        card(Value::Two, Suit::Diamond),
        card(Value::Five, Suit::Club),
        card(Value::Nine, Suit::Heart),
    ];
    // chips 10 + 10 + 2 + 5 + 9 = 36, plus 10 for a pair, times 2
    assert_eq!(evaluate_combo(&cards, &table()), Some((92, HandRank::OnePair)));
}

#[test]
fn flush_scores() {
    let cards = [
        card(Value::Two, Suit::Heart),
        card(Value::Seven, Suit::Heart),
        card(Value::Nine, Suit::Heart),
        card(Value::Jack, Suit::Heart),
        card(Value::Ace, Suit::Heart),
    ];
    // (2 + 7 + 9 + 10 + 11 + 35) * 4
    assert_eq!(evaluate_combo(&cards, &table()), Some((296, HandRank::Flush)));
}

#[test]
fn royal_flush_uses_straight_flush_level() {
    let cards = [
        card(Value::Ten, Suit::Spade),
        card(Value::Jack, Suit::Spade),
        card(Value::Queen, Suit::Spade),
        card(Value::King, Suit::Spade),
        card(Value::Ace, Suit::Spade),
    ];
    // (10 + 10 + 10 + 10 + 11 + 100) * 8
    assert_eq!(evaluate_combo(&cards, &table()), Some((1208, HandRank::RoyalFlush)));
}

#[test]
fn fewer_cards_score_too() {
    let cards = [card(Value::Ace, Suit::Club)];
    assert_eq!(evaluate_combo(&cards, &table()), Some((16, HandRank::HighCard)));
}

#[test]
fn no_score_without_level() {
    let mut t = ScoreTable::new();
    t.insert(String::from("High Card"), level(1, 5, 1));
    let cards = [card(Value::King, Suit::Heart), card(Value::King, Suit::Spade)];
    assert_eq!(evaluate_combo(&cards, &t), None);
}

#[test]
fn no_score_for_empty_or_oversized_selection() {
    assert_eq!(evaluate_combo(&[], &table()), None);
    let six = [card(Value::Two, Suit::Club); 6];
    assert_eq!(evaluate_combo(&six, &table()), None);
}

fn seven_cards() -> Vec<Card> {
    vec![
        card(Value::King, Suit::Heart),
        card(Value::King, Suit::Spade),
        card(Value::King, Suit::Diamond),
        card(Value::Two, Suit::Club),
        card(Value::Three, Suit::Club),
        card(Value::Four, Suit::Heart),
        card(Value::Nine, Suit::Spade),
    ]
}

#[test]
fn best_of_seven_cards() {
    // three kings with the four and the nine: (30 + 4 + 9 + 30) * 3
    assert_eq!(find_best_balatro_hand(&seven_cards(), &table()), (219, HandRank::ThreeOfAKind));
}

#[test]
fn best_of_too_few_cards() {
    let cards = &seven_cards()[..4];
    assert_eq!(find_best_balatro_hand(cards, &table()), (0, HandRank::HighCard));
}

#[test]
fn best_hand_positions() {
    let mut hand: Vec<ApiCard> = vec![
        api_card(Some("K"), Some("H")),
        api_card(Some("K"), Some("S")),
        api_card(Some("K"), Some("D")),
        api_card(Some("2"), Some("C")),
        api_card(Some("3"), Some("C")),
        api_card(Some("4"), Some("H")),
        api_card(Some("9"), Some("S")),
    ];
    hand.push(api_card(None, None));
    let (indices, score) = find_best_hand(&hand, &table());
    assert_eq!(score, 219);
    assert_eq!(indices, vec![0, 1, 2, 5, 6]);
}

#[test]
fn best_hand_first_positions_when_nothing_scores() {
    let hand = vec![api_card(Some("K"), Some("H")), api_card(None, Some("S")), api_card(Some("2"), Some("C"))];
    assert_eq!(find_best_hand(&hand, &table()), (vec![0, 1, 2], 0));
    let hand: Vec<ApiCard> = (0..6).map(|_| api_card(None, None)).collect();
    assert_eq!(find_best_hand(&hand, &table()), (vec![0, 1, 2, 3, 4], 0));
}

#[test]
fn best_hand_keeps_first_of_equal_scores() {
    // two flushes of equal chips: the first positions win
    let hand = vec![
        api_card(Some("2"), Some("H")),
        api_card(Some("3"), Some("H")),
        api_card(Some("4"), Some("H")),
        api_card(Some("6"), Some("H")),
        api_card(Some("8"), Some("H")),
        api_card(Some("8"), Some("D")),
    ];
    let (indices, score) = find_best_hand(&hand, &table());
    // pair of eights (8 + 8 + 6 + 4 + 3 + 10) * 2 = 78 loses to the flush (23 + 35) * 4 = 232
    assert_eq!(score, 232);
    assert_eq!(indices, vec![0, 1, 2, 3, 4]);
}

#[test]
fn remaining_deck_of_empty_hand() {
    let deck = remaining_deck(&[]);
    assert_eq!(deck.len(), 52);
    assert_eq!(deck[0], card(Value::Two, Suit::Spade));
    assert_eq!(deck[12], card(Value::Ace, Suit::Spade));
    assert_eq!(deck[13], card(Value::Two, Suit::Club));
    assert_eq!(deck[51], card(Value::Ace, Suit::Diamond));
}

#[test]
fn remaining_deck_takes_out_hand_cards() {
    let hand = vec![
        api_card(Some("2"), Some("S")),
        api_card(Some("2"), Some("S")),
        api_card(None, Some("H")),
        api_card(Some("K"), Some("H")),
    ];
    let deck = remaining_deck(&hand);
    assert_eq!(deck.len(), 50);
    // the ace of diamonds took the place of the two of spades
    assert_eq!(deck[0], card(Value::Ace, Suit::Diamond));
    // the king of diamonds took the place of the king of hearts
    assert_eq!(deck[37], card(Value::King, Suit::Diamond));
    assert!(!deck.contains(&card(Value::Two, Suit::Spade)));
    assert!(!deck.contains(&card(Value::King, Suit::Heart)));
    assert!(deck.contains(&card(Value::Queen, Suit::Diamond)));
}

fn five_hand() -> Vec<Card> {
    vec![
        card(Value::Two, Suit::Spade),
        card(Value::Three, Suit::Heart),
        card(Value::King, Suit::Heart),
        card(Value::King, Suit::Spade),
        card(Value::Seven, Suit::Diamond),
    ]
}

#[test]
fn rollout_with_known_draw() {
    let drawn = [card(Value::King, Suit::Diamond), card(Value::Nine, Suit::Club)];
    // discarding positions 1 and 0 keeps the two kings and the seven:
    // K K K 7 9 scores (30 + 7 + 9 + 30) * 3 = 228
    assert_eq!(rollout_with_draw(&five_hand(), &drawn, 200, &table(), &[1, 0]), Some(HandRank::ThreeOfAKind));
    assert_eq!(rollout_with_draw(&five_hand(), &drawn, 228, &table(), &[1, 0]), Some(HandRank::ThreeOfAKind));
    assert_eq!(rollout_with_draw(&five_hand(), &drawn, 229, &table(), &[1, 0]), None);
}

#[test]
fn rollout_discards_largest_position_first() {
    let drawn = [card(Value::King, Suit::Diamond), card(Value::Nine, Suit::Club)];
    // positions 4 and 0 (given out of order) drop the seven and the two:
    // K K 3 K 9 scores (30 + 3 + 9 + 30) * 3 = 216
    assert_eq!(rollout_with_draw(&five_hand(), &drawn, 216, &table(), &[4, 0]), Some(HandRank::ThreeOfAKind));
    assert_eq!(rollout_with_draw(&five_hand(), &drawn, 217, &table(), &[4, 0]), None);
}

#[test]
fn rollout_without_discards() {
    assert_eq!(rollout_with_draw(&five_hand(), &[], 0, &table(), &[]), Some(HandRank::OnePair));
}

#[test]
fn rollout_needs_enough_cards_in_deck() {
    let mut rng = SmallRng::seed_from_u64(7);
    let deck = [card(Value::Ace, Suit::Club)];
    assert_eq!(rollout_once(&five_hand(), &deck, 0, &table(), &[0, 1], &mut rng), None);
}

#[test]
fn rollout_draws_exactly_the_discarded_count() {
    // any three of these four kings join the king of hearts: four of a kind,
    // never five (which a fourth drawn king would make)
    let hand = vec![
        card(Value::Two, Suit::Spade),
        card(Value::Three, Suit::Heart),
        card(Value::Seven, Suit::Diamond),
        card(Value::Eight, Suit::Club),
        card(Value::King, Suit::Heart),
    ];
    let deck = [
        card(Value::King, Suit::Spade),
        card(Value::King, Suit::Diamond),
        card(Value::King, Suit::Club),
        card(Value::King, Suit::Club),
    ];
    for seed in 0..20u64 {
        let mut rng = SmallRng::seed_from_u64(seed);
        assert_eq!(rollout_once(&hand, &deck, 0, &table(), &[0, 1, 2], &mut rng), Some(HandRank::FourOfAKind));
    }
}

#[test]
fn rollout_target_out_of_reach() {
    let mut rng = SmallRng::seed_from_u64(3);
    let deck = remaining_deck(&[]);
    assert_eq!(rollout_once(&five_hand(), &deck, u64::MAX, &table(), &[0, 1], &mut rng), None);
}

#[test]
fn levels_fit_check() {
    assert!(scores_fit_within(&table(), 55));
    let mut t = ScoreTable::new();
    t.insert(String::from("Pair"), level(1, 10, u64::MAX / 64));
    assert!(scores_fit_within(&t, 0));
    assert!(!scores_fit_within(&t, 55));
    let mut t = ScoreTable::new();
    t.insert(String::from("Flush"), level(1, u64::MAX - 10, 1));
    assert!(scores_fit_within(&t, 10));
    assert!(!scores_fit_within(&t, 11));
    t.insert(String::from("Unrelated"), level(1, u64::MAX, u64::MAX));
    assert!(scores_fit_within(&t, 10));
}

#[test]
fn score_hand_from_given_rank() {
    let cards = [card(Value::King, Suit::Heart), card(Value::King, Suit::Spade), card(Value::Two, Suit::Club)];
    // (10 + 10 + 2 + 10) * 2
    assert_eq!(score_hand(&cards, HandRank::OnePair, &table()), Some(64));
    // the level does not depend on the cards: (22 + 160) * 16
    assert_eq!(score_hand(&cards, HandRank::FlushFive, &table()), Some(2912));
    assert_eq!(score_hand(&[], HandRank::HighCard, &table()), Some(5));
    assert_eq!(score_hand(&cards, HandRank::OnePair, &ScoreTable::new()), None);
}

#[test]
fn best_hand_agrees_with_best_play_of_known_cards() {
    let hand: Vec<ApiCard> = vec![
        api_card(Some("K"), Some("H")),
        api_card(Some("K"), Some("S")),
        api_card(Some("K"), Some("D")),
        api_card(Some("2"), Some("C")),
        api_card(Some("3"), Some("C")),
        api_card(Some("4"), Some("H")),
        api_card(Some("9"), Some("S")),
    ];
    let (_, score) = find_best_hand(&hand, &table());
    let (best, rank) = find_best_balatro_hand(&seven_cards(), &table());
    assert_eq!(score, best);
    assert_eq!(rank, HandRank::ThreeOfAKind);
}

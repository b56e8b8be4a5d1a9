use balatro_ai::{
    count_wins, discard_candidates, evaluate_combo, find_best_hand_checked, next_move,
    pick_discard, remaining_deck, rollout_once_checked, ApiCard, Card, CardCost, CardModifier,
    CardState, CardValue, HandData, HandRank, Move, ScoreOverflow, ScoreTable, Suit, Value,
};
use rand::rngs::SmallRng;
use rand::SeedableRng;

fn card(value: Value, suit: Suit) -> Card {
    Card { value, suit }
}

fn level(chips: u64, mult: u64) -> HandData {
    HandData { order: 1, level: 1, chips, mult, played: 0, played_this_round: 0 }
}

fn small_table() -> ScoreTable {
    let mut t = ScoreTable::new();
    t.insert(String::from("High Card"), level(5, 1));
    t.insert(String::from("Pair"), level(10, 2));
    t.insert(String::from("Three of a Kind"), level(30, 3));
    t.insert(String::from("Four of a Kind"), level(60, 7));
    t
}

fn api_card(rank: &str, suit: &str) -> ApiCard {
    ApiCard {
        id: 0,
        key: String::new(),
        set: String::new(),
        label: String::new(),
        value: CardValue { suit: Some(String::from(suit)), rank: Some(String::from(rank)), effect: String::new() },
        modifier: CardModifier::default(),
        state: CardState::default(),
        cost: CardCost::default(),
    }
}

#[test]
fn unused_huge_level_does_not_block_scoring() {
    let mut t = small_table();
    t.insert(String::from("Flush Five"), level(u64::MAX, u64::MAX));
    let cards = [
        card(Value::King, Suit::Heart),
        card(Value::King, Suit::Spade),
        card(Value::Two, Suit::Diamond),
        card(Value::Five, Suit::Club),
        card(Value::Nine, Suit::Heart),
    ];
    assert_eq!(evaluate_combo(&cards, &t), Some((92, HandRank::OnePair)));
}

#[test]
fn checked_search_reports_overflow() {
    let hand = vec![api_card("K", "H"), api_card("K", "S"), api_card("2", "D"), api_card("5", "C"), api_card("9", "H")];
    let mut t = small_table();
    t.insert(String::from("Flush Five"), level(u64::MAX, u64::MAX));
    assert_eq!(find_best_hand_checked(&hand, &t), Ok((vec![0, 1, 2, 3, 4], 92)));
    t.insert(String::from("Pair"), level(10, u64::MAX));
    assert_eq!(find_best_hand_checked(&hand, &t), Err(ScoreOverflow));
}

#[test]
fn moves_follow_the_score_and_the_discards() {
    assert_eq!(next_move(300, 300, 0, None), Move::Play);
    assert_eq!(next_move(300, 300, 3, Some(vec![1])), Move::Play);
    assert_eq!(next_move(100, 300, 2, Some(vec![0, 4])), Move::Discard(vec![0, 4]));
    assert_eq!(next_move(100, 300, 2, None), Move::PlayAnyway);
    assert_eq!(next_move(100, 300, 0, Some(vec![0])), Move::GiveUp);
    assert_eq!(next_move(100, 300, 0, None), Move::GiveUp);
}

#[test]
fn first_discard_with_most_wins() {
    let results = vec![(vec![0], 3), (vec![1], 7), (vec![2], 7), (vec![0, 1], 5)];
    assert_eq!(pick_discard(&results), Some(1));
    let none = vec![(vec![0], 0), (vec![1], 0)];
    assert_eq!(pick_discard(&none), None);
    assert_eq!(pick_discard(&[]), None);
}

#[test]
fn candidates_by_size_then_lexicographic() {
    let c = discard_candidates(3);
    assert_eq!(c, vec![vec![0], vec![1], vec![2], vec![0, 1], vec![0, 2], vec![1, 2], vec![0, 1, 2]]);
    assert_eq!(discard_candidates(0), Vec::<Vec<usize>>::new());
    // 8 + 28 + 56 + 70 + 56
    assert_eq!(discard_candidates(8).len(), 218);
    assert_eq!(discard_candidates(8).last(), Some(&vec![3, 4, 5, 6, 7]));
}

fn low_hand() -> Vec<Card> {
    vec![
        card(Value::Two, Suit::Spade),
        card(Value::Three, Suit::Heart),
        card(Value::Seven, Suit::Diamond),
        card(Value::Eight, Suit::Club),
        card(Value::King, Suit::Heart),
    ]
}

#[test]
fn wins_counted_per_hand() {
    let deck = [
        card(Value::King, Suit::Spade),
        card(Value::King, Suit::Diamond),
        card(Value::King, Suit::Club),
        card(Value::King, Suit::Club),
    ];
    let mut rng = SmallRng::seed_from_u64(11);
    let (wins, tally) = count_wins(&low_hand(), &deck, 1, &small_table(), &[0, 1, 2], &mut rng, 10).unwrap();
    assert_eq!(wins, 10);
    assert_eq!(tally, vec![(HandRank::FourOfAKind, 10)]);
}

#[test]
fn no_wins_when_deck_is_short() {
    let deck = [card(Value::King, Suit::Spade)];
    let mut rng = SmallRng::seed_from_u64(1);
    let (wins, tally) = count_wins(&low_hand(), &deck, 0, &small_table(), &[0, 1], &mut rng, 100).unwrap();
    assert_eq!(wins, 0);
    assert!(tally.is_empty());
}

#[test]
fn zero_target_always_wins() {
    let deck = remaining_deck(&[]);
    let mut rng = SmallRng::seed_from_u64(5);
    let (wins, tally) = count_wins(&low_hand(), &deck, 0, &small_table(), &[0, 4], &mut rng, 50).unwrap();
    assert_eq!(wins, 50);
    assert_eq!(tally.iter().map(|e| e.1).sum::<u64>(), 50);
}

#[test]
fn checked_rollout_reports_overflow() {
    let deck = [card(Value::King, Suit::Spade), card(Value::King, Suit::Diamond)];
    let mut t = small_table();
    let mut rng = SmallRng::seed_from_u64(2);
    assert_eq!(rollout_once_checked(&low_hand(), &deck, 0, &t, &[0, 1], &mut rng), Ok(Some(HandRank::ThreeOfAKind)));
    t.insert(String::from("Three of a Kind"), level(30, u64::MAX));
    let mut rng = SmallRng::seed_from_u64(2);
    assert_eq!(rollout_once_checked(&low_hand(), &deck, 0, &t, &[0, 1], &mut rng), Err(ScoreOverflow));
    let mut rng = SmallRng::seed_from_u64(2);
    assert_eq!(count_wins(&low_hand(), &deck, 0, &t, &[0, 1], &mut rng, 3), Err(ScoreOverflow));
}

#[test]
fn unreachable_target_counts_no_wins() {
    let deck = remaining_deck(&[]);
    let mut rng = SmallRng::seed_from_u64(9);
    let (wins, tally) = count_wins(&low_hand(), &deck, u64::MAX, &small_table(), &[0, 1], &mut rng, 20).unwrap();
    assert_eq!(wins, 0);
    assert!(tally.is_empty());
}

#[test]
fn ranks_values_and_suits_are_ordered() {
    assert!(Value::Two < Value::Three && Value::King < Value::Ace);
    assert!(Suit::Spade < Suit::Club && Suit::Heart < Suit::Diamond);
    assert!(HandRank::HighCard < HandRank::OnePair && HandRank::FlushHouse < HandRank::FlushFive);
    assert!(HandRank::StraightFlush < HandRank::RoyalFlush);
    assert!(card(Value::Two, Suit::Diamond) < card(Value::Three, Suit::Spade));
}

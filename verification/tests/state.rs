use std::collections::HashMap;

use balatro_ai::{
    convert_card, current_blind_name, current_blind_score, hand_cards, ApiCard, Area, BlindInfo,
    Blinds, Card, CardCost, CardModifier, CardState, CardValue, GameState, RoundInfo, ScoreTable,
    Suit, Value,
};

fn api_card(id: u64, rank: Option<&str>, suit: Option<&str>) -> ApiCard {
    ApiCard {
        id,
        key: String::new(),
        set: String::from("DEFAULT"),
        label: String::from("Base Card"),
        value: CardValue {
            suit: suit.map(String::from),
            rank: rank.map(String::from),
            effect: String::new(),
        },
        modifier: CardModifier::default(),
        state: CardState::default(),
        cost: CardCost::default(),
    }
}

fn blind(status: &str, score: u64) -> BlindInfo {
    let mut b = BlindInfo::default();
    b.status = String::from(status);
    b.score = score;
    b
}

fn state_with_hand(hand: Option<Area>) -> GameState {
    GameState {
        state: String::from("SELECTING_HAND"),
        round_num: 1,
        ante_num: 1,
        money: 4,
        won: None,
        deck: None,
        stake: Some(String::from("WHITE")),
        seed: None,
        used_vouchers: HashMap::new(),
        hands: ScoreTable::new(),
        round: RoundInfo::default(),
        blinds: Blinds::default(),
        jokers: None,
        consumables: None,
        hand,
        cards: None,
        shop: None,
        vouchers: None,
        packs: None,
        pack: None,
    }
}

#[test]
fn convert_known_card() {
    let c = api_card(1, Some("Q"), Some("H"));
    assert_eq!(convert_card(&c), Some(Card { value: Value::Queen, suit: Suit::Heart }));
    let c = api_card(2, Some("T"), Some("C"));
    assert_eq!(convert_card(&c), Some(Card { value: Value::Ten, suit: Suit::Club }));
}

#[test]
fn convert_card_without_rank_or_suit() {
    assert_eq!(convert_card(&api_card(1, None, Some("H"))), None);
    assert_eq!(convert_card(&api_card(1, Some("Q"), None)), None);
    assert_eq!(convert_card(&api_card(1, None, None)), None);
}

#[test]
fn convert_card_with_unknown_labels() {
    assert_eq!(convert_card(&api_card(1, Some("10"), Some("H"))), None);
    assert_eq!(convert_card(&api_card(1, Some("Q"), Some("X"))), None);
}

#[test]
fn hand_cards_of_hand_area() {
    let area = Area {
        count: 2,
        limit: 8,
        highlighted_limit: Some(5),
        cards: vec![api_card(7, Some("2"), Some("S")), api_card(8, Some("A"), Some("D"))],
    };
    let state = state_with_hand(Some(area));
    let cards = hand_cards(&state);
    assert_eq!(cards.len(), 2);
    assert_eq!(cards[0].id, 7);
    assert_eq!(cards[1].id, 8);
}

#[test]
fn hand_cards_only_while_selecting_a_hand() {
    let area = Area {
        count: 1,
        limit: 8,
        highlighted_limit: Some(5),
        cards: vec![api_card(7, Some("2"), Some("S"))],
    };
    let mut state = state_with_hand(Some(area));
    state.state = String::from("SHOP");
    assert!(hand_cards(&state).is_empty());
    state.state = String::from("SELECTING_HAND");
    assert_eq!(hand_cards(&state).len(), 1);
}

#[test]
fn hand_cards_without_hand_area() {
    let state = state_with_hand(None);
    assert!(hand_cards(&state).is_empty());
}

#[test]
fn small_blind_in_play() {
    let blinds = Blinds { small: blind("CURRENT", 300), big: blind("UPCOMING", 450), boss: blind("UPCOMING", 600) };
    assert_eq!(current_blind_score(&blinds), 300);
    assert_eq!(current_blind_name(&blinds), "small blind");
}

#[test]
fn big_blind_in_play() {
    let blinds = Blinds { small: blind("DEFEATED", 300), big: blind("CURRENT", 450), boss: blind("UPCOMING", 600) };
    assert_eq!(current_blind_score(&blinds), 450);
    assert_eq!(current_blind_name(&blinds), "big blind");
}

#[test]
fn boss_blind_when_no_other_is_current() {
    let blinds = Blinds { small: blind("DEFEATED", 300), big: blind("SKIPPED", 450), boss: blind("CURRENT", 600) };
    assert_eq!(current_blind_score(&blinds), 600);
    assert_eq!(current_blind_name(&blinds), "boss blind");
    let none = Blinds::default();
    assert_eq!(current_blind_score(&none), 0);
    assert_eq!(current_blind_name(&none), "boss blind");
}

#[test]
fn small_blind_wins_when_both_are_current() {
    let blinds = Blinds { small: blind("CURRENT", 300), big: blind("CURRENT", 450), boss: blind("CURRENT", 600) };
    assert_eq!(current_blind_score(&blinds), 300);
    assert_eq!(current_blind_name(&blinds), "small blind");
}

#[test]
fn status_must_match_exactly() {
    let blinds = Blinds { small: blind("current", 300), big: blind("CURRENT ", 450), boss: blind("", 600) };
    assert_eq!(current_blind_score(&blinds), 600);
    assert_eq!(current_blind_name(&blinds), "boss blind");
}

#[test]
fn defaults_are_empty() {
    let m = CardModifier::default();
    assert!(m.seal.is_none() && m.edition.is_none() && m.enhancement.is_none());
    assert!(m.eternal.is_none() && m.perishable.is_none() && m.rental.is_none());
    let s = CardState::default();
    assert!(s.debuff.is_none() && s.hidden.is_none() && s.highlight.is_none());
    let c = CardCost::default();
    assert_eq!((c.sell, c.buy), (0, 0));
    let v = CardValue::default();
    assert!(v.suit.is_none() && v.rank.is_none() && v.effect.is_empty());
    let r = RoundInfo::default();
    assert!(r.hands_left.is_none() && r.discards_left.is_none() && r.chips.is_none());
}

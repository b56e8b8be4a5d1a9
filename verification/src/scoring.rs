use vstd::prelude::*;

use crate::cards::{
    api_key, card_chips, chips_of, hand_rank_position, hand_rank_to_api_key, Card, HandRank, Suit, Value,
};
use crate::outside::{best_hand_code, best_hand_of_codes};
use crate::scores::{HandData, ScoreTable};

verus! {

/// The position of a value in the order two, three, ..., king, ace.
pub open spec fn value_code(v: Value) -> u8 {
    match v {
        Value::Two => 0,
        Value::Three => 1,
        Value::Four => 2,
        Value::Five => 3,
        Value::Six => 4,
        Value::Seven => 5,
        Value::Eight => 6,
        Value::Nine => 7,
        Value::Ten => 8,
        Value::Jack => 9,
        Value::Queen => 10,
        Value::King => 11,
        Value::Ace => 12,
    }
}

/// The position of a suit in the order spade, club, heart, diamond.
pub open spec fn suit_code(s: Suit) -> u8 {
    match s {
        Suit::Spade => 0,
        Suit::Club => 1,
        Suit::Heart => 2,
        Suit::Diamond => 3,
    }
}

/// A card as the pair of the positions of its value and its suit.
pub open spec fn card_code(c: Card) -> (u8, u8) {
    (value_code(c.value), suit_code(c.suit))
}

/// The hand rank at a position of the order high card, pair, ..., flush five.
pub open spec fn rank_at(code: u8) -> HandRank {
    if code == 0 {
        HandRank::HighCard
    } else if code == 1 {
        HandRank::OnePair
    } else if code == 2 {
        HandRank::TwoPair
    } else if code == 3 {
        HandRank::ThreeOfAKind
    } else if code == 4 {
        HandRank::Straight
    } else if code == 5 {
        HandRank::Flush
    } else if code == 6 {
        HandRank::FullHouse
    } else if code == 7 {
        HandRank::FourOfAKind
    } else if code == 8 {
        HandRank::StraightFlush
    } else if code == 9 {
        HandRank::RoyalFlush
    } else if code == 10 {
        HandRank::FiveOfAKind
    } else if code == 11 {
        HandRank::FlushHouse
    } else {
        HandRank::FlushFive
    }
}

/// The best poker hand that balatro-rs finds among `cards`, if it finds one.
pub open spec fn made_hand_rank(cards: Seq<Card>) -> Option<HandRank> {
    match best_hand_code(cards.map_values(|c: Card| card_code(c))) {
        Some(code) => Some(rank_at(code)),
        None => None,
    }
}

/// The chips that the cards add up to.
pub open spec fn chips_sum(cards: Seq<Card>) -> nat
    decreases cards.len(),
{
    if cards.len() == 0 {
        0
    } else {
        chips_sum(cards.drop_last()) + chips_of(cards.last().value)
    }
}

/// Scoring cards worth `sum` chips with the level of any hand rank that the
/// table holds (under the rank's API key) stays within `u64`.
pub open spec fn scores_fit(scores: Map<Seq<char>, HandData>, sum: nat) -> bool {
    forall|r: HandRank| #[trigger] scores.contains_key(api_key(r)) ==> {
        &&& sum + scores[api_key(r)].chips <= u64::MAX
        &&& (sum + scores[api_key(r)].chips) * scores[api_key(r)].mult <= u64::MAX
    }
}

/// The score of playing `cards` as the hand `rank`: (chips of the cards plus
/// the hand's chips) times the hand's mult, with the level stored under the
/// hand's API key. Nothing when the table has no level for the hand.
pub open spec fn hand_score(cards: Seq<Card>, rank: HandRank, scores: Map<Seq<char>, HandData>) -> Option<u64> {
    if scores.contains_key(api_key(rank)) {
        let d = scores[api_key(rank)];
        Some(((chips_sum(cards) + d.chips) * d.mult) as u64)
    } else {
        None
    }
}

/// The score of playing `cards`, with the hand they make. Nothing when no hand
/// is made or the table has no level for it.
pub open spec fn combo_value(cards: Seq<Card>, scores: Map<Seq<char>, HandData>) -> Option<(u64, HandRank)> {
    match made_hand_rank(cards) {
        Some(rank) => match hand_score(cards, rank, scores) {
            Some(total) => Some((total, rank)),
            None => None,
        },
        None => None,
    }
}

/// Scoring `cards` as the hand they make stays within `u64`: the level of that
/// hand, if the table has one, fits the cards' chips.
pub open spec fn combo_fits(cards: Seq<Card>, scores: Map<Seq<char>, HandData>) -> bool {
    match made_hand_rank(cards) {
        Some(rank) => rank_fits(scores, chips_sum(cards), rank),
        None => true,
    }
}

/// A table that fits `sum` chips under every level fits any cards worth `sum`.
pub proof fn lemma_combo_fits(cards: Seq<Card>, scores: Map<Seq<char>, HandData>)
    requires
        scores_fit(scores, chips_sum(cards)),
    ensures
        combo_fits(cards, scores),
{
    match made_hand_rank(cards) {
        Some(rank) => {
            if scores.contains_key(api_key(rank)) {
                assert(rank_fits(scores, chips_sum(cards), rank));
            }
        },
        None => {},
    }
}

/// The chips of a prefix never exceed the chips of the whole list.
pub proof fn lemma_chips_sum_prefix(cards: Seq<Card>, i: int)
    requires
        0 <= i <= cards.len(),
    ensures
        chips_sum(cards.subrange(0, i)) <= chips_sum(cards),
    decreases cards.len() - i,
{
    if i < cards.len() {
        lemma_chips_sum_prefix(cards, i + 1);
        assert(cards.subrange(0, i + 1).drop_last() =~= cards.subrange(0, i));
    } else {
        assert(cards.subrange(0, i) =~= cards);
    }
}

/// No card is worth more than eleven chips.
pub proof fn lemma_chips_sum_bound(cards: Seq<Card>)
    ensures
        chips_sum(cards) <= 11 * cards.len(),
    decreases cards.len(),
{
    if cards.len() > 0 {
        lemma_chips_sum_bound(cards.drop_last());
    }
}

/// Fewer chips fit wherever more chips fit.
pub proof fn lemma_scores_fit_smaller(scores: Map<Seq<char>, HandData>, small: nat, large: nat)
    requires
        small <= large,
        scores_fit(scores, large),
    ensures
        scores_fit(scores, small),
{
    assert forall|r: HandRank| #[trigger] scores.contains_key(api_key(r)) implies {
        &&& small + scores[api_key(r)].chips <= u64::MAX
        &&& (small + scores[api_key(r)].chips) * scores[api_key(r)].mult <= u64::MAX
    } by {
        let c = scores[api_key(r)].chips as int;
        let m = scores[api_key(r)].mult as int;
        assert((small + c) * m <= (large + c) * m) by (nonlinear_arith)
            requires
                small <= large,
                0 <= m,
        ;
    }
}

fn value_code_of(v: Value) -> (code: u8)
    ensures
        code == value_code(v),
{
    match v {
        Value::Two => 0,
        Value::Three => 1,
        Value::Four => 2,
        Value::Five => 3,
        Value::Six => 4,
        Value::Seven => 5,
        Value::Eight => 6,
        Value::Nine => 7,
        Value::Ten => 8,
        Value::Jack => 9,
        Value::Queen => 10,
        Value::King => 11,
        Value::Ace => 12,
    }
}

fn suit_code_of(s: Suit) -> (code: u8)
    ensures
        code == suit_code(s),
{
    match s {
        Suit::Spade => 0,
        Suit::Club => 1,
        Suit::Heart => 2,
        Suit::Diamond => 3,
    }
}

fn rank_of_code(code: u8) -> (rank: HandRank)
    ensures
        rank == rank_at(code),
{
    if code == 0 {
        HandRank::HighCard
    } else if code == 1 {
        HandRank::OnePair
    } else if code == 2 {
        HandRank::TwoPair
    } else if code == 3 {
        HandRank::ThreeOfAKind
    } else if code == 4 {
        HandRank::Straight
    } else if code == 5 {
        HandRank::Flush
    } else if code == 6 {
        HandRank::FullHouse
    } else if code == 7 {
        HandRank::FourOfAKind
    } else if code == 8 {
        HandRank::StraightFlush
    } else if code == 9 {
        HandRank::RoyalFlush
    } else if code == 10 {
        HandRank::FiveOfAKind
    } else if code == 11 {
        HandRank::FlushHouse
    } else {
        HandRank::FlushFive
    }
}

fn card_codes(cards: &[Card]) -> (codes: Vec<(u8, u8)>)
    ensures
        codes@ == cards@.map_values(|c: Card| card_code(c)),
        forall|i: int| 0 <= i < codes.len() ==> #[trigger] codes[i].0 < 13 && codes[i].1 < 4,
{
    let mut codes: Vec<(u8, u8)> = Vec::new();
    let mut i: usize = 0;
    while i < cards.len()
        invariant
            i <= cards.len(),
            codes@ == cards@.subrange(0, i as int).map_values(|c: Card| card_code(c)),
            forall|j: int| 0 <= j < codes.len() ==> #[trigger] codes[j].0 < 13 && codes[j].1 < 4,
        decreases cards.len() - i,
    {
        let c = cards[i];
        codes.push((value_code_of(c.value), suit_code_of(c.suit)));
        assert(cards@.subrange(0, i + 1).map_values(|c: Card| card_code(c)) =~= cards@.subrange(
            0,
            i as int,
        ).map_values(|c: Card| card_code(c)).push(card_code(c)));
        i = i + 1;
    }
    assert(cards@.subrange(0, cards.len() as int) =~= cards@);
    codes
}

/// Scoring a hand would leave `u64`: (chips plus the level's chips) times
/// the level's mult does not fit.
#[derive(Debug, Clone, Copy, PartialEq, Eq, Structural)]
pub struct ScoreOverflow;

fn chips_total(cards: &[Card]) -> (total: u64)
    requires
        chips_sum(cards@) <= u64::MAX,
    ensures
        total == chips_sum(cards@),
{
    let mut total: u64 = 0;
    let mut i: usize = 0;
    while i < cards.len()
        invariant
            i <= cards.len(),
            total == chips_sum(cards@.subrange(0, i as int)),
            chips_sum(cards@) <= u64::MAX,
        decreases cards.len() - i,
    {
        proof {
            lemma_chips_sum_prefix(cards@, i + 1);
            assert(cards@.subrange(0, i + 1).drop_last() =~= cards@.subrange(0, i as int));
        }
        total = total + card_chips(&cards[i]);
        i = i + 1;
    }
    assert(cards@.subrange(0, cards.len() as int) =~= cards@);
    total
}

/// Whether scoring at most five cards as `rank` stays within `u64`.
fn rank_fits_check(cards: &[Card], rank: HandRank, scores: &ScoreTable) -> (fits: bool)
    requires
        cards.len() <= 5,
    ensures
        fits == rank_fits(scores@, chips_sum(cards@), rank),
{
    match scores.get(hand_rank_to_api_key(rank)) {
        None => true,
        Some(d) => {
            proof {
                lemma_chips_sum_bound(cards@);
            }
            let sum = chips_total(cards);
            match sum.checked_add(d.chips) {
                Some(base) => base.checked_mul(d.mult).is_some(),
                None => false,
            }
        },
    }
}

/// Whether scoring at most five cards as the hand they make stays within `u64`.
pub(crate) fn combo_fits_check(cards: &[Card], scores: &ScoreTable) -> (fits: bool)
    requires
        cards.len() <= 5,
    ensures
        fits == combo_fits(cards@, scores@),
{
    let codes = card_codes(cards);
    match best_hand_of_codes(codes.as_slice()) {
        None => true,
        Some(code) => rank_fits_check(cards, rank_of_code(code), scores),
    }
}

/// Scores the cards as the poker hand `rank`: looks up the hand's level in
/// `scores` under its API key and returns (chips of the cards plus the hand's
/// chips) times the hand's mult.
pub fn score_hand(cards: &[Card], rank: HandRank, scores: &ScoreTable) -> (total: Option<u64>)
    requires
        rank_fits(scores@, chips_sum(cards@), rank),
    ensures
        total == hand_score(cards@, rank, scores@),
{
    let key = hand_rank_to_api_key(rank);
    let score = match scores.get(key) {
        Some(score) => score,
        None => return None,
    };
    let total_chips = chips_total(cards);
    let total = (total_chips + score.chips) * score.mult;
    Some(total)
}

/// Scores the cards as one played hand: the best poker hand that balatro-rs
/// finds among them, scored with `score_hand`.
pub fn evaluate_combo(cards: &[Card], scores: &ScoreTable) -> (result: Option<(u64, HandRank)>)
    requires
        combo_fits(cards@, scores@),
    ensures
        result == combo_value(cards@, scores@),
        1 <= cards.len() <= 5 ==> made_hand_rank(cards@) is Some,
        result matches Some(p) ==> best_hand_code(cards@.map_values(|c: Card| card_code(c))) == Some(
            hand_rank_position(p.1),
        ),
{
    let codes = card_codes(cards);
    let code = match best_hand_of_codes(codes.as_slice()) {
        Some(code) => code,
        None => return None,
    };
    let rank = rank_of_code(code);
    match score_hand(cards, rank, scores) {
        Some(total) => Some((total, rank)),
        None => None,
    }
}

/// Checks whether playing cards worth `sum` chips stays within `u64` under
/// every hand level of the table that a hand can be scored with.
pub fn scores_fit_within(scores: &ScoreTable, sum: u64) -> (fits: bool)
    ensures
        fits == scores_fit(scores@, sum as nat),
{
    let ranks = [
        HandRank::HighCard,
        HandRank::OnePair,
        HandRank::TwoPair,
        HandRank::ThreeOfAKind,
        HandRank::Straight,
        HandRank::Flush,
        HandRank::FullHouse,
        HandRank::FourOfAKind,
        HandRank::StraightFlush,
        HandRank::RoyalFlush,
        HandRank::FiveOfAKind,
        HandRank::FlushHouse,
        HandRank::FlushFive,
    ];
    let mut i: usize = 0;
    while i < 13
        invariant
            i <= 13,
            ranks@.len() == 13,
            ranks@ == seq![
                HandRank::HighCard,
                HandRank::OnePair,
                HandRank::TwoPair,
                HandRank::ThreeOfAKind,
                HandRank::Straight,
                HandRank::Flush,
                HandRank::FullHouse,
                HandRank::FourOfAKind,
                HandRank::StraightFlush,
                HandRank::RoyalFlush,
                HandRank::FiveOfAKind,
                HandRank::FlushHouse,
                HandRank::FlushFive,
            ],
            forall|j: int| 0 <= j < i ==> #[trigger] rank_fits(scores@, sum as nat, ranks@[j]),
        decreases 13 - i,
    {
        let rank = ranks[i];
        match scores.get(hand_rank_to_api_key(rank)) {
            Some(d) => {
                let fits = match sum.checked_add(d.chips) {
                    Some(base) => base.checked_mul(d.mult).is_some(),
                    None => false,
                };
                if !fits {
                    assert(!rank_fits(scores@, sum as nat, rank));
                    return false;
                }
            },
            None => {},
        }
        i = i + 1;
    }
    assert forall|r: HandRank| #[trigger] scores@.contains_key(api_key(r)) implies {
        &&& sum + scores@[api_key(r)].chips <= u64::MAX
        &&& (sum + scores@[api_key(r)].chips) * scores@[api_key(r)].mult <= u64::MAX
    } by {
        let j: int = match r {
            HandRank::HighCard => 0,
            HandRank::OnePair => 1,
            HandRank::TwoPair => 2,
            HandRank::ThreeOfAKind => 3,
            HandRank::Straight => 4,
            HandRank::Flush => 5,
            HandRank::FullHouse => 6,
            HandRank::FourOfAKind => 7,
            HandRank::StraightFlush => 8,
            HandRank::RoyalFlush => 9,
            HandRank::FiveOfAKind => 10,
            HandRank::FlushHouse => 11,
            HandRank::FlushFive => 12,
        };
        assert(ranks@[j] == r);
        assert(rank_fits(scores@, sum as nat, ranks@[j]));
    }
    true
}

/// Scoring cards worth `sum` chips with the level of `rank`, if the table has
/// one, stays within `u64`.
pub open spec fn rank_fits(scores: Map<Seq<char>, HandData>, sum: nat, rank: HandRank) -> bool {
    scores.contains_key(api_key(rank)) ==> {
        &&& sum + scores[api_key(rank)].chips <= u64::MAX
        &&& (sum + scores[api_key(rank)].chips) * scores[api_key(rank)].mult <= u64::MAX
    }
}

} // verus!

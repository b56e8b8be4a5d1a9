use vstd::prelude::*;

use crate::text::str_equals;

verus! {

/// The rank of a playing card, from two up to ace.
#[derive(Clone, Copy, PartialEq, Eq, Structural, PartialOrd, Ord, Debug, Hash)]
pub enum Value {
    Two,
    Three,
    Four,
    Five,
    Six,
    Seven,
    Eight,
    Nine,
    Ten,
    Jack,
    Queen,
    King,
    Ace,
}

/// The four suits.
#[derive(Clone, Copy, PartialEq, Eq, Structural, PartialOrd, Ord, Debug, Hash)]
pub enum Suit {
    Spade,
    Club,
    Heart,
    Diamond,
}

/// A plain playing card: a rank and a suit.
#[derive(Clone, Copy, PartialEq, Eq, Structural, PartialOrd, Ord, Debug, Hash)]
pub struct Card {
    pub value: Value,
    pub suit: Suit,
}

/// The poker hands that a selection of at most five cards can make.
#[derive(Clone, Copy, PartialEq, Eq, Structural, PartialOrd, Ord, Debug, Hash)]
pub enum HandRank {
    HighCard,
    OnePair,
    TwoPair,
    ThreeOfAKind,
    Straight,
    Flush,
    FullHouse,
    FourOfAKind,
    StraightFlush,
    RoyalFlush,
    FiveOfAKind,
    FlushHouse,
    FlushFive,
}

/// The position of a hand rank in the declaration of `HandRank`, from high
/// card (0) to flush five (12); balatro-rs declares its hand ranks in the same
/// order.
pub open spec fn hand_rank_position(rank: HandRank) -> u8 {
    match rank {
        HandRank::HighCard => 0,
        HandRank::OnePair => 1,
        HandRank::TwoPair => 2,
        HandRank::ThreeOfAKind => 3,
        HandRank::Straight => 4,
        HandRank::Flush => 5,
        HandRank::FullHouse => 6,
        HandRank::FourOfAKind => 7,
        HandRank::StraightFlush => 8,
        HandRank::RoyalFlush => 9,
        HandRank::FiveOfAKind => 10,
        HandRank::FlushHouse => 11,
        HandRank::FlushFive => 12,
    }
}

/// The rank named by a one-character label of the game's API ("2".."9", "T", "J", "Q", "K", "A").
pub open spec fn rank_of_label(s: Seq<char>) -> Option<Value> {
    if s == "2"@ {
        Some(Value::Two)
    } else if s == "3"@ {
        Some(Value::Three)
    } else if s == "4"@ {
        Some(Value::Four)
    } else if s == "5"@ {
        Some(Value::Five)
    } else if s == "6"@ {
        Some(Value::Six)
    } else if s == "7"@ {
        Some(Value::Seven)
    } else if s == "8"@ {
        Some(Value::Eight)
    } else if s == "9"@ {
        Some(Value::Nine)
    } else if s == "T"@ {
        Some(Value::Ten)
    } else if s == "J"@ {
        Some(Value::Jack)
    } else if s == "Q"@ {
        Some(Value::Queen)
    } else if s == "K"@ {
        Some(Value::King)
    } else if s == "A"@ {
        Some(Value::Ace)
    } else {
        None
    }
}

/// The suit named by a one-letter label of the game's API ("S", "C", "H", "D").
pub open spec fn suit_of_label(s: Seq<char>) -> Option<Suit> {
    if s == "S"@ {
        Some(Suit::Spade)
    } else if s == "C"@ {
        Some(Suit::Club)
    } else if s == "H"@ {
        Some(Suit::Heart)
    } else if s == "D"@ {
        Some(Suit::Diamond)
    } else {
        None
    }
}

/// The key under which the game's API reports the level of a poker hand.
/// A royal flush is scored as a straight flush.
pub open spec fn api_key(rank: HandRank) -> Seq<char> {
    match rank {
        HandRank::HighCard => "High Card"@,
        HandRank::OnePair => "Pair"@,
        HandRank::TwoPair => "Two Pair"@,
        HandRank::ThreeOfAKind => "Three of a Kind"@,
        HandRank::Straight => "Straight"@,
        HandRank::Flush => "Flush"@,
        HandRank::FullHouse => "Full House"@,
        HandRank::FourOfAKind => "Four of a Kind"@,
        HandRank::StraightFlush => "Straight Flush"@,
        HandRank::RoyalFlush => "Straight Flush"@,
        HandRank::FiveOfAKind => "Five of a Kind"@,
        HandRank::FlushHouse => "Flush House"@,
        HandRank::FlushFive => "Flush Five"@,
    }
}

/// The chips a card adds to a played hand: its number for two to ten,
/// ten for a face card, eleven for an ace.
pub open spec fn chips_of(value: Value) -> nat {
    match value {
        Value::Two => 2,
        Value::Three => 3,
        Value::Four => 4,
        Value::Five => 5,
        Value::Six => 6,
        Value::Seven => 7,
        Value::Eight => 8,
        Value::Nine => 9,
        Value::Ten => 10,
        Value::Jack => 10,
        Value::Queen => 10,
        Value::King => 10,
        Value::Ace => 11,
    }
}

/// Parses a rank label of the game's API.
pub fn rank_to_value(r: &str) -> (value: Option<Value>)
    ensures
        value == rank_of_label(r@),
{
    if str_equals(r, "2") {
        Some(Value::Two)
    } else if str_equals(r, "3") {
        Some(Value::Three)
    } else if str_equals(r, "4") {
        Some(Value::Four)
    } else if str_equals(r, "5") {
        Some(Value::Five)
    } else if str_equals(r, "6") {
        Some(Value::Six)
    } else if str_equals(r, "7") {
        Some(Value::Seven)
    } else if str_equals(r, "8") {
        Some(Value::Eight)
    } else if str_equals(r, "9") {
        Some(Value::Nine)
    } else if str_equals(r, "T") {
        Some(Value::Ten)
    } else if str_equals(r, "J") {
        Some(Value::Jack)
    } else if str_equals(r, "Q") {
        Some(Value::Queen)
    } else if str_equals(r, "K") {
        Some(Value::King)
    } else if str_equals(r, "A") {
        Some(Value::Ace)
    } else {
        None
    }
}

/// Parses a suit label of the game's API.
pub fn suit_to_suit(s: &str) -> (suit: Option<Suit>)
    ensures
        suit == suit_of_label(s@),
{
    if str_equals(s, "S") {
        Some(Suit::Spade)
    } else if str_equals(s, "C") {
        Some(Suit::Club)
    } else if str_equals(s, "H") {
        Some(Suit::Heart)
    } else if str_equals(s, "D") {
        Some(Suit::Diamond)
    } else {
        None
    }
}

/// The key of the game's API under which the level of `rank` is reported.
pub fn hand_rank_to_api_key(rank: HandRank) -> (key: &'static str)
    ensures
        key@ == api_key(rank),
{
    match rank {
        HandRank::HighCard => "High Card",
        HandRank::OnePair => "Pair",
        HandRank::TwoPair => "Two Pair",
        HandRank::ThreeOfAKind => "Three of a Kind",
        HandRank::Straight => "Straight",
        HandRank::Flush => "Flush",
        HandRank::FullHouse => "Full House",
        HandRank::FourOfAKind => "Four of a Kind",
        HandRank::StraightFlush => "Straight Flush",
        HandRank::RoyalFlush => "Straight Flush",
        HandRank::FiveOfAKind => "Five of a Kind",
        HandRank::FlushHouse => "Flush House",
        HandRank::FlushFive => "Flush Five",
    }
}

/// The chips that `card` adds to a played hand.
pub fn card_chips(card: &Card) -> (chips: u64)
    ensures
        chips == chips_of(card.value),
{
    match card.value {
        Value::Two => 2,
        Value::Three => 3,
        Value::Four => 4,
        Value::Five => 5,
        Value::Six => 6,
        Value::Seven => 7,
        Value::Eight => 8,
        Value::Nine => 9,
        Value::Ten => 10,
        Value::Jack => 10,
        Value::Queen => 10,
        Value::King => 10,
        Value::Ace => 11,
    }
}

} // verus!

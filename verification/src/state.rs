use vstd::prelude::*;

use std::collections::HashMap;

use crate::cards::{rank_of_label, rank_to_value, suit_of_label, suit_to_suit, Card};
use crate::scores::ScoreTable;
use crate::text::str_equals;

verus! {

/// Seal, edition and the like of a card in the game's API.
#[derive(Debug)]
pub struct CardModifier {
    pub seal: Option<String>,
    pub edition: Option<String>,
    pub enhancement: Option<String>,
    pub eternal: Option<bool>,
    pub perishable: Option<u64>,
    pub rental: Option<bool>,
}

impl Default for CardModifier {
    fn default() -> (m: CardModifier)
        ensures
            m.seal is None,
            m.edition is None,
            m.enhancement is None,
            m.eternal is None,
            m.perishable is None,
            m.rental is None,
    {
        CardModifier {
            seal: None,
            edition: None,
            enhancement: None,
            eternal: None,
            perishable: None,
            rental: None,
        }
    }
}

/// Flags on a card in the game's API.
#[derive(Debug)]
pub struct CardState {
    pub debuff: Option<bool>,
    pub hidden: Option<bool>,
    pub highlight: Option<bool>,
}

impl Default for CardState {
    fn default() -> (s: CardState)
        ensures
            s.debuff is None,
            s.hidden is None,
            s.highlight is None,
    {
        CardState { debuff: None, hidden: None, highlight: None }
    }
}

/// What a card sells and buys for.
#[derive(Debug)]
pub struct CardCost {
    pub sell: u64,
    pub buy: u64,
}

impl Default for CardCost {
    fn default() -> (c: CardCost)
        ensures
            c.sell == 0,
            c.buy == 0,
    {
        CardCost { sell: 0, buy: 0 }
    }
}

/// The face of a card in the game's API: suit and rank labels and an effect text.
#[derive(Debug)]
pub struct CardValue {
    pub suit: Option<String>,
    pub rank: Option<String>,
    pub effect: String,
}

impl Default for CardValue {
    fn default() -> (v: CardValue)
        ensures
            v.suit is None,
            v.rank is None,
            v.effect@.len() == 0,
    {
        CardValue { suit: None, rank: None, effect: String::new() }
    }
}

/// A card (playing card, joker, consumable, voucher or pack) as the game's API reports it.
#[derive(Debug)]
pub struct ApiCard {
    pub id: u64,
    pub key: String,
    pub set: String,
    pub label: String,
    pub value: CardValue,
    pub modifier: CardModifier,
    pub state: CardState,
    pub cost: CardCost,
}

/// A row of cards on the table, with its size limits.
#[derive(Debug)]
pub struct Area {
    pub count: u64,
    pub limit: u64,
    pub highlighted_limit: Option<u64>,
    pub cards: Vec<ApiCard>,
}

/// Counters of the round in play.
#[derive(Debug)]
pub struct RoundInfo {
    pub hands_left: Option<u64>,
    pub hands_played: Option<u64>,
    pub discards_left: Option<u64>,
    pub discards_used: Option<u64>,
    pub reroll_cost: Option<u64>,
    pub chips: Option<u64>,
}

impl Default for RoundInfo {
    fn default() -> (r: RoundInfo)
        ensures
            r.hands_left is None,
            r.hands_played is None,
            r.discards_left is None,
            r.discards_used is None,
            r.reroll_cost is None,
            r.chips is None,
    {
        RoundInfo {
            hands_left: None,
            hands_played: None,
            discards_left: None,
            discards_used: None,
            reroll_cost: None,
            chips: None,
        }
    }
}

/// One blind of the ante: its status, name and the score it asks for.
#[derive(Debug)]
pub struct BlindInfo {
    pub blind_type: String,
    pub status: String,
    pub name: String,
    pub effect: String,
    pub score: u64,
    pub tag_name: String,
    pub tag_effect: String,
}

impl Default for BlindInfo {
    fn default() -> (b: BlindInfo)
        ensures
            b.blind_type@.len() == 0,
            b.status@.len() == 0,
            b.name@.len() == 0,
            b.effect@.len() == 0,
            b.score == 0,
            b.tag_name@.len() == 0,
            b.tag_effect@.len() == 0,
    {
        BlindInfo {
            blind_type: String::new(),
            status: String::new(),
            name: String::new(),
            effect: String::new(),
            score: 0,
            tag_name: String::new(),
            tag_effect: String::new(),
        }
    }
}

/// The three blinds of an ante.
#[derive(Debug)]
pub struct Blinds {
    pub small: BlindInfo,
    pub big: BlindInfo,
    pub boss: BlindInfo,
}

impl Default for Blinds {
    fn default() -> (b: Blinds)
        ensures
            b.small.status@.len() == 0 && b.small.score == 0,
            b.big.status@.len() == 0 && b.big.score == 0,
            b.boss.status@.len() == 0 && b.boss.score == 0,
    {
        Blinds { small: BlindInfo::default(), big: BlindInfo::default(), boss: BlindInfo::default() }
    }
}

/// The whole state of a game, as the game's API reports it.
#[derive(Debug)]
pub struct GameState {
    pub state: String,
    pub round_num: u64,
    pub ante_num: u64,
    pub money: u64,
    pub won: Option<bool>,
    pub deck: Option<String>,
    pub stake: Option<String>,
    pub seed: Option<String>,
    pub used_vouchers: HashMap<String, String>,
    pub hands: ScoreTable,
    pub round: RoundInfo,
    pub blinds: Blinds,
    pub jokers: Option<Area>,
    pub consumables: Option<Area>,
    pub hand: Option<Area>,
    pub cards: Option<Area>,
    pub shop: Option<Area>,
    pub vouchers: Option<Area>,
    pub packs: Option<Area>,
    pub pack: Option<Area>,
}

/// The playing card that an API card shows, when both its rank and its suit
/// label are known.
pub open spec fn card_of(api_card: ApiCard) -> Option<Card> {
    match api_card.value.rank {
        None => None,
        Some(r) => match rank_of_label(r@) {
            None => None,
            Some(value) => match api_card.value.suit {
                None => None,
                Some(s) => match suit_of_label(s@) {
                    None => None,
                    Some(suit) => Some(Card { value, suit }),
                },
            },
        },
    }
}

/// Reads the playing card off an API card.
pub fn convert_card(api_card: &ApiCard) -> (card: Option<Card>)
    ensures
        card == card_of(*api_card),
{
    let value = match &api_card.value.rank {
        Some(r) => match rank_to_value(r.as_str()) {
            Some(v) => v,
            None => return None,
        },
        None => return None,
    };
    let suit = match &api_card.value.suit {
        Some(s) => match suit_to_suit(s.as_str()) {
            Some(s) => s,
            None => return None,
        },
        None => return None,
    };
    Some(Card { value, suit })
}

/// The cards of the hand area while the player is selecting a hand (the state
/// is `SELECTING_HAND`); none otherwise, or when there is no hand area.
pub fn hand_cards(state: &GameState) -> (cards: &[ApiCard])
    ensures
        match state.hand {
            Some(area) => if state.state@ == "SELECTING_HAND"@ {
                cards@ == area.cards@
            } else {
                cards@.len() == 0
            },
            None => cards@.len() == 0,
        },
{
    if !str_equals(state.state.as_str(), "SELECTING_HAND") {
        return &[];
    }
    match &state.hand {
        Some(h) => h.cards.as_slice(),
        None => &[],
    }
}

/// Whether a blind's status marks it as the one in play.
pub open spec fn is_current(blind: BlindInfo) -> bool {
    blind.status@ == "CURRENT"@
}

/// The score that the blind in play asks for: the small blind's if it is
/// current, else the big blind's if it is current, else the boss blind's.
pub open spec fn blind_target(blinds: Blinds) -> u64 {
    if is_current(blinds.small) {
        blinds.small.score
    } else if is_current(blinds.big) {
        blinds.big.score
    } else {
        blinds.boss.score
    }
}

/// The name of the blind in play, chosen as in `blind_target`.
pub open spec fn blind_label(blinds: Blinds) -> Seq<char> {
    if is_current(blinds.small) {
        "small blind"@
    } else if is_current(blinds.big) {
        "big blind"@
    } else {
        "boss blind"@
    }
}

/// The score that the blind in play asks for.
pub fn current_blind_score(blinds: &Blinds) -> (score: u64)
    ensures
        score == blind_target(*blinds),
{
    if str_equals(blinds.small.status.as_str(), "CURRENT") {
        blinds.small.score
    } else if str_equals(blinds.big.status.as_str(), "CURRENT") {
        blinds.big.score
    } else {
        blinds.boss.score
    }
}

/// The name of the blind in play.
pub fn current_blind_name(blinds: &Blinds) -> (name: &str)
    ensures
        name@ == blind_label(*blinds),
{
    if str_equals(blinds.small.status.as_str(), "CURRENT") {
        "small blind"
    } else if str_equals(blinds.big.status.as_str(), "CURRENT") {
        "big blind"
    } else {
        "boss blind"
    }
}

} // verus!

//! Hand evaluation and discard planning for a Balatro-playing bot.

pub mod cards;
pub mod combos;
pub mod deck;
pub mod laws;
pub mod outside;
pub mod plan;
pub mod rollout;
pub mod scores;
pub mod scoring;
pub mod search;
pub mod state;
mod text;

pub use cards::{
    card_chips, hand_rank_to_api_key, rank_to_value, suit_to_suit, Card, HandRank, Suit, Value,
};
pub use deck::remaining_deck;
pub use rollout::{rollout_once, rollout_once_checked, rollout_with_draw};
pub use scores::{HandData, ScoreTable};
pub use scoring::{evaluate_combo, score_hand, scores_fit_within, ScoreOverflow};
pub use search::{find_best_balatro_hand, find_best_hand, find_best_hand_checked};
pub use state::{
    convert_card, current_blind_name, current_blind_score, hand_cards, ApiCard, Area, BlindInfo,
    Blinds, CardCost, CardModifier, CardState, CardValue, GameState, RoundInfo,
};
pub use plan::{count_wins, discard_candidates, next_move, pick_discard, Move};

use vstd::prelude::*;
use vstd::relations::sorted_by;

use itertools::Itertools;
use rand::rngs::SmallRng;
use rand::seq::SliceRandom;

use crate::cards::Card;
use crate::combos::{is_index_combo, lex_less};
use crate::rollout::index_leq;

verus! {

/// The fast random generator of `rand`, carried through the library unopened.
#[verifier::external_type_specification]
#[verifier::external_body]
pub struct ExSmallRng(SmallRng);

/// What balatro-rs's `SelectHand::best_hand` makes of a selection of cards,
/// each card given as the position of its value in `Value::values()` and of its
/// suit in `Suit::suits()`; the result is the position of the hand's rank in the
/// declaration of `HandRank`, or nothing where `best_hand` returns an error.
pub uninterp spec fn best_hand_code(cards: Seq<(u8, u8)>) -> Option<u8>;

/// Calls balatro-rs's `SelectHand::best_hand` on the cards that `codes` stand for.
/// Claimed: the result is `best_hand_code` of the codes (the evaluation reads
/// nothing but the cards), there is none for an empty selection or one of more
/// than five cards (`NoCards`, `TooManyCards`), there is one for one to five
/// cards (any such selection has a group of one card, or its groups make a
/// pair, two pair, three or four or five of a kind, or a full house, so
/// `UnknownHand` never comes), and a rank is one of the thirteen variants of
/// `HandRank`.
#[verifier::external_body]
pub(crate) fn best_hand_of_codes(codes: &[(u8, u8)]) -> (rank: Option<u8>)
    requires
        forall|i: int| 0 <= i < codes.len() ==> #[trigger] codes[i].0 < 13 && codes[i].1 < 4,
    ensures
        rank == best_hand_code(codes@),
        codes.len() == 0 || codes.len() > 5 ==> rank is None,
        1 <= codes.len() <= 5 ==> rank is Some,
        rank matches Some(r) ==> r < 13,
{
    let cards: Vec<balatro_rs::core::card::Card> = codes
        .iter()
        .map(|&(v, s)| {
            balatro_rs::core::card::Card::new(
                balatro_rs::core::card::Value::values()[v as usize],
                balatro_rs::core::card::Suit::suits()[s as usize],
            )
        })
        .collect();
    balatro_rs::core::hand::SelectHand::new(cards).best_hand().ok().map(|made| made.rank as u8)
}

/// Collects itertools's `combinations(k)` of the range `0..n`.
/// Claimed: every item picks `k` distinct positions of `0..n` in increasing
/// order, the items come in strictly increasing lexicographic order, and every
/// such pick is among them.
#[verifier::external_body]
pub(crate) fn index_combinations(n: usize, k: usize) -> (combos: Vec<Vec<usize>>)
    ensures
        forall|i: int| 0 <= i < combos.len() ==> is_index_combo(#[trigger] combos[i]@, n as nat, k as nat),
        forall|i: int, j: int| 0 <= i < j < combos.len() ==> lex_less(#[trigger] combos[i]@, #[trigger] combos[j]@),
        forall|c: Seq<usize>| #[trigger] is_index_combo(c, n as nat, k as nat) ==> exists|i: int|
            0 <= i < combos.len() && #[trigger] combos[i]@ == c,
{
    (0..n).combinations(k).collect()
}

/// Draws `amount` cards of `deck` with rand's `SliceRandom::choose_multiple`.
/// Claimed: exactly `amount` cards come back, each taken from a different
/// position of the deck; which ones, and in which order, is left to chance.
#[verifier::external_body]
pub(crate) fn draw_cards(deck: &[Card], amount: usize, rng: &mut SmallRng) -> (drawn: Vec<Card>)
    requires
        amount <= deck.len(),
    ensures
        drawn.len() == amount,
        drawn@.to_multiset().subset_of(deck@.to_multiset()),
{
    deck.choose_multiple(rng, amount).copied().collect()
}

/// Sorts with std's `sort_unstable`, which puts the slice in ascending order.
/// Claimed: the result is ascending and holds the same items as before.
#[verifier::external_body]
pub(crate) fn sort_ascending(v: &mut Vec<usize>)
    ensures
        sorted_by(final(v)@, index_leq()),
        final(v)@.to_multiset() == old(v)@.to_multiset(),
{
    v.sort_unstable();
}

} // verus!

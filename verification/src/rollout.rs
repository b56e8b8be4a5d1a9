use vstd::prelude::*;
use vstd::relations::{sorted_by, total_ordering};

use rand::rngs::SmallRng;

use crate::cards::{Card, HandRank};
use crate::outside::{draw_cards, sort_ascending};
use crate::scoring::{scores_fit_within, ScoreOverflow};
use crate::scores::{HandData, ScoreTable};
use crate::scoring::scores_fit;
use crate::search::{
    best_play, combos_fit, combos_fit_check, find_best_balatro_hand, lemma_best_play_is, lemma_combos_fit,
};

verus! {

/// The order in which discarded positions are sorted.
pub open spec fn index_leq() -> spec_fn(usize, usize) -> bool {
    |a: usize, b: usize| a <= b
}

/// The positions of `d` in ascending order.
pub open spec fn ascending(d: Seq<usize>) -> Seq<usize> {
    d.sort_by(index_leq())
}

/// `hand` after swapping out its cards at the positions of `asc`, from the
/// last position of `asc` to the first: each time the hand's last card takes the
/// place of the discarded one.
pub open spec fn discard_positions(hand: Seq<Card>, asc: Seq<usize>) -> Seq<Card>
    decreases asc.len(),
{
    if asc.len() == 0 {
        hand
    } else {
        discard_positions(hand.update(asc.last() as int, hand.last()).drop_last(), asc.drop_last())
    }
}

/// Discarding the positions of `d` from a hand of `n` cards, largest position
/// first, never reaches past the end of the hand.
pub open spec fn discard_fits(n: nat, d: Seq<usize>) -> bool {
    forall|j: int| 0 <= j < d.len() ==> #[trigger] ascending(d)[j] + (d.len() - 1 - j) < n
}

/// The hand after discarding the positions of `discard` and adding `drawn`.
pub open spec fn hand_after_draw(hand: Seq<Card>, discard: Seq<usize>, drawn: Seq<Card>) -> Seq<Card> {
    discard_positions(hand, ascending(discard)) + drawn
}

/// The hand that wins when the hand after the draw can score `target`.
pub open spec fn rollout_outcome(
    hand: Seq<Card>,
    drawn: Seq<Card>,
    target: u64,
    scores: Map<Seq<char>, HandData>,
    discard: Seq<usize>,
) -> Option<HandRank> {
    let best = best_play(hand_after_draw(hand, discard, drawn), scores);
    if best.0 >= target {
        Some(best.1)
    } else {
        None
    }
}

/// `drawn` is `amount` cards taken from different positions of `deck`.
pub open spec fn is_draw(deck: Seq<Card>, amount: nat, drawn: Seq<Card>) -> bool {
    &&& drawn.len() == amount
    &&& drawn.to_multiset().subset_of(deck.to_multiset())
}

/// Whatever cards are drawn, every five cards of the hand after the draw
/// score within `u64`.
pub open spec fn draws_fit(
    hand: Seq<Card>,
    deck: Seq<Card>,
    discard: Seq<usize>,
    scores: Map<Seq<char>, HandData>,
) -> bool {
    forall|drawn: Seq<Card>| #[trigger] is_draw(deck, discard.len(), drawn) ==> combos_fit(
        hand_after_draw(hand, discard, drawn),
        scores,
    )
}

/// A table that fits 55 chips under every level fits every draw.
pub proof fn lemma_draws_fit(hand: Seq<Card>, deck: Seq<Card>, discard: Seq<usize>, scores: Map<Seq<char>, HandData>)
    requires
        scores_fit(scores, 55),
    ensures
        draws_fit(hand, deck, discard, scores),
{
    assert forall|drawn: Seq<Card>| #[trigger] is_draw(deck, discard.len(), drawn) implies combos_fit(
        hand_after_draw(hand, discard, drawn),
        scores,
    ) by {
        lemma_combos_fit(hand_after_draw(hand, discard, drawn), scores);
    }
}

proof fn lemma_index_leq_total()
    ensures
        total_ordering(index_leq()),
{
    let leq = index_leq();
    assert(vstd::relations::reflexive(leq));
    assert(vstd::relations::antisymmetric(leq));
    assert(vstd::relations::transitive(leq));
    assert(vstd::relations::strongly_connected(leq));
}

/// A sorted list with the same items as `d` is `ascending(d)`.
proof fn lemma_ascending_is(d: Seq<usize>, s: Seq<usize>)
    requires
        sorted_by(s, index_leq()),
        s.to_multiset() == d.to_multiset(),
    ensures
        s == ascending(d),
{
    lemma_index_leq_total();
    d.lemma_sort_by_ensures(index_leq());
    vstd::seq_lib::lemma_sorted_unique(s, ascending(d), index_leq());
}

/// The hand after discarding the positions of `discard_set` (largest first, the
/// last card taking the place of each discarded one) and adding `drawn`.
fn hand_after_discard(hand: &[Card], drawn: &[Card], discard_set: &[usize]) -> (current: Vec<Card>)
    requires
        discard_fits(hand.len() as nat, discard_set@),
    ensures
        current@ == hand_after_draw(hand@, discard_set@, drawn@),
{
    let mut current: Vec<Card> = Vec::new();
    let mut i: usize = 0;
    while i < hand.len()
        invariant
            i <= hand.len(),
            current@ == hand@.subrange(0, i as int),
        decreases hand.len() - i,
    {
        current.push(hand[i]);
        i = i + 1;
        assert(current@ =~= hand@.subrange(0, i as int));
    }
    assert(current@ =~= hand@);
    let mut sorted: Vec<usize> = Vec::new();
    let mut j: usize = 0;
    while j < discard_set.len()
        invariant
            j <= discard_set.len(),
            sorted@ == discard_set@.subrange(0, j as int),
        decreases discard_set.len() - j,
    {
        sorted.push(discard_set[j]);
        j = j + 1;
        assert(sorted@ =~= discard_set@.subrange(0, j as int));
    }
    assert(sorted@ =~= discard_set@);
    sort_ascending(&mut sorted);
    proof {
        broadcast use vstd::seq_lib::group_to_multiset_ensures;
        lemma_ascending_is(discard_set@, sorted@);
        assert(sorted@.len() == sorted@.to_multiset().len());
        assert(discard_set@.len() == discard_set@.to_multiset().len());
        assert(sorted@.subrange(0, sorted.len() as int) =~= sorted@);
    }
    let m = sorted.len();
    let mut k = m;
    while k > 0
        invariant
            k <= m,
            m == sorted.len(),
            m == discard_set.len(),
            sorted@ == ascending(discard_set@),
            discard_fits(hand.len() as nat, discard_set@),
            current.len() + (m - k) == hand.len(),
            discard_positions(current@, sorted@.subrange(0, k as int)) == discard_positions(hand@, sorted@),
        decreases k,
    {
        let pos = sorted[k - 1];
        assert(ascending(discard_set@)[k - 1] + (m - 1 - (k - 1)) < hand.len());
        let ghost prefix = sorted@.subrange(0, k as int);
        assert(prefix.drop_last() =~= sorted@.subrange(0, k - 1));
        assert(prefix.last() == pos);
        current.swap_remove(pos);
        k = k - 1;
    }
    assert(sorted@.subrange(0, 0) =~= Seq::<usize>::empty());
    let ghost discarded = current@;
    let mut t: usize = 0;
    while t < drawn.len()
        invariant
            t <= drawn.len(),
            current@ == discarded + drawn@.subrange(0, t as int),
        decreases drawn.len() - t,
    {
        current.push(drawn[t]);
        t = t + 1;
        assert(current@ =~= discarded + drawn@.subrange(0, t as int));
    }
    assert(drawn@.subrange(0, drawn.len() as int) =~= drawn@);
    current
}

/// Plays out one draw that is already known: discards the positions of
/// `discard_set` from `hand` (largest position first, the last card taking the
/// place of each discarded one), adds `drawn`, and reports the hand of the best
/// play if it scores at least `target`.
pub fn rollout_with_draw(
    hand: &[Card],
    drawn: &[Card],
    target: u64,
    scores: &ScoreTable,
    discard_set: &[usize],
) -> (outcome: Option<HandRank>)
    requires
        discard_fits(hand.len() as nat, discard_set@),
        combos_fit(hand_after_draw(hand@, discard_set@, drawn@), scores@),
    ensures
        outcome == rollout_outcome(hand@, drawn@, target, scores@, discard_set@),
{
    let current = hand_after_discard(hand, drawn, discard_set);
    let (best_score, best_rank) = find_best_balatro_hand(current.as_slice(), scores);
    proof {
        lemma_best_play_is(current@, scores@, (best_score, best_rank));
    }
    if best_score >= target {
        Some(best_rank)
    } else {
        None
    }
}

/// Plays out one random draw: when the deck has enough cards, draws as many
/// cards as are discarded and plays out that draw with `rollout_with_draw`;
/// otherwise there is no outcome.
pub fn rollout_once(
    hand: &[Card],
    deck: &[Card],
    target: u64,
    scores: &ScoreTable,
    discard_set: &[usize],
    rng: &mut SmallRng,
) -> (outcome: Option<HandRank>)
    requires
        discard_set.len() <= deck.len() ==> discard_fits(hand.len() as nat, discard_set@),
        discard_set.len() <= deck.len() ==> draws_fit(hand@, deck@, discard_set@, scores@),
    ensures
        discard_set.len() > deck.len() ==> outcome is None && *final(rng) == *old(rng),
        discard_set.len() <= deck.len() ==> exists|drawn: Seq<Card>|
            #[trigger] is_draw(deck@, discard_set.len() as nat, drawn) && outcome == rollout_outcome(
                hand@,
                drawn,
                target,
                scores@,
                discard_set@,
            ),
{
    let draw_count = discard_set.len();
    if draw_count > deck.len() {
        return None;
    }
    let drawn = draw_cards(deck, draw_count, rng);
    assert(is_draw(deck@, discard_set.len() as nat, drawn@));
    let outcome = rollout_with_draw(hand, drawn.as_slice(), target, scores, discard_set);
    assert(is_draw(deck@, discard_set.len() as nat, drawn@));
    outcome
}

/// `rollout_once` where the scoring of the hand after the draw stays within
/// `u64`. When the deck has enough cards, some draw of as many cards as are
/// discarded is made, and the result is `ScoreOverflow` exactly when scoring
/// some five cards of the hand after that draw would leave `u64`.
pub fn rollout_once_checked(
    hand: &[Card],
    deck: &[Card],
    target: u64,
    scores: &ScoreTable,
    discard_set: &[usize],
    rng: &mut SmallRng,
) -> (outcome: Result<Option<HandRank>, ScoreOverflow>)
    requires
        discard_set.len() <= deck.len() ==> discard_fits(hand.len() as nat, discard_set@),
    ensures
        discard_set.len() > deck.len() ==> outcome == Ok::<Option<HandRank>, ScoreOverflow>(None) && *final(rng)
            == *old(rng),
        discard_set.len() <= deck.len() ==> exists|drawn: Seq<Card>|
            #[trigger] is_draw(deck@, discard_set.len() as nat, drawn) && match outcome {
                Ok(o) => combos_fit(hand_after_draw(hand@, discard_set@, drawn), scores@) && o == rollout_outcome(
                    hand@,
                    drawn,
                    target,
                    scores@,
                    discard_set@,
                ),
                Err(_) => !combos_fit(hand_after_draw(hand@, discard_set@, drawn), scores@),
            },
{
    if discard_set.len() > deck.len() {
        return Ok(None);
    }
    if scores_fit_within(scores, 55) {
        proof {
            lemma_draws_fit(hand@, deck@, discard_set@, scores@);
        }
        let o = rollout_once(hand, deck, target, scores, discard_set, rng);
        proof {
            let drawn = choose|drawn: Seq<Card>|
                #[trigger] is_draw(deck@, discard_set.len() as nat, drawn) && o == rollout_outcome(
                    hand@,
                    drawn,
                    target,
                    scores@,
                    discard_set@,
                );
            assert(combos_fit(hand_after_draw(hand@, discard_set@, drawn), scores@));
        }
        return Ok(o);
    }
    let drawn = draw_cards(deck, discard_set.len(), rng);
    assert(is_draw(deck@, discard_set.len() as nat, drawn@));
    let current = hand_after_discard(hand, drawn.as_slice(), discard_set);
    if combos_fit_check(current.as_slice(), scores) {
        Ok(rollout_with_draw(hand, drawn.as_slice(), target, scores, discard_set))
    } else {
        Err(ScoreOverflow)
    }
}

} // verus!

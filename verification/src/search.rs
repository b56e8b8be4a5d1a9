use vstd::prelude::*;

use crate::cards::{Card, HandRank};
use crate::combos::{is_index_combo, lemma_lex_total, lemma_sorted_position, lex_less};
use crate::outside::index_combinations;
use crate::scores::{HandData, ScoreTable};
use crate::scoring::{
    chips_sum, combo_fits, combo_fits_check, combo_value, evaluate_combo, lemma_chips_sum_bound, lemma_combo_fits,
    lemma_scores_fit_smaller, scores_fit, ScoreOverflow,
};
use crate::state::{card_of, convert_card, ApiCard};

verus! {

/// The cards at the positions that `c` lists.
pub open spec fn picked<T>(cards: Seq<T>, c: Seq<usize>) -> Seq<T> {
    Seq::new(c.len(), |i: int| cards[c[i] as int])
}

/// The score and hand of the five cards of `cards` at the positions `c`.
pub open spec fn combo_total(cards: Seq<Card>, scores: Map<Seq<char>, HandData>, c: Seq<usize>) -> Option<(u64, HandRank)> {
    combo_value(picked(cards, c), scores)
}

/// Every five cards of `cards` score within `u64`, with the level of the hand
/// they make.
pub open spec fn combos_fit(cards: Seq<Card>, scores: Map<Seq<char>, HandData>) -> bool {
    forall|c: Seq<usize>| #[trigger] is_index_combo(c, cards.len(), 5) ==> combo_fits(picked(cards, c), scores)
}

/// No five cards of `cards` score `score` or more before the pick `c` in
/// lexicographic order of positions.
pub open spec fn first_reaching(cards: Seq<Card>, scores: Map<Seq<char>, HandData>, c: Seq<usize>, score: u64) -> bool {
    forall|d: Seq<usize>| #[trigger] is_index_combo(d, cards.len(), 5) && lex_less(d, c) ==> (
        combo_total(cards, scores, d) matches Some(p) ==> p.0 < score)
}

/// `score` is the highest score of any five cards of `cards` (zero when none
/// scores), and `rank` the hand of the first five cards, in lexicographic order
/// of positions, that reach it (high card when the score is zero).
pub open spec fn is_best_play(cards: Seq<Card>, scores: Map<Seq<char>, HandData>, score: u64, rank: HandRank) -> bool {
    &&& forall|c: Seq<usize>| #[trigger] is_index_combo(c, cards.len(), 5) ==> (
        combo_total(cards, scores, c) matches Some(p) ==> p.0 <= score)
    &&& score == 0 ==> rank == HandRank::HighCard
    &&& score > 0 ==> exists|c: Seq<usize>| #[trigger] is_index_combo(c, cards.len(), 5)
        && combo_total(cards, scores, c) == Some((score, rank)) && first_reaching(cards, scores, c, score)
}

/// The best play of `cards`.
pub open spec fn best_play(cards: Seq<Card>, scores: Map<Seq<char>, HandData>) -> (u64, HandRank) {
    choose|p: (u64, HandRank)| is_best_play(cards, scores, p.0, p.1)
}

/// The best play of a set of cards is unique.
pub proof fn lemma_best_play_unique(
    cards: Seq<Card>,
    scores: Map<Seq<char>, HandData>,
    a: (u64, HandRank),
    b: (u64, HandRank),
)
    requires
        is_best_play(cards, scores, a.0, a.1),
        is_best_play(cards, scores, b.0, b.1),
    ensures
        a == b,
{
    if a.0 > 0 {
        let ca = choose|c: Seq<usize>| #[trigger] is_index_combo(c, cards.len(), 5)
            && combo_total(cards, scores, c) == Some((a.0, a.1)) && first_reaching(cards, scores, c, a.0);
        assert(a.0 <= b.0);
    }
    if b.0 > 0 {
        let cb = choose|c: Seq<usize>| #[trigger] is_index_combo(c, cards.len(), 5)
            && combo_total(cards, scores, c) == Some((b.0, b.1)) && first_reaching(cards, scores, c, b.0);
        assert(b.0 <= a.0);
    }
    if a.0 > 0 {
        let ca = choose|c: Seq<usize>| #[trigger] is_index_combo(c, cards.len(), 5)
            && combo_total(cards, scores, c) == Some((a.0, a.1)) && first_reaching(cards, scores, c, a.0);
        let cb = choose|c: Seq<usize>| #[trigger] is_index_combo(c, cards.len(), 5)
            && combo_total(cards, scores, c) == Some((b.0, b.1)) && first_reaching(cards, scores, c, b.0);
        lemma_lex_total(ca, cb);
        if lex_less(ca, cb) {
            assert(false);
        } else if lex_less(cb, ca) {
            assert(false);
        }
    }
}

/// Whatever satisfies `is_best_play` is `best_play`.
pub proof fn lemma_best_play_is(cards: Seq<Card>, scores: Map<Seq<char>, HandData>, p: (u64, HandRank))
    requires
        is_best_play(cards, scores, p.0, p.1),
    ensures
        best_play(cards, scores) == p,
{
    let q = best_play(cards, scores);
    assert(is_best_play(cards, scores, q.0, q.1));
    lemma_best_play_unique(cards, scores, p, q);
}

fn pick_cards(cards: &[Card], combo: &Vec<usize>) -> (chosen: Vec<Card>)
    requires
        forall|i: int| 0 <= i < combo.len() ==> #[trigger] combo[i] < cards.len(),
    ensures
        chosen@ == picked(cards@, combo@),
{
    let mut chosen: Vec<Card> = Vec::new();
    let mut i: usize = 0;
    while i < combo.len()
        invariant
            i <= combo.len(),
            forall|j: int| 0 <= j < combo.len() ==> #[trigger] combo[j] < cards.len(),
            chosen@ == picked(cards@, combo@.subrange(0, i as int)),
        decreases combo.len() - i,
    {
        chosen.push(cards[combo[i]]);
        i = i + 1;
        assert(chosen@ =~= picked(cards@, combo@.subrange(0, i as int)));
    }
    assert(combo@.subrange(0, combo.len() as int) =~= combo@);
    chosen
}

/// The best score that five of `cards` reach, and the hand of the first five
/// cards (in lexicographic order of their positions) that reach it.
pub fn find_best_balatro_hand(cards: &[Card], scores: &ScoreTable) -> (best: (u64, HandRank))
    requires
        combos_fit(cards@, scores@),
    ensures
        is_best_play(cards@, scores@, best.0, best.1),
{
    let combos = index_combinations(cards.len(), 5);
    let ghost r = Seq::new(combos.len() as nat, |i: int| combos[i]@);
    let mut best_score: u64 = 0;
    let mut best_rank = HandRank::HighCard;
    let ghost mut best_at: int = 0;
    let mut idx: usize = 0;
    while idx < combos.len()
        invariant
            idx <= combos.len(),
            r.len() == combos.len(),
            forall|i: int| 0 <= i < r.len() ==> #[trigger] r[i] == combos[i]@,
            forall|i: int| 0 <= i < combos.len() ==> is_index_combo(#[trigger] combos[i]@, cards.len() as nat, 5),
            combos_fit(cards@, scores@),
            forall|j: int| 0 <= j < idx ==> (#[trigger] combo_total(cards@, scores@, r[j]) matches Some(p)
                ==> p.0 <= best_score),
            best_score == 0 ==> best_rank == HandRank::HighCard,
            best_score > 0 ==> {
                &&& 0 <= best_at < idx
                &&& combo_total(cards@, scores@, r[best_at]) == Some((best_score, best_rank))
                &&& forall|j: int| 0 <= j < best_at ==> (#[trigger] combo_total(cards@, scores@, r[j]) matches Some(p)
                    ==> p.0 < best_score)
            },
        decreases combos.len() - idx,
    {
        assert(is_index_combo(combos[idx as int]@, cards.len() as nat, 5));
        assert(r[idx as int] == combos[idx as int]@);
        let chosen = pick_cards(cards, &combos[idx]);
        let found = evaluate_combo(chosen.as_slice(), scores);
        match found {
            Some((total, rank)) => {
                if total > best_score {
                    best_score = total;
                    best_rank = rank;
                    proof {
                        best_at = idx as int;
                    }
                }
            },
            None => {},
        }
        idx = idx + 1;
    }
    proof {
        let n = cards.len() as nat;
        assert forall|c: Seq<usize>| #[trigger] is_index_combo(c, n, 5) implies (
            combo_total(cards@, scores@, c) matches Some(p) ==> p.0 <= best_score) by {
            let i = choose|i: int| 0 <= i < combos.len() && #[trigger] combos[i]@ == c;
            assert(r[i] == c);
        }
        if best_score > 0 {
            let c = r[best_at];
            assert forall|d: Seq<usize>| #[trigger] is_index_combo(d, n, 5) && lex_less(d, c) implies (
                combo_total(cards@, scores@, d) matches Some(p) ==> p.0 < best_score) by {
                let j = choose|j: int| 0 <= j < combos.len() && #[trigger] combos[j]@ == d;
                assert(r[j] == d);
                assert forall|x: int, y: int| 0 <= x < y < r.len() implies lex_less(#[trigger] r[x], #[trigger] r[y]) by {
                    assert(r[x] == combos[x]@ && r[y] == combos[y]@);
                }
                lemma_sorted_position(r, best_at, j);
            }
            assert(is_index_combo(c, n, 5));
        }
    }
    (best_score, best_rank)
}

/// The playing cards that the API cards show, in order, skipping those whose
/// rank or suit is unknown.
pub open spec fn cards_of(api: Seq<ApiCard>) -> Seq<Card>
    decreases api.len(),
{
    if api.len() == 0 {
        Seq::empty()
    } else {
        let rest = cards_of(api.drop_last());
        match card_of(api.last()) {
            Some(c) => rest.push(c),
            None => rest,
        }
    }
}

/// Skipping cards never lengthens a list.
pub proof fn lemma_cards_of_len(api: Seq<ApiCard>)
    ensures
        cards_of(api).len() <= api.len(),
    decreases api.len(),
{
    if api.len() > 0 {
        lemma_cards_of_len(api.drop_last());
    }
}

/// The score and hand of the API cards of `hand` at the positions `c`, when
/// all five show a known playing card.
pub open spec fn hand_combo_total(hand: Seq<ApiCard>, scores: Map<Seq<char>, HandData>, c: Seq<usize>) -> Option<(u64, HandRank)> {
    let cards = cards_of(picked(hand, c));
    if cards.len() < 5 {
        None
    } else {
        combo_value(cards, scores)
    }
}

/// Every five known cards of `hand` score within `u64`.
pub open spec fn hand_combos_fit(hand: Seq<ApiCard>, scores: Map<Seq<char>, HandData>) -> bool {
    forall|c: Seq<usize>| #[trigger] is_index_combo(c, hand.len(), 5) ==> (cards_of(picked(hand, c)).len() >= 5
        ==> combo_fits(cards_of(picked(hand, c)), scores))
}

/// The positions `0, 1, ...` of the first five cards of a hand of `n` cards
/// (all of them when there are fewer).
pub open spec fn first_positions(n: nat) -> Seq<usize> {
    Seq::new(if n < 5 { n } else { 5 }, |i: int| i as usize)
}

/// `score` is the highest score of five known cards of `hand` (zero when no
/// five score); `indices` are the positions of the first five cards, in
/// lexicographic order of positions, that reach it, or the first positions of
/// the hand when the score is zero.
pub open spec fn is_best_choice(hand: Seq<ApiCard>, scores: Map<Seq<char>, HandData>, indices: Seq<usize>, score: u64) -> bool {
    &&& forall|c: Seq<usize>| #[trigger] is_index_combo(c, hand.len(), 5) ==> (
        hand_combo_total(hand, scores, c) matches Some(p) ==> p.0 <= score)
    &&& score == 0 ==> indices == first_positions(hand.len())
    &&& score > 0 ==> {
        &&& is_index_combo(indices, hand.len(), 5)
        &&& hand_combo_total(hand, scores, indices) matches Some(p) && p.0 == score
        &&& forall|d: Seq<usize>| #[trigger] is_index_combo(d, hand.len(), 5) && lex_less(d, indices)
            ==> (hand_combo_total(hand, scores, d) matches Some(p) ==> p.0 < score)
    }
}

fn known_cards(hand: &[ApiCard], combo: &Vec<usize>) -> (cards: Vec<Card>)
    requires
        forall|i: int| 0 <= i < combo.len() ==> #[trigger] combo[i] < hand.len(),
    ensures
        cards@ == cards_of(picked(hand@, combo@)),
{
    let mut cards: Vec<Card> = Vec::new();
    let mut i: usize = 0;
    while i < combo.len()
        invariant
            i <= combo.len(),
            forall|j: int| 0 <= j < combo.len() ==> #[trigger] combo[j] < hand.len(),
            cards@ == cards_of(picked(hand@, combo@.subrange(0, i as int))),
        decreases combo.len() - i,
    {
        let ghost before = picked(hand@, combo@.subrange(0, i as int));
        let ghost after = picked(hand@, combo@.subrange(0, i + 1));
        assert(after.drop_last() =~= before);
        assert(after.last() == hand@[combo[i as int] as int]);
        match convert_card(&hand[combo[i]]) {
            Some(c) => cards.push(c),
            None => {},
        }
        i = i + 1;
    }
    assert(combo@.subrange(0, combo.len() as int) =~= combo@);
    cards
}

/// The best score of five known cards of the hand, and their positions (the
/// first such five in lexicographic order of positions); the first positions
/// of the hand and a score of zero when no five cards score.
pub fn find_best_hand(hand: &[ApiCard], scores: &ScoreTable) -> (best: (Vec<usize>, u64))
    requires
        hand_combos_fit(hand@, scores@),
    ensures
        is_best_choice(hand@, scores@, best.0@, best.1),
{
    let n = hand.len();
    let combos = index_combinations(n, 5);
    let ghost r = Seq::new(combos.len() as nat, |i: int| combos[i]@);
    let mut best_score: u64 = 0;
    let first = if n < 5 { n } else { 5 };
    let mut best_indices: Vec<usize> = Vec::new();
    let mut k: usize = 0;
    while k < first
        invariant
            k <= first,
            first == if n < 5 { n } else { 5 },
            best_indices@ == first_positions(n as nat).subrange(0, k as int),
        decreases first - k,
    {
        best_indices.push(k);
        k = k + 1;
        assert(best_indices@ =~= first_positions(n as nat).subrange(0, k as int));
    }
    assert(first_positions(n as nat).subrange(0, first as int) =~= first_positions(n as nat));
    let ghost mut best_at: int = 0;
    let mut idx: usize = 0;
    while idx < combos.len()
        invariant
            idx <= combos.len(),
            n == hand.len(),
            r.len() == combos.len(),
            forall|i: int| 0 <= i < r.len() ==> #[trigger] r[i] == combos[i]@,
            forall|i: int| 0 <= i < combos.len() ==> is_index_combo(#[trigger] combos[i]@, n as nat, 5),
            hand_combos_fit(hand@, scores@),
            forall|j: int| 0 <= j < idx ==> (#[trigger] hand_combo_total(hand@, scores@, r[j]) matches Some(p)
                ==> p.0 <= best_score),
            best_score == 0 ==> best_indices@ == first_positions(n as nat),
            best_score > 0 ==> {
                &&& 0 <= best_at < idx
                &&& best_indices@ == r[best_at]
                &&& hand_combo_total(hand@, scores@, r[best_at]) matches Some(p) && p.0 == best_score
                &&& forall|j: int| 0 <= j < best_at ==> (#[trigger] hand_combo_total(hand@, scores@, r[j]) matches Some(p)
                    ==> p.0 < best_score)
            },
        decreases combos.len() - idx,
    {
        let combo = &combos[idx];
        assert(is_index_combo(combo@, n as nat, 5));
        assert(r[idx as int] == combo@);
        let cards = known_cards(hand, combo);
        proof {
            lemma_cards_of_len(picked(hand@, combo@));
        }
        if cards.len() >= 5 {
            let found = evaluate_combo(cards.as_slice(), scores);
            match found {
                Some((total, _rank)) => {
                    if total > best_score {
                        best_score = total;
                        let mut copy: Vec<usize> = Vec::new();
                        let mut t: usize = 0;
                        while t < combo.len()
                            invariant
                                t <= combo.len(),
                                copy@ == combo@.subrange(0, t as int),
                            decreases combo.len() - t,
                        {
                            copy.push(combo[t]);
                            t = t + 1;
                            assert(copy@ =~= combo@.subrange(0, t as int));
                        }
                        assert(combo@.subrange(0, combo.len() as int) =~= combo@);
                        best_indices = copy;
                        proof {
                            best_at = idx as int;
                        }
                    }
                },
                None => {},
            }
        }
        idx = idx + 1;
    }
    proof {
        let nn = n as nat;
        assert forall|c: Seq<usize>| #[trigger] is_index_combo(c, nn, 5) implies (
            hand_combo_total(hand@, scores@, c) matches Some(p) ==> p.0 <= best_score) by {
            let i = choose|i: int| 0 <= i < combos.len() && #[trigger] combos[i]@ == c;
            assert(r[i] == c);
        }
        if best_score > 0 {
            let c = r[best_at];
            assert forall|d: Seq<usize>| #[trigger] is_index_combo(d, nn, 5) && lex_less(d, c) implies (
                hand_combo_total(hand@, scores@, d) matches Some(p) ==> p.0 < best_score) by {
                let j = choose|j: int| 0 <= j < combos.len() && #[trigger] combos[j]@ == d;
                assert(r[j] == d);
                assert forall|x: int, y: int| 0 <= x < y < r.len() implies lex_less(#[trigger] r[x], #[trigger] r[y]) by {
                    assert(r[x] == combos[x]@ && r[y] == combos[y]@);
                }
                lemma_sorted_position(r, best_at, j);
            }
            assert(is_index_combo(c, nn, 5));
        }
    }
    (best_indices, best_score)
}

/// Any five cards are worth at most 55 chips, so a table that fits 55 chips
/// fits every five cards of any hand.
pub proof fn lemma_combos_fit(cards: Seq<Card>, scores: Map<Seq<char>, HandData>)
    requires
        scores_fit(scores, 55),
    ensures
        combos_fit(cards, scores),
{
    assert forall|c: Seq<usize>| #[trigger] is_index_combo(c, cards.len(), 5) implies combo_fits(
        picked(cards, c),
        scores,
    ) by {
        lemma_chips_sum_bound(picked(cards, c));
        lemma_scores_fit_smaller(scores, chips_sum(picked(cards, c)), 55);
        lemma_combo_fits(picked(cards, c), scores);
    }
}

/// Any five API cards show at most five known cards, worth at most 55 chips,
/// so a table that fits 55 chips fits every five known cards of any hand.
pub proof fn lemma_hand_combos_fit(hand: Seq<ApiCard>, scores: Map<Seq<char>, HandData>)
    requires
        scores_fit(scores, 55),
    ensures
        hand_combos_fit(hand, scores),
{
    assert forall|c: Seq<usize>| #[trigger] is_index_combo(c, hand.len(), 5) implies (cards_of(
        picked(hand, c),
    ).len() >= 5 ==> combo_fits(cards_of(picked(hand, c)), scores)) by {
        let cards = cards_of(picked(hand, c));
        lemma_cards_of_len(picked(hand, c));
        lemma_chips_sum_bound(cards);
        lemma_scores_fit_smaller(scores, chips_sum(cards), 55);
        lemma_combo_fits(cards, scores);
    }
}

/// Whether every five cards of `cards` score within `u64`.
pub(crate) fn combos_fit_check(cards: &[Card], scores: &ScoreTable) -> (fits: bool)
    ensures
        fits == combos_fit(cards@, scores@),
{
    let combos = index_combinations(cards.len(), 5);
    let mut idx: usize = 0;
    while idx < combos.len()
        invariant
            idx <= combos.len(),
            forall|i: int| 0 <= i < combos.len() ==> is_index_combo(#[trigger] combos[i]@, cards.len() as nat, 5),
            forall|j: int| 0 <= j < idx ==> combo_fits(picked(cards@, #[trigger] combos[j]@), scores@),
        decreases combos.len() - idx,
    {
        assert(is_index_combo(combos[idx as int]@, cards.len() as nat, 5));
        let chosen = pick_cards(cards, &combos[idx]);
        if !combo_fits_check(chosen.as_slice(), scores) {
            return false;
        }
        idx = idx + 1;
    }
    assert forall|c: Seq<usize>| #[trigger] is_index_combo(c, cards.len() as nat, 5) implies combo_fits(
        picked(cards@, c),
        scores@,
    ) by {
        let i = choose|i: int| 0 <= i < combos.len() && #[trigger] combos[i]@ == c;
    }
    true
}

/// Whether every five known cards of `hand` score within `u64`.
fn hand_combos_fit_check(hand: &[ApiCard], scores: &ScoreTable) -> (fits: bool)
    ensures
        fits == hand_combos_fit(hand@, scores@),
{
    let combos = index_combinations(hand.len(), 5);
    let mut idx: usize = 0;
    while idx < combos.len()
        invariant
            idx <= combos.len(),
            forall|i: int| 0 <= i < combos.len() ==> is_index_combo(#[trigger] combos[i]@, hand.len() as nat, 5),
            forall|j: int| 0 <= j < idx ==> (cards_of(picked(hand@, #[trigger] combos[j]@)).len() >= 5
                ==> combo_fits(cards_of(picked(hand@, combos[j]@)), scores@)),
        decreases combos.len() - idx,
    {
        assert(is_index_combo(combos[idx as int]@, hand.len() as nat, 5));
        let cards = known_cards(hand, &combos[idx]);
        proof {
            lemma_cards_of_len(picked(hand@, combos[idx as int]@));
        }
        if cards.len() >= 5 && !combo_fits_check(cards.as_slice(), scores) {
            return false;
        }
        idx = idx + 1;
    }
    assert forall|c: Seq<usize>| #[trigger] is_index_combo(c, hand.len() as nat, 5) implies (cards_of(
        picked(hand@, c),
    ).len() >= 5 ==> combo_fits(cards_of(picked(hand@, c)), scores@)) by {
        let i = choose|i: int| 0 <= i < combos.len() && #[trigger] combos[i]@ == c;
    }
    true
}

/// `find_best_hand` when every five known cards of the hand score within
/// `u64`; `ScoreOverflow` exactly when some five would not, where the scoring
/// of every pick would overflow.
pub fn find_best_hand_checked(hand: &[ApiCard], scores: &ScoreTable) -> (best: Result<(Vec<usize>, u64), ScoreOverflow>)
    ensures
        match best {
            Ok(b) => hand_combos_fit(hand@, scores@) && is_best_choice(hand@, scores@, b.0@, b.1),
            Err(_) => !hand_combos_fit(hand@, scores@),
        },
{
    if hand_combos_fit_check(hand, scores) {
        Ok(find_best_hand(hand, scores))
    } else {
        Err(ScoreOverflow)
    }
}

} // verus!

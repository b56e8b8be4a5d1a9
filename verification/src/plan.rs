use vstd::prelude::*;

use rand::rngs::SmallRng;

use crate::cards::{Card, HandRank};
use crate::combos::{is_index_combo, lex_less};
use crate::outside::index_combinations;
use crate::rollout::{discard_fits, hand_after_draw, is_draw, rollout_once_checked, rollout_outcome};
use crate::scores::{HandData, ScoreTable};
use crate::scoring::ScoreOverflow;
use crate::search::combos_fit;

verus! {

/// What the bot does on its turn.
#[derive(Debug, PartialEq, Eq)]
pub enum Move {
    /// Play the best hand: it reaches the blind's score.
    Play,
    /// Discard the cards at these positions.
    Discard(Vec<usize>),
    /// Play the best hand although it falls short: no discard can win.
    PlayAnyway,
    /// The best hand falls short and no discard is left.
    GiveUp,
}

/// The move for a best hand of `best_score` against `target`, with
/// `discards_left` discards and the best discard found (if any wins at all).
pub open spec fn move_for(best_score: u64, target: u64, discards_left: u64, best: Option<Vec<usize>>) -> Move {
    if best_score >= target {
        Move::Play
    } else if discards_left > 0 {
        match best {
            Some(d) => Move::Discard(d),
            None => Move::PlayAnyway,
        }
    } else {
        Move::GiveUp
    }
}

/// Decides the turn: play when the best hand reaches the target; otherwise
/// discard the best discard found while discards are left, or play anyway
/// when no discard wins; give up when no discard is left.
pub fn next_move(best_score: u64, target: u64, discards_left: u64, best: Option<Vec<usize>>) -> (m: Move)
    ensures
        m == move_for(best_score, target, discards_left, best),
{
    if best_score >= target {
        Move::Play
    } else if discards_left > 0 {
        match best {
            Some(d) => Move::Discard(d),
            None => Move::PlayAnyway,
        }
    } else {
        Move::GiveUp
    }
}

/// The position of the first discard with the most wins, when some discard
/// wins at all.
pub fn pick_discard(results: &[(Vec<usize>, u64)]) -> (best: Option<usize>)
    ensures
        match best {
            Some(i) => {
                &&& i < results.len()
                &&& results[i as int].1 > 0
                &&& forall|j: int| 0 <= j < results.len() ==> #[trigger] results[j].1 <= results[i as int].1
                &&& forall|j: int| 0 <= j < i ==> #[trigger] results[j].1 < results[i as int].1
            },
            None => forall|j: int| 0 <= j < results.len() ==> #[trigger] results[j].1 == 0,
        },
{
    let mut best: Option<usize> = None;
    let mut best_wins: u64 = 0;
    let mut i: usize = 0;
    while i < results.len()
        invariant
            i <= results.len(),
            forall|j: int| 0 <= j < i ==> #[trigger] results[j].1 <= best_wins,
            match best {
                Some(b) => {
                    &&& b < i
                    &&& results[b as int].1 == best_wins
                    &&& best_wins > 0
                    &&& forall|j: int| 0 <= j < b ==> #[trigger] results[j].1 < best_wins
                },
                None => best_wins == 0,
            },
        decreases results.len() - i,
    {
        if results[i].1 > best_wins {
            best_wins = results[i].1;
            best = Some(i);
        }
        i = i + 1;
    }
    best
}

/// `c` picks between one and five distinct positions of `0..n`, in
/// increasing order.
pub open spec fn is_discard_pick(c: Seq<usize>, n: nat) -> bool {
    1 <= c.len() <= 5 && is_index_combo(c, n, c.len())
}

/// `a` comes before `b` among the discards to try: fewer positions first, and
/// lexicographic order among picks of one size.
pub open spec fn tried_before(a: Seq<usize>, b: Seq<usize>) -> bool {
    a.len() < b.len() || (a.len() == b.len() && lex_less(a, b))
}

/// Every pick of one to five positions of a hand of `n` cards (at most `n`
/// positions), by size and then in lexicographic order.
pub fn discard_candidates(n: usize) -> (c: Vec<Vec<usize>>)
    ensures
        forall|i: int| 0 <= i < c.len() ==> is_discard_pick(#[trigger] c[i]@, n as nat),
        forall|i: int, j: int| 0 <= i < j < c.len() ==> tried_before(#[trigger] c[i]@, #[trigger] c[j]@),
        forall|p: Seq<usize>| #[trigger] is_discard_pick(p, n as nat) ==> exists|i: int| 0 <= i < c.len() && #[trigger] c[i]@ == p,
{
    let max = if n < 5 { n } else { 5 };
    let mut c: Vec<Vec<usize>> = Vec::new();
    let mut k: usize = 1;
    while k <= max
        invariant
            1 <= k <= max + 1,
            max == if n < 5 { n } else { 5 },
            forall|i: int| 0 <= i < c.len() ==> is_discard_pick(#[trigger] c[i]@, n as nat) && c[i]@.len() < k,
            forall|i: int, j: int| 0 <= i < j < c.len() ==> tried_before(#[trigger] c[i]@, #[trigger] c[j]@),
            forall|p: Seq<usize>| #[trigger] is_discard_pick(p, n as nat) && p.len() < k ==> exists|i: int|
                0 <= i < c.len() && #[trigger] c[i]@ == p,
        decreases max + 1 - k,
    {
        let ghost before = c@;
        let mut more = index_combinations(n, k);
        let ghost added = more@;
        c.append(&mut more);
        proof {
            let b = before.len() as int;
            assert forall|i: int| 0 <= i < c.len() implies is_discard_pick(#[trigger] c[i]@, n as nat)
                && c[i]@.len() < k + 1 by {
                if i >= b {
                    assert(c[i] == added[i - b]);
                    assert(is_index_combo(added[i - b]@, n as nat, k as nat));
                } else {
                    assert(c[i] == before[i]);
                }
            }
            assert forall|i: int, j: int| 0 <= i < j < c.len() implies tried_before(#[trigger] c[i]@, #[trigger] c[j]@) by {
                if j < b {
                    assert(c[i] == before[i] && c[j] == before[j]);
                } else if i >= b {
                    assert(c[i] == added[i - b] && c[j] == added[j - b]);
                    assert(lex_less(added[i - b]@, added[j - b]@));
                } else {
                    assert(c[i] == before[i] && c[j] == added[j - b]);
                    assert(is_index_combo(added[j - b]@, n as nat, k as nat));
                }
            }
            assert forall|p: Seq<usize>| #[trigger] is_discard_pick(p, n as nat) && p.len() < k + 1 implies exists|i: int|
                0 <= i < c.len() && #[trigger] c[i]@ == p by {
                if p.len() < k {
                    let i = choose|i: int| 0 <= i < before.len() && #[trigger] before[i]@ == p;
                    assert(c[i] == before[i]);
                } else {
                    assert(is_index_combo(p, n as nat, k as nat));
                    let i = choose|i: int| 0 <= i < added.len() && #[trigger] added[i]@ == p;
                    assert(c[b + i] == added[i]);
                }
            }
        }
        k = k + 1;
    }
    proof {
        assert forall|p: Seq<usize>| #[trigger] is_discard_pick(p, n as nat) implies exists|i: int|
            0 <= i < c.len() && #[trigger] c[i]@ == p by {
            if p.len() > n {
                assert(p[n as int] < n);
                assert forall|x: int| 0 <= x <= n implies #[trigger] p[x] >= x by {
                    lemma_increasing_from_zero(p, n as nat, x);
                }
                assert(p[n as int] >= n);
            }
        }
    }
    c
}

/// The position at `x` of an increasing pick is at least `x`.
proof fn lemma_increasing_from_zero(p: Seq<usize>, n: nat, x: int)
    requires
        is_index_combo(p, n, p.len()),
        0 <= x < p.len(),
    ensures
        p[x] >= x,
    decreases x,
{
    if x > 0 {
        lemma_increasing_from_zero(p, n, x - 1);
        assert(p[x - 1] < p[x]);
    }
}

/// The wins that a tally of (hand, wins) pairs adds up to.
pub open spec fn tally_total(tally: Seq<(HandRank, u64)>) -> int
    decreases tally.len(),
{
    if tally.len() == 0 {
        0
    } else {
        tally_total(tally.drop_last()) + tally.last().1
    }
}

/// Each hand occurs once in the tally, with a positive count.
pub open spec fn tally_ok(tally: Seq<(HandRank, u64)>) -> bool {
    &&& forall|i: int, j: int| 0 <= i < j < tally.len() ==> #[trigger] tally[i].0 != #[trigger] tally[j].0
    &&& forall|i: int| 0 <= i < tally.len() ==> #[trigger] tally[i].1 > 0
}

proof fn lemma_tally_entry_le_total(tally: Seq<(HandRank, u64)>, i: int)
    requires
        0 <= i < tally.len(),
    ensures
        tally[i].1 <= tally_total(tally),
    decreases tally.len(),
{
    if i < tally.len() - 1 {
        lemma_tally_entry_le_total(tally.drop_last(), i);
    }
    lemma_tally_total_nonneg(tally.drop_last());
}

proof fn lemma_tally_total_nonneg(tally: Seq<(HandRank, u64)>)
    ensures
        tally_total(tally) >= 0,
    decreases tally.len(),
{
    if tally.len() > 0 {
        lemma_tally_total_nonneg(tally.drop_last());
    }
}

proof fn lemma_tally_update(tally: Seq<(HandRank, u64)>, i: int, e: (HandRank, u64))
    requires
        0 <= i < tally.len(),
    ensures
        tally_total(tally.update(i, e)) == tally_total(tally) - tally[i].1 + e.1,
    decreases tally.len(),
{
    let t = tally.update(i, e);
    if i == tally.len() - 1 {
        assert(t.drop_last() =~= tally.drop_last());
    } else {
        lemma_tally_update(tally.drop_last(), i, e);
        assert(t.drop_last() =~= tally.drop_last().update(i, e));
    }
}

/// The wins that the tally holds for `rank` (zero when the hand is absent).
pub open spec fn tally_count(tally: Seq<(HandRank, u64)>, rank: HandRank) -> nat
    decreases tally.len(),
{
    if tally.len() == 0 {
        0
    } else {
        tally_count(tally.drop_last(), rank) + if tally.last().0 == rank {
            tally.last().1 as nat
        } else {
            0nat
        }
    }
}

/// How many of `draws` reach `target` after discarding `discard` from `hand`.
pub open spec fn wins_among(
    hand: Seq<Card>,
    draws: Seq<Seq<Card>>,
    target: u64,
    scores: Map<Seq<char>, HandData>,
    discard: Seq<usize>,
) -> nat
    decreases draws.len(),
{
    if draws.len() == 0 {
        0
    } else {
        wins_among(hand, draws.drop_last(), target, scores, discard) + if rollout_outcome(
            hand,
            draws.last(),
            target,
            scores,
            discard,
        ) is Some {
            1nat
        } else {
            0nat
        }
    }
}

/// How many of `draws` reach `target` with the hand `rank`.
pub open spec fn wins_with(
    hand: Seq<Card>,
    draws: Seq<Seq<Card>>,
    target: u64,
    scores: Map<Seq<char>, HandData>,
    discard: Seq<usize>,
    rank: HandRank,
) -> nat
    decreases draws.len(),
{
    if draws.len() == 0 {
        0
    } else {
        wins_with(hand, draws.drop_last(), target, scores, discard, rank) + if rollout_outcome(
            hand,
            draws.last(),
            target,
            scores,
            discard,
        ) == Some(rank) {
            1nat
        } else {
            0nat
        }
    }
}

proof fn lemma_tally_count_update(tally: Seq<(HandRank, u64)>, i: int, e: (HandRank, u64), k: HandRank)
    requires
        0 <= i < tally.len(),
    ensures
        tally_count(tally.update(i, e), k) + (if tally[i].0 == k { tally[i].1 as nat } else { 0nat })
            == tally_count(tally, k) + (if e.0 == k { e.1 as nat } else { 0nat }),
    decreases tally.len(),
{
    let t = tally.update(i, e);
    if i == tally.len() - 1 {
        assert(t.drop_last() =~= tally.drop_last());
    } else {
        lemma_tally_count_update(tally.drop_last(), i, e, k);
        assert(t.drop_last() =~= tally.drop_last().update(i, e));
    }
}

/// Counts one more win with `rank`.
fn add_win(tally: &mut Vec<(HandRank, u64)>, rank: HandRank)
    requires
        tally_ok(old(tally)@),
        tally_total(old(tally)@) < u64::MAX,
    ensures
        tally_ok(final(tally)@),
        tally_total(final(tally)@) == tally_total(old(tally)@) + 1,
        forall|k: HandRank| #[trigger] tally_count(final(tally)@, k) == tally_count(old(tally)@, k) + if k
            == rank {
            1nat
        } else {
            0nat
        },
{
    let mut i: usize = 0;
    while i < tally.len()
        invariant
            i <= tally.len(),
            tally@ == old(tally)@,
            tally_ok(tally@),
            tally_total(tally@) < u64::MAX,
            forall|j: int| 0 <= j < i ==> #[trigger] tally@[j].0 != rank,
        decreases tally.len() - i,
    {
        if tally[i].0 == rank {
            let count = tally[i].1;
            proof {
                lemma_tally_entry_le_total(tally@, i as int);
                lemma_tally_update(tally@, i as int, (rank, (count + 1) as u64));
            }
            let ghost before = tally@;
            tally.set(i, (rank, count + 1));
            assert forall|j: int| 0 <= j < tally@.len() implies #[trigger] tally@[j].0 == before[j].0 by {}
            assert forall|k: HandRank| #[trigger] tally_count(tally@, k) == tally_count(before, k) + if k == rank {
                1nat
            } else {
                0nat
            } by {
                lemma_tally_count_update(before, i as int, (rank, (count + 1) as u64), k);
            }
            return;
        }
        i = i + 1;
    }
    let ghost before = tally@;
    tally.push((rank, 1));
    assert(tally@.drop_last() =~= before);
    assert forall|j: int| 0 <= j < before.len() implies #[trigger] tally@[j] == before[j] by {}
    assert forall|k: HandRank| #[trigger] tally_count(tally@, k) == tally_count(before, k) + if k == rank {
        1nat
    } else {
        0nat
    } by {}
}

/// Plays out `trials` random draws of the discard `discard_set` and counts the
/// draws that reach `target`, in all and per hand. Nothing is drawn, and no win
/// counted, when the deck has fewer cards than are discarded. `ScoreOverflow`
/// when scoring the hand after some draw would leave `u64`.
pub fn count_wins(
    hand: &[Card],
    deck: &[Card],
    target: u64,
    scores: &ScoreTable,
    discard_set: &[usize],
    rng: &mut SmallRng,
    trials: u64,
) -> (res: Result<(u64, Vec<(HandRank, u64)>), ScoreOverflow>)
    requires
        discard_set.len() <= deck.len() ==> discard_fits(hand.len() as nat, discard_set@),
    ensures
        discard_set.len() > deck.len() ==> *final(rng) == *old(rng) && (res matches Ok(r) && r.0 == 0
            && r.1@.len() == 0),
        res matches Ok(r) ==> r.0 <= trials && tally_total(r.1@) == r.0 && tally_ok(r.1@),
        target == 0 && discard_set.len() <= deck.len() ==> (res matches Ok(r) ==> r.0 == trials),
        discard_set.len() <= deck.len() ==> (res matches Ok(r) ==> exists|draws: Seq<Seq<Card>>| {
            &&& draws.len() == trials
            &&& forall|t: int| 0 <= t < trials ==> #[trigger] is_draw(deck@, discard_set.len() as nat, draws[t])
            &&& r.0 == wins_among(hand@, draws, target, scores@, discard_set@)
            &&& forall|k: HandRank| #[trigger] tally_count(r.1@, k) == wins_with(hand@, draws, target, scores@, discard_set@, k)
        }),
        res is Err ==> discard_set.len() <= deck.len() && exists|drawn: Seq<Card>|
            #[trigger] is_draw(deck@, discard_set.len() as nat, drawn) && !combos_fit(
                hand_after_draw(hand@, discard_set@, drawn),
                scores@,
            ),
{
    let mut tally: Vec<(HandRank, u64)> = Vec::new();
    if discard_set.len() > deck.len() {
        return Ok((0, tally));
    }
    let mut wins: u64 = 0;
    let mut t: u64 = 0;
    let ghost mut draws: Seq<Seq<Card>> = Seq::empty();
    while t < trials
        invariant
            t <= trials,
            draws.len() == t,
            forall|j: int| 0 <= j < t ==> #[trigger] is_draw(deck@, discard_set.len() as nat, draws[j]),
            wins == wins_among(hand@, draws, target, scores@, discard_set@),
            forall|k: HandRank| #[trigger] tally_count(tally@, k) == wins_with(hand@, draws, target, scores@, discard_set@, k),
            wins <= t,
            discard_set.len() <= deck.len(),
            discard_fits(hand.len() as nat, discard_set@),
            tally_total(tally@) == wins,
            tally_ok(tally@),
            target == 0 ==> wins == t,
        decreases trials - t,
    {
        match rollout_once_checked(hand, deck, target, scores, discard_set, rng) {
            Err(e) => {
                return Err(e);
            },
            Ok(outcome) => {
                let ghost drawn = choose|drawn: Seq<Card>|
                    #[trigger] is_draw(deck@, discard_set.len() as nat, drawn) && combos_fit(
                        hand_after_draw(hand@, discard_set@, drawn),
                        scores@,
                    ) && outcome == rollout_outcome(hand@, drawn, target, scores@, discard_set@);
                let ghost before = draws;
                proof {
                    draws = draws.push(drawn);
                    assert(draws.drop_last() =~= before);
                    if target == 0 {
                        assert(outcome is Some);
                    }
                }
                match outcome {
                    Some(rank) => {
                        add_win(&mut tally, rank);
                        wins = wins + 1;
                    },
                    None => {},
                }
            },
        }
        t = t + 1;
    }
    Ok((wins, tally))
}

} // verus!

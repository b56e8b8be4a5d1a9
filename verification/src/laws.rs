use vstd::prelude::*;

use crate::cards::{
    api_key, chips_of, hand_rank_position, rank_of_label, suit_of_label, Card, HandRank, Suit, Value,
};
use crate::deck::{suit_of_code, value_of_code};
use crate::outside::best_hand_code;
use crate::plan::{move_for, Move};
use crate::scoring::{card_code, chips_sum, hand_score, made_hand_rank, rank_at, suit_code, value_code};
use crate::combos::{is_index_combo, lex_less};
use crate::rollout::{ascending, discard_fits, index_leq, rollout_outcome};
use crate::search::{
    best_play, cards_of, combo_total, first_reaching, hand_combo_total, is_best_choice,
    is_best_play, lemma_best_play_is, picked,
};
use crate::scores::HandData;
use crate::state::{blind_label, blind_target, card_of, ApiCard, BlindInfo, Blinds};

verus! {

/// Two hand ranks share an API key only when they are equal, or are a
/// straight flush and a royal flush, which the API scores alike.
pub proof fn lemma_api_key_injective(a: HandRank, b: HandRank)
    requires
        api_key(a) == api_key(b),
    ensures
        a == b || (a == HandRank::StraightFlush && b == HandRank::RoyalFlush) || (a
            == HandRank::RoyalFlush && b == HandRank::StraightFlush),
{
    reveal_strlit("High Card");
    reveal_strlit("Pair");
    reveal_strlit("Two Pair");
    reveal_strlit("Three of a Kind");
    reveal_strlit("Straight");
    reveal_strlit("Flush");
    reveal_strlit("Full House");
    reveal_strlit("Four of a Kind");
    reveal_strlit("Straight Flush");
    reveal_strlit("Five of a Kind");
    reveal_strlit("Flush House");
    reveal_strlit("Flush Five");
    assert("High Card"@.len() == 9);
    assert("Pair"@.len() == 4);
    assert("Two Pair"@.len() == 8);
    assert("Three of a Kind"@.len() == 15);
    assert("Straight"@.len() == 8);
    assert("Flush"@.len() == 5);
    assert("Full House"@.len() == 10);
    assert("Four of a Kind"@.len() == 14);
    assert("Straight Flush"@.len() == 14);
    assert("Five of a Kind"@.len() == 14);
    assert("Flush House"@.len() == 11);
    assert("Flush Five"@.len() == 10);
    assert("Two Pair"@[0] != "Straight"@[0]);
    assert("Four of a Kind"@[0] != "Straight Flush"@[0]);
    assert("Five of a Kind"@[0] != "Straight Flush"@[0]);
    assert("Four of a Kind"@[1] != "Five of a Kind"@[1]);
    assert("Full House"@[1] != "Flush Five"@[1]);
}

/// The blind whose name `current_blind_name` gives is the blind whose score
/// `current_blind_score` gives.
pub proof fn lemma_blind_choice_agrees(blinds: Blinds)
    ensures
        blind_label(blinds) == "small blind"@ ==> blind_target(blinds) == blinds.small.score,
        blind_label(blinds) == "big blind"@ ==> blind_target(blinds) == blinds.big.score,
        blind_label(blinds) == "boss blind"@ ==> blind_target(blinds) == blinds.boss.score,
{
    reveal_strlit("small blind");
    reveal_strlit("big blind");
    reveal_strlit("boss blind");
    assert("small blind"@.len() == 11);
    assert("big blind"@.len() == 9);
    assert("boss blind"@.len() == 10);
}

/// Positions of a strictly increasing list grow at least as fast as the list.
proof fn lemma_increasing_gaps(s: Seq<usize>, i: int, j: int)
    requires
        forall|x: int, y: int| 0 <= x < y < s.len() ==> #[trigger] s[x] < #[trigger] s[y],
        0 <= i <= j < s.len(),
    ensures
        s[j] - s[i] >= j - i,
    decreases j - i,
{
    if i < j {
        lemma_increasing_gaps(s, i, j - 1);
        assert(s[j - 1] < s[j]);
    }
}

/// Discarding distinct positions of the hand, as the bot does with each
/// combination of positions it tries, never reaches past the end of the hand.
pub proof fn lemma_distinct_discards_fit(n: nat, d: Seq<usize>)
    requires
        d.no_duplicates(),
        forall|i: int| 0 <= i < d.len() ==> #[trigger] d[i] < n,
    ensures
        discard_fits(n, d),
{
    broadcast use vstd::seq_lib::group_to_multiset_ensures;

    let leq = index_leq();
    assert(vstd::relations::total_ordering(leq));
    d.lemma_sort_by_ensures(leq);
    let asc = ascending(d);
    let m = d.len() as int;
    assert(asc.len() == asc.to_multiset().len());
    assert(d.len() == d.to_multiset().len());
    d.lemma_multiset_has_no_duplicates();
    asc.lemma_multiset_has_no_duplicates_conv();
    assert forall|x: int, y: int| 0 <= x < y < asc.len() implies #[trigger] asc[x] < #[trigger] asc[y] by {
        assert(leq(asc[x], asc[y]));
    }
    assert forall|j: int| 0 <= j < m implies #[trigger] asc[j] + (m - 1 - j) < n by {
        let last = asc[m - 1];
        assert(asc.contains(last));
        assert(d.contains(last));
        let k = choose|k: int| 0 <= k < d.len() && d[k] == last;
        assert(d[k] < n);
        lemma_increasing_gaps(asc, j, m - 1);
    }
}

/// A lower target wins whenever a higher one does, with the same hand.
pub proof fn lemma_rollout_target_monotone(
    hand: Seq<crate::cards::Card>,
    drawn: Seq<crate::cards::Card>,
    low: u64,
    high: u64,
    scores: Map<Seq<char>, HandData>,
    discard: Seq<usize>,
)
    requires
        low <= high,
        rollout_outcome(hand, drawn, high, scores, discard) is Some,
    ensures
        rollout_outcome(hand, drawn, low, scores, discard) == rollout_outcome(hand, drawn, high, scores, discard),
{
}

/// A target of zero is always reached: every draw wins it.
pub proof fn lemma_zero_target_wins(
    hand: Seq<crate::cards::Card>,
    drawn: Seq<crate::cards::Card>,
    scores: Map<Seq<char>, HandData>,
    discard: Seq<usize>,
)
    ensures
        rollout_outcome(hand, drawn, 0, scores, discard) is Some,
{
}

/// Every card of the hand is known.
pub open spec fn all_known(hand: Seq<ApiCard>) -> bool {
    forall|i: int| 0 <= i < hand.len() ==> #[trigger] card_of(hand[i]) is Some
}

/// When every card is known, reading the cards keeps them one for one.
proof fn lemma_cards_of_known(hand: Seq<ApiCard>)
    requires
        all_known(hand),
    ensures
        cards_of(hand).len() == hand.len(),
        forall|i: int| 0 <= i < hand.len() ==> Some(#[trigger] cards_of(hand)[i]) == card_of(hand[i]),
    decreases hand.len(),
{
    if hand.len() > 0 {
        let rest = hand.drop_last();
        assert forall|i: int| 0 <= i < rest.len() implies #[trigger] card_of(rest[i]) is Some by {
            assert(rest[i] == hand[i]);
        }
        lemma_cards_of_known(rest);
        assert(card_of(hand.last()) is Some);
        assert forall|i: int| 0 <= i < hand.len() implies Some(#[trigger] cards_of(hand)[i]) == card_of(hand[i]) by {
            if i < rest.len() {
                assert(rest[i] == hand[i]);
            }
        }
    }
}

/// When every card of the hand is known, the score that `find_best_hand`
/// finds is the score of the best play of the hand's cards, and the cards at
/// the positions it returns make the hand of that best play.
pub proof fn lemma_best_choice_is_best_play(
    hand: Seq<ApiCard>,
    scores: Map<Seq<char>, HandData>,
    indices: Seq<usize>,
    score: u64,
)
    requires
        all_known(hand),
        is_best_choice(hand, scores, indices, score),
    ensures
        best_play(cards_of(hand), scores).0 == score,
        score > 0 ==> hand_combo_total(hand, scores, indices) == Some(best_play(cards_of(hand), scores)),
{
    let cards = cards_of(hand);
    lemma_cards_of_known(hand);
    assert forall|c: Seq<usize>| #[trigger] is_index_combo(c, hand.len(), 5) implies hand_combo_total(
        hand,
        scores,
        c,
    ) == combo_total(cards, scores, c) by {
        let p = picked(hand, c);
        assert forall|i: int| 0 <= i < p.len() implies #[trigger] card_of(p[i]) is Some by {
            assert(p[i] == hand[c[i] as int]);
        }
        lemma_cards_of_known(p);
        assert(cards_of(p) =~= picked(cards, c));
    }
    let rank = if score > 0 {
        hand_combo_total(hand, scores, indices).unwrap().1
    } else {
        HandRank::HighCard
    };
    if score > 0 {
        assert(is_index_combo(indices, cards.len(), 5));
        assert(combo_total(cards, scores, indices) == Some((score, rank)));
        assert forall|d: Seq<usize>| #[trigger] is_index_combo(d, cards.len(), 5) && lex_less(d, indices)
            implies (combo_total(cards, scores, d) matches Some(p) ==> p.0 < score) by {
            assert(is_index_combo(d, hand.len(), 5));
        }
        assert(first_reaching(cards, scores, indices, score));
    }
    assert forall|c: Seq<usize>| #[trigger] is_index_combo(c, cards.len(), 5) implies (combo_total(
        cards,
        scores,
        c,
    ) matches Some(p) ==> p.0 <= score) by {
        assert(is_index_combo(c, hand.len(), 5));
    }
    assert(is_best_play(cards, scores, score, rank));
    lemma_best_play_is(cards, scores, (score, rank));
}

/// The rank read off a code of balatro-rs is the hand rank at that position
/// of the declaration order, and every rank is read off its own position.
pub proof fn lemma_rank_codes()
    ensures
        forall|code: u8| code < 13 ==> hand_rank_position(#[trigger] rank_at(code)) == code,
        forall|rank: HandRank| #[trigger] rank_at(hand_rank_position(rank)) == rank,
{
}

/// The hand that a selection of cards makes is the rank at the position that
/// balatro-rs's `best_hand` reports for those cards.
pub proof fn lemma_made_hand_is_reported_rank(cards: Seq<Card>)
    ensures
        match best_hand_code(cards.map_values(|c: Card| card_code(c))) {
            Some(code) => code < 13 ==> made_hand_rank(cards) is Some && hand_rank_position(
                made_hand_rank(cards).unwrap(),
            ) == code,
            None => made_hand_rank(cards) is None,
        },
{
    lemma_rank_codes();
}

/// The codes handed to balatro-rs name each value and suit by its position in
/// a fresh deck's order: reading a code back gives the card's value and suit.
pub proof fn lemma_card_codes_round_trip(c: Card)
    ensures
        card_code(c).0 < 13 && card_code(c).1 < 4,
        value_of_code(card_code(c).0 as int) == c.value,
        suit_of_code(card_code(c).1 as int) == c.suit,
{
}

/// Two cards get the same code only when they are the same card.
pub proof fn lemma_card_code_injective(a: Card, b: Card)
    requires
        card_code(a) == card_code(b),
    ensures
        a == b,
{
    lemma_card_codes_round_trip(a);
    lemma_card_codes_round_trip(b);
}

/// A card is worth its number from two to ten, ten as a face card, and eleven
/// as an ace; in the order of values, each card up to ten is worth one chip
/// more than the one before.
pub proof fn lemma_chips_follow_value(v: Value)
    ensures
        2 <= chips_of(v) <= 11,
        value_code(v) <= 8 ==> chips_of(v) == value_code(v) + 2,
        (v == Value::Jack || v == Value::Queen || v == Value::King) ==> chips_of(v) == 10,
        v == Value::Ace ==> chips_of(v) == 11,
{
}

/// The score of a hand reads only the chips and the mult of the hand's level:
/// two tables with the same names and the same chips and mult under each give
/// the same score, whatever the levels' order, level or play counts.
pub proof fn lemma_score_reads_chips_and_mult(
    cards: Seq<Card>,
    rank: HandRank,
    a: Map<Seq<char>, HandData>,
    b: Map<Seq<char>, HandData>,
)
    requires
        a.dom() == b.dom(),
        forall|k: Seq<char>| #[trigger] a.contains_key(k) ==> a[k].chips == b[k].chips && a[k].mult == b[k].mult,
    ensures
        hand_score(cards, rank, a) == hand_score(cards, rank, b),
{
    assert(a.contains_key(api_key(rank)) == b.contains_key(api_key(rank)));
}

/// Without cards, a hand scores its level's chips times its level's mult.
pub proof fn lemma_score_of_no_cards(rank: HandRank, scores: Map<Seq<char>, HandData>)
    requires
        scores.contains_key(api_key(rank)),
        scores[api_key(rank)].chips * scores[api_key(rank)].mult <= u64::MAX,
    ensures
        hand_score(Seq::empty(), rank, scores) == Some(
            (scores[api_key(rank)].chips * scores[api_key(rank)].mult) as u64,
        ),
{
}

/// One more card adds its chips times the level's mult to the score; the
/// score is there exactly when the table has the hand's level.
pub proof fn lemma_score_adds_card(cards: Seq<Card>, card: Card, rank: HandRank, scores: Map<Seq<char>, HandData>)
    requires
        (chips_sum(cards) + chips_of(card.value) + scores[api_key(rank)].chips) * scores[api_key(rank)].mult
            <= u64::MAX,
    ensures
        hand_score(cards, rank, scores) is Some == scores.contains_key(api_key(rank)),
        scores.contains_key(api_key(rank)) ==> hand_score(cards.push(card), rank, scores).unwrap() as int
            == hand_score(cards, rank, scores).unwrap() as int + chips_of(card.value)
            * scores[api_key(rank)].mult,
{
    assert(cards.push(card).drop_last() =~= cards);
    let c = chips_sum(cards) as int;
    let x = chips_of(card.value) as int;
    let l = scores[api_key(rank)].chips as int;
    let m = scores[api_key(rank)].mult as int;
    assert((c + x + l) * m == (c + l) * m + x * m) by (nonlinear_arith);
    assert(0 <= (c + l) * m <= (c + x + l) * m) by (nonlinear_arith)
        requires
            0 <= c,
            0 <= x,
            0 <= l,
            0 <= m,
    ;
}

/// The move decision: play when the best hand reaches the target; otherwise
/// discard the winning discard, or play anyway when none wins, as long as a
/// single discard is left, however many; give up exactly when the best hand
/// falls short and no discard is left.
pub proof fn lemma_move_choice(best_score: u64, target: u64, discards_left: u64, best: Option<Vec<usize>>)
    ensures
        best_score >= target ==> move_for(best_score, target, discards_left, best) == Move::Play,
        best_score < target && discards_left >= 1 ==> move_for(best_score, target, discards_left, best)
            == match best {
            Some(d) => Move::Discard(d),
            None => Move::PlayAnyway,
        },
        move_for(best_score, target, discards_left, best) == Move::GiveUp <==> best_score < target
            && discards_left == 0,
        discards_left >= 1 ==> move_for(best_score, target, discards_left, best) == move_for(
            best_score,
            target,
            1,
            best,
        ),
{
}

/// The blind in play: the small blind when its status is `CURRENT`; else the
/// big blind when its status is `CURRENT`, whatever the small blind's status
/// (defeated, skipped, ...); else the boss blind.
pub proof fn lemma_blind_in_play(blinds: Blinds)
    ensures
        blinds.small.status@ == "CURRENT"@ ==> blind_target(blinds) == blinds.small.score && blind_label(
            blinds,
        ) == "small blind"@,
        blinds.small.status@ != "CURRENT"@ && blinds.big.status@ == "CURRENT"@ ==> blind_target(blinds)
            == blinds.big.score && blind_label(blinds) == "big blind"@,
        blinds.small.status@ != "CURRENT"@ && blinds.big.status@ != "CURRENT"@ ==> blind_target(blinds)
            == blinds.boss.score && blind_label(blinds) == "boss blind"@,
{
}

/// The status of a blind that is not in play does not matter: changing the
/// small blind's status among statuses other than `CURRENT` changes neither
/// the score nor the name.
pub proof fn lemma_blind_other_status_ignored(blinds: Blinds, small: BlindInfo)
    requires
        blinds.small.status@ != "CURRENT"@,
        small.status@ != "CURRENT"@,
    ensures
        blind_target(Blinds { small, ..blinds }) == blind_target(blinds),
        blind_label(Blinds { small, ..blinds }) == blind_label(blinds),
{
}

/// A card is read off an API card exactly when its rank label and its suit
/// label are both known, and it then has the value that the rank label names
/// and the suit that the suit label names.
pub proof fn lemma_card_from_labels(api_card: ApiCard)
    ensures
        card_of(api_card) is Some ==> match (api_card.value.rank, api_card.value.suit) {
            (Some(r), Some(s)) => rank_of_label(r@) == Some(card_of(api_card).unwrap().value) && suit_of_label(
                s@,
            ) == Some(card_of(api_card).unwrap().suit),
            _ => false,
        },
        match (api_card.value.rank, api_card.value.suit) {
            (Some(r), Some(s)) => (rank_of_label(r@) is Some && suit_of_label(s@) is Some) ==> card_of(
                api_card,
            ) is Some,
            _ => card_of(api_card) is None,
        },
{
}

/// Each rank label names one value, and different labels name different values.
pub proof fn lemma_rank_labels_distinct(a: Seq<char>, b: Seq<char>)
    requires
        rank_of_label(a) is Some,
        rank_of_label(a) == rank_of_label(b),
    ensures
        a == b,
{
}

/// Each suit label names one suit, and different labels name different suits.
pub proof fn lemma_suit_labels_distinct(a: Seq<char>, b: Seq<char>)
    requires
        suit_of_label(a) is Some,
        suit_of_label(a) == suit_of_label(b),
    ensures
        a == b,
{
}

/// The character that names a value in the API's labels (and in balatro-rs's
/// card display): its number from two to nine, then T, J, Q, K, A.
pub open spec fn value_char(v: Value) -> char {
    match v {
        Value::Two => '2',
        Value::Three => '3',
        Value::Four => '4',
        Value::Five => '5',
        Value::Six => '6',
        Value::Seven => '7',
        Value::Eight => '8',
        Value::Nine => '9',
        Value::Ten => 'T',
        Value::Jack => 'J',
        Value::Queen => 'Q',
        Value::King => 'K',
        Value::Ace => 'A',
    }
}

/// The letter that names a suit in the API's labels: its initial.
pub open spec fn suit_char(s: Suit) -> char {
    match s {
        Suit::Spade => 'S',
        Suit::Club => 'C',
        Suit::Heart => 'H',
        Suit::Diamond => 'D',
    }
}

/// Every value is read off the one-character label of its character.
pub proof fn lemma_rank_label_of_each_value(v: Value)
    ensures
        rank_of_label(seq![value_char(v)]) == Some(v),
{
    reveal_strlit("2");
    reveal_strlit("3");
    reveal_strlit("4");
    reveal_strlit("5");
    reveal_strlit("6");
    reveal_strlit("7");
    reveal_strlit("8");
    reveal_strlit("9");
    reveal_strlit("T");
    reveal_strlit("J");
    reveal_strlit("Q");
    reveal_strlit("K");
    reveal_strlit("A");
    let l = seq![value_char(v)];
    assert(l.len() == 1 && l[0] == value_char(v));
    assert("2"@ =~= seq!['2']);
    assert("3"@ =~= seq!['3']);
    assert("4"@ =~= seq!['4']);
    assert("5"@ =~= seq!['5']);
    assert("6"@ =~= seq!['6']);
    assert("7"@ =~= seq!['7']);
    assert("8"@ =~= seq!['8']);
    assert("9"@ =~= seq!['9']);
    assert("T"@ =~= seq!['T']);
    assert("J"@ =~= seq!['J']);
    assert("Q"@ =~= seq!['Q']);
    assert("K"@ =~= seq!['K']);
    assert("A"@ =~= seq!['A']);
}

/// Every suit is read off the one-letter label of its initial.
pub proof fn lemma_suit_label_of_each_suit(s: Suit)
    ensures
        suit_of_label(seq![suit_char(s)]) == Some(s),
{
    reveal_strlit("S");
    reveal_strlit("C");
    reveal_strlit("H");
    reveal_strlit("D");
    let l = seq![suit_char(s)];
    assert(l.len() == 1 && l[0] == suit_char(s));
    assert("S"@ =~= seq!['S']);
    assert("C"@ =~= seq!['C']);
    assert("H"@ =~= seq!['H']);
    assert("D"@ =~= seq!['D']);
}

} // verus!

use vstd::prelude::*;

use crate::cards::{Card, Suit, Value};
use crate::scoring::{suit_code, value_code};
use crate::state::{card_of, convert_card, ApiCard};

verus! {

/// The value at position `code` of the order two, three, ..., king, ace.
pub open spec fn value_of_code(code: int) -> Value {
    if code == 0 {
        Value::Two
    } else if code == 1 {
        Value::Three
    } else if code == 2 {
        Value::Four
    } else if code == 3 {
        Value::Five
    } else if code == 4 {
        Value::Six
    } else if code == 5 {
        Value::Seven
    } else if code == 6 {
        Value::Eight
    } else if code == 7 {
        Value::Nine
    } else if code == 8 {
        Value::Ten
    } else if code == 9 {
        Value::Jack
    } else if code == 10 {
        Value::Queen
    } else if code == 11 {
        Value::King
    } else {
        Value::Ace
    }
}

/// The suit at position `code` of the order spade, club, heart, diamond.
pub open spec fn suit_of_code(code: int) -> Suit {
    if code == 0 {
        Suit::Spade
    } else if code == 1 {
        Suit::Club
    } else if code == 2 {
        Suit::Heart
    } else {
        Suit::Diamond
    }
}

/// The 52 cards of a fresh deck: all spades from two to ace, then the clubs,
/// the hearts and the diamonds.
pub open spec fn full_deck() -> Seq<Card> {
    Seq::new(52, |i: int| Card { value: value_of_code(i % 13), suit: suit_of_code(i / 13) })
}

/// `deck` without the card `c`: the last card takes the place of `c`.
/// Unchanged when `c` is not in the deck.
pub open spec fn without_card(deck: Seq<Card>, c: Card) -> Seq<Card> {
    if deck.contains(c) {
        let i = choose|i: int| 0 <= i < deck.len() && deck[i] == c;
        deck.update(i, deck.last()).drop_last()
    } else {
        deck
    }
}

/// `deck` after taking out, in order, the known cards among `hand`.
pub open spec fn deck_after(deck: Seq<Card>, hand: Seq<ApiCard>) -> Seq<Card>
    decreases hand.len(),
{
    if hand.len() == 0 {
        deck
    } else {
        let next = match card_of(hand[0]) {
            Some(c) => without_card(deck, c),
            None => deck,
        };
        deck_after(next, hand.drop_first())
    }
}

/// Some card of `hand` shows `c`.
pub open spec fn shows_card(hand: Seq<ApiCard>, c: Card) -> bool {
    exists|j: int| 0 <= j < hand.len() && #[trigger] card_of(hand[j]) == Some(c)
}

/// A fresh deck holds every card exactly once.
pub proof fn lemma_full_deck()
    ensures
        full_deck().no_duplicates(),
        forall|c: Card| #[trigger] full_deck().contains(c),
{
    let d = full_deck();
    assert forall|i: int, j: int| 0 <= i < d.len() && 0 <= j < d.len() && i != j implies d[i] != d[j] by {
        if d[i] == d[j] {
            assert(i % 13 == j % 13);
            assert(i / 13 == j / 13);
        }
    }
    assert forall|c: Card| #[trigger] d.contains(c) by {
        let k = 13 * suit_code(c.suit) + value_code(c.value);
        assert(d[k as int] == c);
    }
}

/// Swapping out the card at `p` of a deck without duplicates takes out exactly
/// that card.
proof fn lemma_swap_remove(d: Seq<Card>, p: int)
    requires
        d.no_duplicates(),
        0 <= p < d.len(),
    ensures
        d.update(p, d.last()).drop_last().no_duplicates(),
        forall|x: Card| #[trigger] d.update(p, d.last()).drop_last().contains(x) == (d.contains(x) && x != d[p]),
{
    let e = d.update(p, d.last()).drop_last();
    let n = d.len() - 1;
    assert forall|q: int| 0 <= q < e.len() implies #[trigger] e[q] == (if q == p { d[n] } else { d[q] }) by {}
    assert forall|x: Card| #[trigger] e.contains(x) == (d.contains(x) && x != d[p]) by {
        if e.contains(x) {
            let q = choose|q: int| 0 <= q < e.len() && e[q] == x;
            if q == p {
                assert(d[n] == x);
            } else {
                assert(d[q] == x);
            }
        }
        if d.contains(x) && x != d[p] {
            let q = choose|q: int| 0 <= q < d.len() && d[q] == x;
            if q == n {
                assert(e[p] == x);
            } else {
                assert(e[q] == x);
            }
        }
    }
}

fn value_from_code(code: u8) -> (v: Value)
    ensures
        v == value_of_code(code as int),
{
    if code == 0 {
        Value::Two
    } else if code == 1 {
        Value::Three
    } else if code == 2 {
        Value::Four
    } else if code == 3 {
        Value::Five
    } else if code == 4 {
        Value::Six
    } else if code == 5 {
        Value::Seven
    } else if code == 6 {
        Value::Eight
    } else if code == 7 {
        Value::Nine
    } else if code == 8 {
        Value::Ten
    } else if code == 9 {
        Value::Jack
    } else if code == 10 {
        Value::Queen
    } else if code == 11 {
        Value::King
    } else {
        Value::Ace
    }
}

fn suit_from_code(code: u8) -> (s: Suit)
    ensures
        s == suit_of_code(code as int),
{
    if code == 0 {
        Suit::Spade
    } else if code == 1 {
        Suit::Club
    } else if code == 2 {
        Suit::Heart
    } else {
        Suit::Diamond
    }
}

/// The cards of a fresh deck that the hand does not show: starting from the
/// 52 cards in order, each known card of the hand, in turn, is replaced by the
/// deck's last card, which is dropped.
pub fn remaining_deck(hand: &[ApiCard]) -> (deck: Vec<Card>)
    ensures
        deck@ == deck_after(full_deck(), hand@),
        deck@.no_duplicates(),
        forall|c: Card| #[trigger] deck@.contains(c) == !shows_card(hand@, c),
{
    let mut deck: Vec<Card> = Vec::with_capacity(52);
    let mut s: u8 = 0;
    while s < 4
        invariant
            s <= 4,
            deck@ == full_deck().subrange(0, 13 * s as int),
        decreases 4 - s,
    {
        let mut v: u8 = 0;
        while v < 13
            invariant
                s < 4,
                v <= 13,
                deck@ == full_deck().subrange(0, 13 * s + v),
            decreases 13 - v,
        {
            let ghost k = 13 * s as int + v as int;
            assert(k % 13 == v as int && k / 13 == s as int);
            deck.push(Card { value: value_from_code(v), suit: suit_from_code(s) });
            v = v + 1;
            assert(deck@ =~= full_deck().subrange(0, 13 * s + v));
        }
        s = s + 1;
    }
    assert(deck@ =~= full_deck());
    proof {
        lemma_full_deck();
        assert(hand@.skip(0) =~= hand@);
    }
    let mut i: usize = 0;
    while i < hand.len()
        invariant
            i <= hand.len(),
            deck@.no_duplicates(),
            deck_after(deck@, hand@.skip(i as int)) == deck_after(full_deck(), hand@),
            forall|c: Card| #[trigger] deck@.contains(c) == !shows_card(hand@.subrange(0, i as int), c),
        decreases hand.len() - i,
    {
        let ghost before = deck@;
        let ghost rest = hand@.skip(i as int);
        assert(rest[0] == hand@[i as int]);
        assert(rest.drop_first() =~= hand@.skip(i + 1));
        let converted = convert_card(&hand[i]);
        match converted {
            Some(hc) => {
                let mut p: usize = 0;
                while p < deck.len() && deck[p] != hc
                    invariant
                        p <= deck.len(),
                        deck@ == before,
                        forall|q: int| 0 <= q < p ==> deck@[q] != hc,
                    decreases deck.len() - p,
                {
                    p = p + 1;
                }
                let found = p < deck.len();
                if found {
                    proof {
                        let q = choose|q: int| 0 <= q < before.len() && before[q] == hc;
                        assert(before[p as int] == hc);
                        assert(q == p);
                        lemma_swap_remove(before, p as int);
                    }
                    deck.swap_remove(p);
                } else {
                    assert(!before.contains(hc));
                }
            },
            None => {},
        }
        proof {
            let prefix = hand@.subrange(0, i as int);
            let longer = hand@.subrange(0, i + 1);
            assert forall|c: Card| #[trigger] shows_card(longer, c) == (shows_card(prefix, c) || card_of(hand@[i as int]) == Some(c)) by {
                if shows_card(longer, c) {
                    let j = choose|j: int| 0 <= j < longer.len() && #[trigger] card_of(longer[j]) == Some(c);
                    if j < i {
                        assert(prefix[j] == longer[j]);
                    }
                }
                if shows_card(prefix, c) {
                    let j = choose|j: int| 0 <= j < prefix.len() && #[trigger] card_of(prefix[j]) == Some(c);
                    assert(longer[j] == prefix[j]);
                }
                if card_of(hand@[i as int]) == Some(c) {
                    assert(longer[i as int] == hand@[i as int]);
                }
            }
        }
        i = i + 1;
    }
    assert(hand@.subrange(0, hand.len() as int) =~= hand@);
    assert(hand@.skip(hand.len() as int) =~= Seq::<ApiCard>::empty());
    deck
}

} // verus!

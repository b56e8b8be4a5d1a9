use vstd::prelude::*;

verus! {

/// `c` picks `k` distinct positions out of `0..n`, listed in increasing order.
pub open spec fn is_index_combo(c: Seq<usize>, n: nat, k: nat) -> bool {
    &&& c.len() == k
    &&& forall|i: int| 0 <= i < c.len() ==> #[trigger] c[i] < n
    &&& forall|i: int, j: int| 0 <= i < j < c.len() ==> #[trigger] c[i] < #[trigger] c[j]
}

/// `a` and `b` agree before position `i`, and `a` is smaller at `i`.
pub open spec fn lex_less_at(a: Seq<usize>, b: Seq<usize>, i: int) -> bool {
    &&& 0 <= i < a.len()
    &&& i < b.len()
    &&& a[i] < b[i]
    &&& forall|j: int| 0 <= j < i ==> a[j] == b[j]
}

/// `a` comes strictly before `b` in lexicographic order.
pub open spec fn lex_less(a: Seq<usize>, b: Seq<usize>) -> bool {
    exists|i: int| #[trigger] lex_less_at(a, b, i)
}

/// No sequence comes before itself.
pub proof fn lemma_lex_irreflexive(a: Seq<usize>)
    ensures
        !lex_less(a, a),
{
}

/// Two sequences cannot each come before the other.
pub proof fn lemma_lex_asymmetric(a: Seq<usize>, b: Seq<usize>)
    ensures
        !(lex_less(a, b) && lex_less(b, a)),
{
    if lex_less(a, b) && lex_less(b, a) {
        let i = choose|i: int| #[trigger] lex_less_at(a, b, i);
        let j = choose|j: int| #[trigger] lex_less_at(b, a, j);
        if i < j {
            assert(b[i] == a[i]);
        } else if j < i {
            assert(a[j] == b[j]);
        }
    }
}

/// Of two different sequences of one length, one comes before the other.
pub proof fn lemma_lex_total(a: Seq<usize>, b: Seq<usize>)
    requires
        a.len() == b.len(),
    ensures
        a == b || lex_less(a, b) || lex_less(b, a),
{
    lemma_lex_total_from(a, b, 0);
}

proof fn lemma_lex_total_from(a: Seq<usize>, b: Seq<usize>, i: int)
    requires
        a.len() == b.len(),
        0 <= i <= a.len(),
        forall|j: int| 0 <= j < i ==> a[j] == b[j],
    ensures
        a == b || lex_less(a, b) || lex_less(b, a),
    decreases a.len() - i,
{
    if i == a.len() {
        assert(a =~= b);
    } else if a[i] == b[i] {
        lemma_lex_total_from(a, b, i + 1);
    } else if a[i] < b[i] {
        assert(lex_less_at(a, b, i));
    } else {
        assert(lex_less_at(b, a, i));
    }
}

/// In a list that is strictly increasing in lexicographic order, an entry that
/// comes before the entry at `p` stands before position `p`.
pub proof fn lemma_sorted_position(r: Seq<Seq<usize>>, p: int, j: int)
    requires
        forall|x: int, y: int| 0 <= x < y < r.len() ==> lex_less(#[trigger] r[x], #[trigger] r[y]),
        0 <= p < r.len(),
        0 <= j < r.len(),
        lex_less(r[j], r[p]),
    ensures
        j < p,
{
    if j == p {
        lemma_lex_irreflexive(r[j]);
    } else if j > p {
        lemma_lex_asymmetric(r[j], r[p]);
    }
}

} // verus!

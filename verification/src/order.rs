//! Sorted sequences: a sequence sorted by a strict order, without repeats,
//! is fixed by the elements it holds.

use vstd::prelude::*;

use crate::text::{lemma_seq_lt_irrefl, lemma_seq_lt_trans, seq_lt};

verus! {

/// Every earlier element of `s` comes before every later one under `lt`.
pub open spec fn sorted_by<T>(s: Seq<T>, lt: spec_fn(T, T) -> bool) -> bool {
    forall|i: int, j: int| 0 <= i < j < s.len() ==> #[trigger] lt(s[i], s[j])
}

/// `lt` is asymmetric (and so irreflexive).
pub open spec fn asymmetric<T>(lt: spec_fn(T, T) -> bool) -> bool {
    forall|x: T, y: T| #[trigger] lt(x, y) ==> !lt(y, x) && x != y
}

/// Two sequences sorted by the same asymmetric order and holding the same
/// elements are equal.
pub proof fn lemma_sorted_unique<T>(a: Seq<T>, b: Seq<T>, lt: spec_fn(T, T) -> bool)
    requires
        asymmetric(lt),
        sorted_by(a, lt),
        sorted_by(b, lt),
        forall|x: T| a.contains(x) <==> b.contains(x),
    ensures
        a == b,
    decreases a.len() + b.len(),
{
    if a.len() == 0 {
        if b.len() > 0 {
            assert(b.contains(b[0]));
        }
        assert(a =~= b);
    } else if b.len() == 0 {
        assert(a.contains(a[0]));
    } else {
        assert(a.contains(a[0]));
        assert(b.contains(b[0]));
        let j = choose|j: int| 0 <= j < b.len() && b[j] == a[0];
        let i = choose|i: int| 0 <= i < a.len() && a[i] == b[0];
        if j > 0 {
            assert(lt(b[0], b[j]));
            if i > 0 {
                assert(lt(a[0], a[i]));
            }
        }
        assert(a[0] == b[0]);
        let a1 = a.drop_first();
        let b1 = b.drop_first();
        assert forall|x: T| a1.contains(x) <==> b1.contains(x) by {
            if a1.contains(x) {
                let w = choose|w: int| 0 <= w < a1.len() && a1[w] == x;
                assert(a[w + 1] == x);
                assert(lt(a[0], a[w + 1]));
                assert(b.contains(x));
                let v = choose|v: int| 0 <= v < b.len() && b[v] == x;
                assert(v != 0);
                assert(b1[v - 1] == x);
            }
            if b1.contains(x) {
                let w = choose|w: int| 0 <= w < b1.len() && b1[w] == x;
                assert(b[w + 1] == x);
                assert(lt(b[0], b[w + 1]));
                assert(a.contains(x));
                let v = choose|v: int| 0 <= v < a.len() && a[v] == x;
                assert(v != 0);
                assert(a1[v - 1] == x);
            }
        }
        assert(sorted_by(a1, lt)) by {
            assert forall|p: int, q: int| 0 <= p < q < a1.len() implies #[trigger] lt(a1[p], a1[q]) by {
                assert(lt(a[p + 1], a[q + 1]));
            }
        }
        assert(sorted_by(b1, lt)) by {
            assert forall|p: int, q: int| 0 <= p < q < b1.len() implies #[trigger] lt(b1[p], b1[q]) by {
                assert(lt(b[p + 1], b[q + 1]));
            }
        }
        lemma_sorted_unique(a1, b1, lt);
        assert(a =~= seq![a[0]] + a1);
        assert(b =~= seq![b[0]] + b1);
    }
}

/// Text order is asymmetric.
pub proof fn lemma_seq_lt_asymmetric()
    ensures
        asymmetric(|x: Seq<char>, y: Seq<char>| seq_lt(x, y)),
{
    assert forall|x: Seq<char>, y: Seq<char>| #[trigger] seq_lt(x, y) implies !seq_lt(y, x) && x != y by {
        lemma_seq_lt_irrefl(x);
        if seq_lt(y, x) {
            lemma_seq_lt_trans(x, y, x);
        }
    }
}

} // verus!

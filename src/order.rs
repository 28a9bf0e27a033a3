//! Facts about sorted arrangements shared by span resolution and line
//! assembly.

use vstd::prelude::*;
use vstd::relations::sorted_by;

verus! {

broadcast use vstd::seq_lib::group_to_multiset_ensures;

/// Two arrangements of the same elements that are both sorted by `leq` are
/// the same sequence, as long as `leq` never relates two different elements
/// both ways.
pub proof fn lemma_sorted_arrangement_unique<A>(a: Seq<A>, b: Seq<A>, leq: spec_fn(A, A) -> bool)
    requires
        sorted_by(a, leq),
        sorted_by(b, leq),
        a.to_multiset() == b.to_multiset(),
        forall|x: A, y: A| a.contains(x) && a.contains(y) && leq(x, y) && leq(y, x) ==> x == y,
    ensures
        a == b,
    decreases a.len(),
{
    if a.len() == 0 {
        assert(b.to_multiset().len() == 0);
        assert(a =~= b);
    } else {
        assert(a.to_multiset().len() == a.len());
        assert(b.to_multiset().len() == b.len());
        assert(b.len() > 0);
        assert(a.to_multiset().count(a[0]) > 0);
        assert(b.contains(a[0]));
        assert(b.to_multiset().count(b[0]) > 0);
        assert(a.contains(b[0]));
        let j = choose|j: int| 0 <= j < b.len() && b[j] == a[0];
        let i = choose|i: int| 0 <= i < a.len() && a[i] == b[0];
        if i != 0 && j != 0 {
            assert(leq(a[0], a[i]));
            assert(leq(b[0], b[j]));
        }
        assert(a[0] == b[0]);
        let a1 = a.drop_first();
        let b1 = b.drop_first();
        assert(a.remove(0) =~= a1);
        assert(b.remove(0) =~= b1);
        assert(a1.to_multiset() == a.to_multiset().remove(a[0]));
        assert(b1.to_multiset() == b.to_multiset().remove(b[0]));
        assert forall|x: A| a1.contains(x) implies a.contains(x) by {
            let k = choose|k: int| 0 <= k < a1.len() && a1[k] == x;
            assert(a[k + 1] == x);
        }
        assert(sorted_by(a1, leq)) by {
            assert forall|p: int, q: int| 0 <= p < q < a1.len() implies #[trigger] leq(a1[p], a1[q]) by {
                assert(leq(a[p + 1], a[q + 1]));
            }
        }
        assert(sorted_by(b1, leq)) by {
            assert forall|p: int, q: int| 0 <= p < q < b1.len() implies #[trigger] leq(b1[p], b1[q]) by {
                assert(leq(b[p + 1], b[q + 1]));
            }
        }
        lemma_sorted_arrangement_unique(a1, b1, leq);
        assert forall|k: int| 0 <= k < a.len() implies a[k] == b[k] by {
            if k > 0 {
                assert(a[k] == a1[k - 1]);
                assert(b[k] == b1[k - 1]);
            }
        }
        assert(a =~= b);
    }
}

/// Inserting `x` after every element that precedes it, and before every
/// element that it strictly precedes, keeps a sorted sequence sorted.
pub proof fn lemma_sorted_insert<A>(s: Seq<A>, j: int, x: A, leq: spec_fn(A, A) -> bool)
    requires
        sorted_by(s, leq),
        0 <= j <= s.len(),
        forall|k: int| 0 <= k < j ==> leq(#[trigger] s[k], x),
        forall|k: int| j <= k < s.len() ==> leq(x, #[trigger] s[k]),
    ensures
        sorted_by(s.insert(j, x), leq),
        s.insert(j, x).to_multiset() == s.to_multiset().insert(x),
{
    let t = s.insert(j, x);
    s.insert_ensures(j, x);
    assert forall|p: int, q: int| 0 <= p < q < t.len() implies #[trigger] leq(t[p], t[q]) by {
        if q < j {
            assert(leq(s[p], s[q]));
        } else if q == j {
            assert(leq(s[p], x));
        } else if p < j {
            assert(leq(s[p], s[q - 1]));
        } else if p == j {
            assert(leq(x, s[q - 1]));
        } else {
            assert(leq(s[p - 1], s[q - 1]));
        }
    }
}

} // verus!

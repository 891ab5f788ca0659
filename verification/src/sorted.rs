//! Sequences in strict order: there is only one way to put a set of values
//! in order.

use vstd::prelude::*;

verus! {

/// `before` is a strict order: nothing comes before itself, and what comes
/// before a thing comes before all that the thing comes before.
pub open spec fn is_strict_order<T>(before: spec_fn(T, T) -> bool) -> bool {
    &&& forall|x: T| !#[trigger] before(x, x)
    &&& forall|x: T, y: T, z: T| #[trigger] before(x, y) && #[trigger] before(y, z) ==> before(x, z)
}

/// Every item of `s` comes before all that follow it.
pub open spec fn strictly_sorted<T>(s: Seq<T>, before: spec_fn(T, T) -> bool) -> bool {
    forall|i: int, j: int| 0 <= i < j < s.len() ==> before(#[trigger] s[i], #[trigger] s[j])
}

/// Two sequences in the same strict order that hold the same values are
/// the same sequence.
pub proof fn lemma_sorted_is_unique<T>(a: Seq<T>, b: Seq<T>, before: spec_fn(T, T) -> bool)
    requires
        is_strict_order(before),
        strictly_sorted(a, before),
        strictly_sorted(b, before),
        forall|x: T| a.contains(x) <==> b.contains(x),
    ensures
        a == b,
    decreases a.len(),
{
    if a.len() == 0 {
        if b.len() > 0 {
            assert(b.contains(b[0]));
        }
        assert(a =~= b);
    } else {
        let x = a.last();
        assert(a[a.len() - 1] == x);
        assert(a.contains(x));
        let j = choose|j: int| 0 <= j < b.len() && b[j] == x;
        let y = b.last();
        assert(b[b.len() - 1] == y);
        assert(b.contains(y));
        let i = choose|i: int| 0 <= i < a.len() && a[i] == y;
        if j < b.len() - 1 {
            assert(before(b[j], b[b.len() - 1]));
            if i < a.len() - 1 {
                assert(before(a[i], a[a.len() - 1]));
            }
        }
        assert(x == y);
        let fewer_a = a.drop_last();
        let fewer_b = b.drop_last();
        assert forall|z: T| fewer_a.contains(z) <==> fewer_b.contains(z) by {
            if fewer_a.contains(z) {
                let k = choose|k: int| 0 <= k < fewer_a.len() && fewer_a[k] == z;
                assert(a[k] == z);
                assert(a.contains(z));
                let m = choose|m: int| 0 <= m < b.len() && b[m] == z;
                if m == b.len() - 1 {
                    assert(before(a[k], a[a.len() - 1]));
                }
                assert(fewer_b[m] == z);
            }
            if fewer_b.contains(z) {
                let k = choose|k: int| 0 <= k < fewer_b.len() && fewer_b[k] == z;
                assert(b[k] == z);
                assert(b.contains(z));
                let m = choose|m: int| 0 <= m < a.len() && a[m] == z;
                if m == a.len() - 1 {
                    assert(before(b[k], b[b.len() - 1]));
                }
                assert(fewer_a[m] == z);
            }
        }
        assert forall|i: int, j: int| 0 <= i < j < fewer_a.len() implies before(
            #[trigger] fewer_a[i],
            #[trigger] fewer_a[j],
        ) by {
            assert(before(a[i], a[j]));
        }
        assert forall|i: int, j: int| 0 <= i < j < fewer_b.len() implies before(
            #[trigger] fewer_b[i],
            #[trigger] fewer_b[j],
        ) by {
            assert(before(b[i], b[j]));
        }
        lemma_sorted_is_unique(fewer_a, fewer_b, before);
        assert(a =~= fewer_a.push(x));
        assert(b =~= fewer_b.push(y));
    }
}

} // verus!

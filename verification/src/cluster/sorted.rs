//! Strictly increasing index vectors, used as ordered sets of point indices.
use vstd::prelude::*;

verus! {

/// `s` is strictly increasing (so it holds no value twice).
pub open spec fn strictly_increasing(s: Seq<usize>) -> bool {
    forall|i: int, j: int| 0 <= i < j < s.len() ==> s[i] < s[j]
}

/// Insert `x` into a strictly increasing vector unless it is already there;
/// returns whether it was added.
pub fn insert_sorted(v: &mut Vec<usize>, x: usize) -> (added: bool)
    requires
        strictly_increasing(old(v)@),
    ensures
        strictly_increasing(final(v)@),
        added == !old(v)@.contains(x),
        forall|y: usize| final(v)@.contains(y) <==> (old(v)@.contains(y) || y == x),
        final(v)@.len() == old(v)@.len() + (if added { 1int } else { 0int }),
{
    let mut i: usize = 0;
    while i < v.len() && v[i] < x
        invariant
            0 <= i <= v@.len(),
            forall|k: int| 0 <= k < i ==> v@[k] < x,
        decreases v@.len() - i,
    {
        i = i + 1;
    }
    if i < v.len() && v[i] == x {
        return false;
    }
    proof {
        assert(!v@.contains(x)) by {
            if v@.contains(x) {
                let k = choose|k: int| 0 <= k < v@.len() && v@[k] == x;
                if k >= i {
                    assert(v@[i as int] <= v@[k]);
                }
            }
        }
    }
    let ghost old_v = v@;
    v.insert(i, x);
    proof {
        assert forall|y: usize| v@.contains(y) <==> (old_v.contains(y) || y == x) by {
            if v@.contains(y) {
                let k = choose|k: int| 0 <= k < v@.len() && v@[k] == y;
                if k < i {
                    assert(old_v[k] == y);
                } else if k > i {
                    assert(old_v[k - 1] == y);
                }
            }
            if old_v.contains(y) {
                let k = choose|k: int| 0 <= k < old_v.len() && old_v[k] == y;
                if k < i {
                    assert(v@[k] == y);
                } else {
                    assert(v@[k + 1] == y);
                }
            }
            if y == x {
                assert(v@[i as int] == x);
            }
        }
    }
    true
}

} // verus!

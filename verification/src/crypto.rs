//! Comparisons for secrets.

use vstd::prelude::*;

verus! {

/// Compares two byte strings without stopping at the first difference.
pub fn constant_time_eq(a: &[u8], b: &[u8]) -> (equal: bool)
    ensures
        equal == (a@ == b@),
{
    if a.len() != b.len() {
        return false;
    }
    let mut diff: u8 = 0;
    for i in 0..a.len()
        invariant
            a.len() == b.len(),
            (diff == 0) == (a@.take(i as int) =~= b@.take(i as int)),
    {
        let x: u8 = a[i];
        let y: u8 = b[i];
        let next: u8 = diff | (x ^ y);
        assert((next == 0) == (diff == 0 && x == y)) by (bit_vector)
            requires
                next == diff | (x ^ y),
        ;
        proof {
            let (ta, tb) = (a@.take(i as int + 1), b@.take(i as int + 1));
            assert(ta =~= a@.take(i as int).push(x));
            assert(tb =~= b@.take(i as int).push(y));
            assert(ta.last() == x && tb.last() == y);
            assert(ta.drop_last() =~= a@.take(i as int));
            assert(tb.drop_last() =~= b@.take(i as int));
        }
        diff = next;
    }
    assert(a@.take(a@.len() as int) =~= a@);
    assert(b@.take(b@.len() as int) =~= b@);
    diff == 0
}

} // verus!

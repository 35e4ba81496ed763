//! Small helpers for building byte vectors.

use vstd::prelude::*;

verus! {

/// Append all bytes of `s` to `out`.
pub fn push_all(out: &mut Vec<u8>, s: &[u8])
    ensures
        final(out)@ == old(out)@ + s@,
{
    out.extend_from_slice(s);
    proof {
        assert forall|i: int| 0 <= i < out@.len() implies out@[i] == (old(out)@ + s@)[i] by {
            if i >= old(out)@.len() {
                assert(cloned::<u8>(s@[i - old(out)@.len()], out@[i]));
            }
        }
        assert(out@ =~= old(out)@ + s@);
    }
}

/// Clone a byte vector; the copy holds the same bytes.
pub fn clone_bytes(v: &Vec<u8>) -> (r: Vec<u8>)
    ensures
        r@ == v@,
{
    let r = v.clone();
    proof {
        assert forall|i: int| 0 <= i < r@.len() implies r@[i] == v@[i] by {
            assert(cloned::<u8>(v@[i], r@[i]));
        }
        assert(r@ =~= v@);
    }
    r
}

} // verus!

//! FNV-1a hasher for integer-keyed hash sets.
use std::hash::{BuildHasherDefault, Hasher};
use vstd::prelude::*;

verus! {

pub const OFFSET: u64 = 0xcbf29ce484222325;

pub const PRIME: u64 = 0x00000100000001B3;

/// Convenience type alias for use with `HashSet` and `HashMap`.
pub type FnvBuildHasher = BuildHasherDefault<FnvHasher>;

/// FNV-1a hasher state. Initialised with the FNV offset basis.
#[derive(Clone)]
pub struct FnvHasher(u64);

/// One FNV-1a round: xor the byte in, then multiply by the prime (modulo 2^64)
pub open spec fn fnv_round(state: u64, byte: u8) -> u64 {
    (state ^ (byte as u64)).wrapping_mul(PRIME)
}

/// The state after feeding `bytes`, in order, to a hasher in state `state`
pub open spec fn fnv_fold(state: u64, bytes: Seq<u8>) -> u64
    decreases bytes.len(),
{
    if bytes.len() == 0 {
        state
    } else {
        fnv_round(fnv_fold(state, bytes.drop_last()), bytes.last())
    }
}

/// The FNV-1a hash of `bytes`
pub open spec fn fnv1a(bytes: Seq<u8>) -> u64 {
    fnv_fold(OFFSET, bytes)
}

impl View for FnvHasher {
    type V = u64;

    closed spec fn view(&self) -> u64 {
        self.0
    }
}

impl Default for FnvHasher {
    fn default() -> (h: Self)
        ensures
            h@ == OFFSET,
    {
        FnvHasher(OFFSET)
    }
}

impl Hasher for FnvHasher {
    #[inline]
    fn write(&mut self, bytes: &[u8])
        ensures
            final(self)@ == fnv_fold(old(self)@, bytes@),
    {
        let n = bytes.len();
        let mut i: usize = 0;
        while i < n
            invariant
                n == bytes@.len(),
                i <= n,
                self@ == fnv_fold(old(self)@, bytes@.subrange(0, i as int)),
            decreases n - i,
        {
            let b = bytes[i];
            self.0 = self.0 ^ (b as u64);
            self.0 = self.0.wrapping_mul(PRIME);
            proof {
                assert(bytes@.subrange(0, i + 1).drop_last() =~= bytes@.subrange(0, i as int));
            }
            i = i + 1;
        }
        assert(bytes@.subrange(0, n as int) =~= bytes@);
    }

    #[inline]
    fn finish(&self) -> (h: u64)
        ensures
            h == self@,
    {
        self.0
    }
}

/// Feeding bytes in two writes hashes the same as feeding them in one: the state
/// after `a` then `b` is the state after `a + b`.
pub proof fn lemma_fnv_streaming(state: u64, a: Seq<u8>, b: Seq<u8>)
    ensures
        fnv_fold(fnv_fold(state, a), b) == fnv_fold(state, a + b),
    decreases b.len(),
{
    if b.len() == 0 {
        assert(a + b =~= a);
    } else {
        lemma_fnv_streaming(state, a, b.drop_last());
        assert((a + b).drop_last() =~= a + b.drop_last());
        assert((a + b).last() == b.last());
    }
}

} // verus!

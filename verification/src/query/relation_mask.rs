//! A small fixed-width bit mask used to record which related items a matched
//! request pulls into the selection.
use vstd::prelude::*;

verus! {

/// True iff bit `i` of `m` is set.
pub open spec fn bit64(m: u64, i: u64) -> bool {
    m >> i & 1u64 == 1u64
}

/// A set of up to 64 flags stored inline in one word.
#[derive(Debug, Clone, Copy)]
pub struct Bitmask {
    mask: u64,
}

impl Bitmask {
    /// True iff flag `i` is set.
    pub closed spec fn spec_get(self, i: u64) -> bool {
        bit64(self.mask, i)
    }

    pub fn new() -> (r: Self)
        ensures
            forall|j: u64| j < 64 ==> !r.spec_get(j),
    {
        proof {
            assert(forall|j: u64| j < 64 ==> !bit64(0u64, j)) by (bit_vector);
        }
        Self { mask: 0 }
    }

    pub fn set(&mut self, i: usize, on: bool)
        requires
            i < 64,
        ensures
            forall|j: u64| j < 64 ==> final (self).spec_get(j) == (if j == i as u64 {
                on
            } else {
                old(self).spec_get(j)
            }),
    {
        if on {
            self.on(i)
        } else {
            self.off(i)
        }
    }

    pub fn on(&mut self, i: usize)
        requires
            i < 64,
        ensures
            forall|j: u64| j < 64 ==> final (self).spec_get(j) == (old(self).spec_get(j) || j == i
                as u64),
    {
        proof {
            assert(forall|m: u64, k: u64, j: u64|
                k < 64 && j < 64 ==> bit64(m | (1u64 << k), j) == (bit64(m, j) || j == k))
                by (bit_vector);
        }
        self.mask = self.mask | (1u64 << (i as u64));
    }

    pub fn off(&mut self, i: usize)
        requires
            i < 64,
        ensures
            forall|j: u64| j < 64 ==> final (self).spec_get(j) == (old(self).spec_get(j) && j != i
                as u64),
    {
        proof {
            assert(forall|m: u64, k: u64, j: u64|
                k < 64 && j < 64 ==> bit64(m & !(1u64 << k), j) == (bit64(m, j) && j != k))
                by (bit_vector);
        }
        self.mask = self.mask & !(1u64 << (i as u64));
    }

    pub fn get(&self, i: usize) -> (r: bool)
        requires
            i < 64,
        ensures
            r == self.spec_get(i as u64),
    {
        proof {
            assert(forall|m: u64, k: u64| k < 64 ==> ((m & (1u64 << k) != 0) == bit64(m, k)))
                by (bit_vector);
        }
        self.mask & (1u64 << (i as u64)) != 0
    }

    /// Fold the flags of `other` into `self`.
    pub fn merge(&mut self, other: &Bitmask)
        ensures
            forall|j: u64| j < 64 ==> final (self).spec_get(j) == (old(self).spec_get(j)
                || other.spec_get(j)),
    {
        proof {
            assert(forall|m: u64, n: u64, j: u64|
                j < 64 ==> bit64(m | n, j) == (bit64(m, j) || bit64(n, j))) by (bit_vector);
        }
        self.mask = self.mask | other.mask;
    }
}

impl Default for Bitmask {
    fn default() -> (r: Self)
        ensures
            forall|j: u64| j < 64 ==> !r.spec_get(j),
    {
        Self::new()
    }
}

} // verus!

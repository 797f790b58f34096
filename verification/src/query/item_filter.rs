//! Shared evaluation helpers for the per-kind request filters.
use vstd::prelude::*;

verus! {

/// True iff `l` holds the byte string `v`.
pub open spec fn list_contains(l: Seq<Seq<u8>>, v: Seq<u8>) -> bool {
    exists|i: int| 0 <= i < l.len() && l[i] == v
}

/// The views of a list of byte strings.
pub open spec fn views(l: Seq<Vec<u8>>) -> Seq<Seq<u8>> {
    l.map_values(|x: Vec<u8>| x@)
}

/// Byte-wise equality of two byte strings.
pub fn bytes_eq(a: &[u8], b: &[u8]) -> (r: bool)
    ensures
        r == (a@ == b@),
{
    if a.len() != b.len() {
        proof {
            assert(a@.len() != b@.len());
        }
        return false;
    }
    let mut i: usize = 0;
    while i < a.len()
        invariant
            i <= a@.len(),
            a@.len() == b@.len(),
            forall|j: int| 0 <= j < i ==> a@[j] == b@[j],
        decreases a@.len() - i,
    {
        if a[i] != b[i] {
            return false;
        }
        i = i + 1;
    }
    proof {
        assert(a@ =~= b@);
    }
    true
}

/// Membership of a byte string in a list of byte strings.
pub fn contains_bytes(l: &Vec<Vec<u8>>, v: &[u8]) -> (r: bool)
    ensures
        r == list_contains(views(l@), v@),
{
    let mut i: usize = 0;
    while i < l.len()
        invariant
            i <= l@.len(),
            forall|j: int| 0 <= j < i ==> views(l@)[j] != v@,
        decreases l@.len() - i,
    {
        if bytes_eq(l[i].as_slice(), v) {
            proof {
                assert(views(l@)[i as int] == v@);
            }
            return true;
        }
        i = i + 1;
    }
    false
}

} // verus!

//! The per-transaction selection set: one flag for the transaction record and
//! one lazy index set per item kind.
use crate::data::TransactionData;
use vstd::prelude::*;

verus! {

/// What the filter selected for one transaction.
#[derive(Debug)]
pub struct SelectedItems {
    pub transaction: bool,
    pub instructions: ItemSelection,
    pub balances: ItemSelection,
    pub token_balances: ItemSelection,
}

impl SelectedItems {
    pub open spec fn wf(self) -> bool {
        self.instructions.wf() && self.balances.wf() && self.token_balances.wf()
    }

    /// Nothing is selected.
    pub open spec fn spec_is_empty(self) -> bool {
        &&& !self.transaction
        &&& self.instructions.spec_is_empty()
        &&& self.balances.spec_is_empty()
        &&& self.token_balances.spec_is_empty()
    }

    /// An empty selection sized to one transaction's item lists.
    pub fn new_for_transaction(tx: &TransactionData) -> (r: Self)
        ensures
            r.wf(),
            !r.transaction,
            r.instructions.spec_len() == tx.instructions@.len(),
            r.balances.spec_len() == tx.balances@.len(),
            r.token_balances.spec_len() == tx.token_balances@.len(),
            !r.instructions.spec_includes_all(),
            !r.balances.spec_includes_all(),
            !r.token_balances.spec_includes_all(),
            forall|j: int| !r.instructions.selected(j),
            forall|j: int| !r.balances.selected(j),
            forall|j: int| !r.token_balances.selected(j),
    {
        SelectedItems {
            transaction: false,
            instructions: ItemSelection::new(tx.instructions.len()),
            balances: ItemSelection::new(tx.balances.len()),
            token_balances: ItemSelection::new(tx.token_balances.len()),
        }
    }

    /// True iff no item at all was selected; such a transaction is skipped.
    pub fn is_empty(&self) -> (r: bool)
        requires
            self.wf(),
        ensures
            r == self.spec_is_empty(),
    {
        !self.transaction && self.instructions.is_empty() && self.token_balances.is_empty()
            && self.balances.is_empty()
    }
}

/// A lazy index set over `0..len` with a sticky include-all flag. The mask
/// vector is allocated only when a specific index is added while the flag is
/// off; the flag subsumes any explicit bits.
#[derive(Debug)]
pub struct ItemSelection {
    mask: Vec<bool>,
    len: usize,
    include_all: bool,
}

impl ItemSelection {
    /// The number of items this selection ranges over.
    pub closed spec fn spec_len(self) -> int {
        self.len as int
    }

    /// The sticky include-all flag.
    pub closed spec fn spec_includes_all(self) -> bool {
        self.include_all
    }

    /// True iff index `i` was explicitly added.
    pub closed spec fn picked(self, i: int) -> bool {
        0 <= i < self.mask@.len() && self.mask@[i]
    }

    /// The mask is either unallocated or exactly `len` long, and never
    /// allocated without at least one bit set.
    pub closed spec fn wf(self) -> bool {
        &&& self.mask@.len() == 0 || self.mask@.len() == self.len as int
        &&& self.mask@.len() > 0 ==> exists|i: int|
            0 <= i < self.mask@.len() && self.mask@[i]
    }

    /// True iff index `i` is in the set.
    pub open spec fn selected(self, i: int) -> bool {
        if self.spec_includes_all() {
            0 <= i < self.spec_len()
        } else {
            self.picked(i)
        }
    }

    /// True iff the set is empty.
    pub open spec fn spec_is_empty(self) -> bool {
        forall|i: int| !self.selected(i)
    }

    pub fn new(len: usize) -> (r: Self)
        ensures
            r.wf(),
            r.spec_len() == len,
            !r.spec_includes_all(),
            forall|i: int| !r.selected(i),
    {
        ItemSelection { mask: Vec::new(), len, include_all: false }
    }

    /// Makes the set include every index below `len` when `yes` holds.
    pub fn add_all(&mut self, yes: bool)
        requires
            old(self).wf(),
        ensures
            final (self).wf(),
            final (self).spec_len() == old(self).spec_len(),
            final (self).spec_includes_all() == (old(self).spec_includes_all() || yes),
            forall|i: int|
                final (self).selected(i) == (old(self).selected(i) || (yes && 0 <= i < old(
                    self,
                ).spec_len())),
    {
        self.include_all = self.include_all || yes;
    }

    /// Adds index `i` to the set.
    pub fn add(&mut self, i: usize)
        requires
            old(self).wf(),
            i < old(self).spec_len(),
        ensures
            final (self).wf(),
            final (self).spec_len() == old(self).spec_len(),
            final (self).spec_includes_all() == old(self).spec_includes_all(),
            forall|j: int| final (self).selected(j) == (old(self).selected(j) || j == i as int),
    {
        if self.mask.is_empty() {
            if !self.include_all {
                let n: usize = self.len;
                self.mask.resize(n, false);
                self.mask[i] = true;
                proof {
                    assert(self.mask@[i as int]);
                }
            }
        } else {
            self.mask[i] = true;
            proof {
                assert(self.mask@[i as int]);
            }
        }
    }

    pub fn includes_all(&self) -> (r: bool)
        ensures
            r == self.spec_includes_all(),
    {
        self.include_all
    }

    pub fn is_empty(&self) -> (r: bool)
        requires
            self.wf(),
        ensures
            r == self.spec_is_empty(),
    {
        let r = self.mask.is_empty() && (self.len == 0 || !self.include_all);
        proof {
            if r {
                assert(forall|i: int| !self.selected(i));
            } else {
                if self.mask@.len() > 0 {
                    let w = choose|i: int| 0 <= i < self.mask@.len() && self.mask@[i];
                    assert(self.selected(w));
                } else {
                    assert(self.selected(0));
                }
            }
        }
        r
    }

    /// The selected indices below `n`, in increasing order.
    pub open spec fn selected_upto(self, n: int) -> Seq<usize>
        decreases n,
    {
        if n <= 0 {
            Seq::empty()
        } else {
            self.selected_upto(n - 1) + (if self.selected(n - 1) {
                seq![(n - 1) as usize]
            } else {
                Seq::empty()
            })
        }
    }

    /// Hands out the selected indices, in increasing order.
    pub fn selected_indices(&self) -> (r: Vec<usize>)
        requires
            self.wf(),
        ensures
            r@ == self.selected_upto(self.spec_len()),
            forall|k: int| 0 <= k < r@.len() ==> (#[trigger] r@[k] as int) < self.spec_len(),
    {
        let mut r: Vec<usize> = Vec::new();
        if self.include_all {
            let mut i: usize = 0;
            while i < self.len
                invariant
                    i <= self.len,
                    self.spec_includes_all(),
                    r@ =~= self.selected_upto(i as int),
                    forall|k: int| 0 <= k < r@.len() ==> (#[trigger] r@[k] as int) < self.spec_len(),
                decreases self.len - i,
            {
                r.push(i);
                i = i + 1;
                proof {
                    assert(self.selected(i as int - 1));
                    assert(r@ =~= self.selected_upto(i as int));
                }
            }
        } else {
            let mut i: usize = 0;
            let n: usize = self.mask.len();
            proof {
                assert(forall|j: int| self.selected(j) ==> 0 <= j < self.mask@.len());
            }
            while i < n
                invariant
                    i <= n,
                    n == self.mask@.len(),
                    n <= self.spec_len(),
                    !self.spec_includes_all(),
                    r@ =~= self.selected_upto(i as int),
                    forall|k: int| 0 <= k < r@.len() ==> (#[trigger] r@[k] as int) < self.spec_len(),
                decreases n - i,
            {
                if self.mask[i] {
                    r.push(i);
                }
                i = i + 1;
                proof {
                    assert(r@ =~= self.selected_upto(i as int));
                }
            }
            proof {
                lemma_selected_upto_stable(*self, n as int, self.spec_len());
            }
        }
        r
    }
}

/// Beyond the last possible index the selected prefix stops growing.
proof fn lemma_selected_upto_stable(s: ItemSelection, n: int, m: int)
    requires
        n <= m,
        forall|j: int| s.selected(j) ==> 0 <= j < n,
    ensures
        s.selected_upto(m) == s.selected_upto(n),
    decreases m - n,
{
    if n < m {
        lemma_selected_upto_stable(s, n, m - 1);
        assert(s.selected_upto(m) =~= s.selected_upto(m - 1));
    }
}

} // verus!

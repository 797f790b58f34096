//! The compiled filter: all four request kinds, evaluated in order against a
//! transaction to produce its selection set.
use crate::data::TransactionData;
use crate::query::balance::bal_any;
use crate::query::balance::bal_stage_rel;
use crate::query::balance::BalanceFilter;
use crate::query::instruction::acc_views;
use crate::query::instruction::ins_any;
use crate::query::instruction::ins_extra_selected;
use crate::query::instruction::ins_stage_rel;
use crate::query::instruction::InstructionFilter;
use crate::query::model::SolanaQuery;
use crate::query::selected_items::SelectedItems;
use crate::query::token_balance::tok_any;
use crate::query::token_balance::tok_stage_rel;
use crate::query::token_balance::TokenBalanceFilter;
use crate::query::transaction::tx_any;
use crate::query::transaction::tx_rel;
use crate::query::transaction::TransactionFilter;
use vstd::prelude::*;

verus! {

/// The compiled form of one subscription query.
pub struct Filter {
    pub transaction: TransactionFilter,
    pub instruction: InstructionFilter,
    pub balance: BalanceFilter,
    pub token_balance: TokenBalanceFilter,
}

/// The transaction record is selected: a transaction request matched, or a
/// matching item request pulled the transaction in.
pub open spec fn spec_sel_transaction(f: Filter, tx: TransactionData) -> bool {
    ||| tx_any(f.transaction.requests@, tx)
    ||| ins_stage_rel(f.instruction.requests@, tx, 0)
    ||| bal_stage_rel(f.balance.requests@, tx.balances@, 0)
    ||| tok_stage_rel(f.token_balance.requests@, tx.token_balances@, 0)
}

/// Every instruction is selected wholesale.
pub open spec fn spec_all_instructions(f: Filter, tx: TransactionData) -> bool {
    ||| tx_rel(f.transaction.requests@, tx, 0)
    ||| ins_stage_rel(f.instruction.requests@, tx, 1)
    ||| bal_stage_rel(f.balance.requests@, tx.balances@, 1)
    ||| tok_stage_rel(f.token_balance.requests@, tx.token_balances@, 1)
}

pub open spec fn spec_all_balances(f: Filter, tx: TransactionData) -> bool {
    ||| tx_rel(f.transaction.requests@, tx, 2)
    ||| ins_stage_rel(f.instruction.requests@, tx, 2)
}

pub open spec fn spec_all_token_balances(f: Filter, tx: TransactionData) -> bool {
    ||| tx_rel(f.transaction.requests@, tx, 3)
    ||| ins_stage_rel(f.instruction.requests@, tx, 3)
}

/// Which instructions end up selected.
pub open spec fn spec_instruction_selected(f: Filter, tx: TransactionData, j: int) -> bool {
    0 <= j < tx.instructions@.len() && (spec_all_instructions(f, tx) || ins_any(
        f.instruction.requests@,
        tx.instructions@[j],
        acc_views(tx),
    ) || ins_extra_selected(
        f.instruction.requests@,
        tx,
        tx_rel(f.transaction.requests@, tx, 0),
        j,
    ))
}

pub open spec fn spec_balance_selected(f: Filter, tx: TransactionData, j: int) -> bool {
    0 <= j < tx.balances@.len() && (spec_all_balances(f, tx) || bal_any(
        f.balance.requests@,
        tx.balances@[j],
    ))
}

pub open spec fn spec_token_balance_selected(f: Filter, tx: TransactionData, j: int) -> bool {
    0 <= j < tx.token_balances@.len() && (spec_all_token_balances(f, tx) || tok_any(
        f.token_balance.requests@,
        tx.token_balances@[j],
    ))
}

/// The whole selection is empty: no notification is owed.
pub open spec fn spec_eval_is_empty(f: Filter, tx: TransactionData) -> bool {
    &&& !spec_sel_transaction(f, tx)
    &&& forall|j: int| !spec_instruction_selected(f, tx, j)
    &&& forall|j: int| !spec_balance_selected(f, tx, j)
    &&& forall|j: int| !spec_token_balance_selected(f, tx, j)
}

impl Filter {
    /// The compiled filter means exactly what the query's request lists say.
    pub open spec fn corresponds(self, query: SolanaQuery) -> bool {
        &&& self.transaction.corresponds(query.transactions@)
        &&& self.instruction.corresponds(query.instructions@)
        &&& self.balance.corresponds(query.balances@)
        &&& self.token_balance.corresponds(query.token_balances@)
    }

    /// Compiles a query into its filter.
    pub fn compile(query: SolanaQuery) -> (r: Self)
        ensures
            r.corresponds(query),
    {
        Filter {
            transaction: TransactionFilter::new(query.transactions),
            instruction: InstructionFilter::new(query.instructions),
            balance: BalanceFilter::new(query.balances),
            token_balance: TokenBalanceFilter::new(query.token_balances),
        }
    }

    /// Evaluates the filter against one transaction, producing the selection
    /// set: transaction requests first, then instruction requests with their
    /// closure walks, then balance and token balance requests.
    pub fn eval(&self, tx: &TransactionData) -> (sel: SelectedItems)
        requires
            tx.wf(),
        ensures
            sel.wf(),
            sel.instructions.spec_len() == tx.instructions@.len(),
            sel.balances.spec_len() == tx.balances@.len(),
            sel.token_balances.spec_len() == tx.token_balances@.len(),
            sel.transaction == spec_sel_transaction(*self, *tx),
            sel.instructions.spec_includes_all() == spec_all_instructions(*self, *tx),
            sel.balances.spec_includes_all() == spec_all_balances(*self, *tx),
            sel.token_balances.spec_includes_all() == spec_all_token_balances(*self, *tx),
            forall|j: int|
                #[trigger] sel.instructions.selected(j) == spec_instruction_selected(
                    *self,
                    *tx,
                    j,
                ),
            forall|j: int|
                #[trigger] sel.balances.selected(j) == spec_balance_selected(*self, *tx, j),
            forall|j: int|
                #[trigger] sel.token_balances.selected(j) == spec_token_balance_selected(
                    *self,
                    *tx,
                    j,
                ),
            sel.spec_is_empty() == spec_eval_is_empty(*self, *tx),
    {
        let mut sel = SelectedItems::new_for_transaction(tx);
        if self.transaction.is_non_trivial() {
            self.transaction.eval(&mut sel, tx);
        }
        let ghost after_tx = sel;
        proof {
            assert(after_tx.transaction == tx_any(self.transaction.requests@, *tx));
            assert(after_tx.instructions.spec_includes_all() == tx_rel(
                self.transaction.requests@,
                *tx,
                0,
            ));
        }
        if self.instruction.is_non_trivial() {
            self.instruction.eval(&mut sel, tx);
        }
        let ghost after_ins = sel;
        if self.balance.is_non_trivial() {
            self.balance.eval(&mut sel, tx);
        }
        let ghost after_bal = sel;
        if self.token_balance.is_non_trivial() {
            self.token_balance.eval(&mut sel, tx);
        }
        proof {
            assert(sel.transaction == spec_sel_transaction(*self, *tx));
            assert(sel.instructions.spec_includes_all() == spec_all_instructions(*self, *tx));
            assert(sel.balances.spec_includes_all() == spec_all_balances(*self, *tx));
            assert(sel.token_balances.spec_includes_all() == spec_all_token_balances(
                *self,
                *tx,
            ));
            assert forall|j: int|
                #[trigger] sel.instructions.selected(j) == spec_instruction_selected(
                    *self,
                    *tx,
                    j,
                ) by {
                crate::query::instruction::lemma_extra_in_range(
                    self.instruction.requests@,
                    *tx,
                    tx_rel(self.transaction.requests@, *tx, 0),
                    j,
                );
            }
            assert forall|j: int|
                #[trigger] sel.balances.selected(j) == spec_balance_selected(*self, *tx, j) by {}
            assert forall|j: int|
                #[trigger] sel.token_balances.selected(j) == spec_token_balance_selected(
                    *self,
                    *tx,
                    j,
                ) by {}
            assert(sel.spec_is_empty() == spec_eval_is_empty(*self, *tx)) by {
                if sel.spec_is_empty() {
                    assert forall|j: int| !spec_instruction_selected(*self, *tx, j) by {
                        assert(!sel.instructions.selected(j));
                    }
                    assert forall|j: int| !spec_balance_selected(*self, *tx, j) by {
                        assert(!sel.balances.selected(j));
                    }
                    assert forall|j: int| !spec_token_balance_selected(*self, *tx, j) by {
                        assert(!sel.token_balances.selected(j));
                    }
                }
                if spec_eval_is_empty(*self, *tx) {
                    assert forall|j: int| !#[trigger] sel.instructions.selected(j) by {
                        assert(!spec_instruction_selected(*self, *tx, j));
                    }
                    assert forall|j: int| !#[trigger] sel.balances.selected(j) by {
                        assert(!spec_balance_selected(*self, *tx, j));
                    }
                    assert forall|j: int| !#[trigger] sel.token_balances.selected(j) by {
                        assert(!spec_token_balance_selected(*self, *tx, j));
                    }
                    assert(sel.instructions.spec_is_empty());
                    assert(sel.balances.spec_is_empty());
                    assert(sel.token_balances.spec_is_empty());
                }
            }
        }
        sel
    }
}

/// The selection set is a function of the filter and the transaction alone:
/// any two selection sets that satisfy `eval`'s contract for the same filter
/// and transaction agree everywhere. Running the filter twice on the same
/// transaction therefore yields the same selection set.
pub proof fn lemma_eval_deterministic(
    f: Filter,
    tx: TransactionData,
    s1: SelectedItems,
    s2: SelectedItems,
)
    requires
        s1.transaction == spec_sel_transaction(f, tx),
        s2.transaction == spec_sel_transaction(f, tx),
        forall|j: int| #[trigger] s1.instructions.selected(j) == spec_instruction_selected(f, tx, j),
        forall|j: int| #[trigger] s2.instructions.selected(j) == spec_instruction_selected(f, tx, j),
        forall|j: int| #[trigger] s1.balances.selected(j) == spec_balance_selected(f, tx, j),
        forall|j: int| #[trigger] s2.balances.selected(j) == spec_balance_selected(f, tx, j),
        forall|j: int|
            #[trigger] s1.token_balances.selected(j) == spec_token_balance_selected(f, tx, j),
        forall|j: int|
            #[trigger] s2.token_balances.selected(j) == spec_token_balance_selected(f, tx, j),
    ensures
        s1.transaction == s2.transaction,
        forall|j: int|
            #[trigger] s1.instructions.selected(j) == s2.instructions.selected(j),
        forall|j: int| #[trigger] s1.balances.selected(j) == s2.balances.selected(j),
        forall|j: int|
            #[trigger] s1.token_balances.selected(j) == s2.token_balances.selected(j),
{
}

} // verus!

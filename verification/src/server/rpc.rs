//! Per-subscription state: the compiled filter, the field selection, and the
//! block emission watermarks.
use crate::data::DataMessage;
use crate::query::filter::spec_eval_is_empty;
use crate::query::filter::spec_all_balances;
use crate::query::filter::spec_all_instructions;
use crate::query::filter::spec_all_token_balances;
use crate::query::filter::spec_balance_selected;
use crate::query::filter::spec_instruction_selected;
use crate::query::filter::spec_sel_transaction;
use crate::query::filter::spec_token_balance_selected;
use crate::query::filter::Filter;
use crate::query::model::FieldSelection;
use crate::query::model::SolanaQuery;
use crate::query::render::render_block_message;
use crate::query::render::render_transaction_message;
use crate::query::render::spec_block_message;
use crate::query::render::spec_transaction_message;
use crate::query::selected_items::SelectedItems;
use vstd::prelude::*;
use vstd::utf8::encode_utf8;

verus! {

/// The state a subscription keeps between broadcast events.
pub struct SubscriptionState {
    pub fields: FieldSelection,
    pub filter: Filter,
    pub include_all_blocks: bool,
    pub last_emitted_block: u64,
    pub last_non_empty_block: u64,
}

impl SubscriptionState {
    pub fn new(query: SolanaQuery) -> (r: Self)
        ensures
            r.fields == query.fields,
            r.include_all_blocks == query.include_all_blocks,
            r.filter.transaction.corresponds(query.transactions@),
            r.filter.instruction.corresponds(query.instructions@),
            r.filter.balance.corresponds(query.balances@),
            r.filter.token_balance.corresponds(query.token_balances@),
            r.last_emitted_block == 0,
            r.last_non_empty_block == 0,
    {
        let SolanaQuery { fields, include_all_blocks, transactions, instructions, balances, token_balances } =
            query;
        let filter = Filter::compile(
            SolanaQuery {
                fields: FieldSelection::default(),
                include_all_blocks,
                transactions,
                instructions,
                balances,
                token_balances,
            },
        );
        SubscriptionState {
            fields,
            filter,
            include_all_blocks,
            last_emitted_block: 0,
            last_non_empty_block: 0,
        }
    }

    /// Decides whether one broadcast event produces a notification, and
    /// renders it.
    ///
    /// A block goes out iff every block is asked for, or its slot is at
    /// least five past the last emitted block, or it is the slot of the last
    /// non-empty transaction; emitting advances the emitted-block watermark.
    /// A transaction goes out iff its selection set is non-empty; emitting
    /// advances the non-empty-block watermark.
    pub fn emit(&mut self, msg: &DataMessage) -> (r: Option<String>)
        requires
            msg matches DataMessage::Block(b) ==> b.wf(),
            msg matches DataMessage::Transaction(tx) ==> tx.wf(),
        ensures
            final (self).fields == old(self).fields,
            final (self).filter == old(self).filter,
            final (self).include_all_blocks == old(self).include_all_blocks,
            msg matches DataMessage::Block(b) ==> {
                &&& (r is Some <==> (old(self).include_all_blocks || old(
                    self,
                ).last_emitted_block + 5 <= b.slot || old(self).last_non_empty_block == b.slot))
                &&& (r matches Some(m) ==> encode_utf8(m@) == spec_block_message(
                    old(self).fields.block,
                    *b,
                ))
                &&& final (self).last_non_empty_block == old(self).last_non_empty_block
                &&& (r is Some ==> final (self).last_emitted_block == b.slot)
                &&& (r is None ==> final (self).last_emitted_block == old(
                    self,
                ).last_emitted_block)
            },
            msg matches DataMessage::Transaction(tx) ==> {
                &&& (r is Some <==> !spec_eval_is_empty(old(self).filter, *tx))
                &&& final (self).last_emitted_block == old(self).last_emitted_block
                &&& (r is Some ==> final (self).last_non_empty_block == tx.slot)
                &&& (r is None ==> final (self).last_non_empty_block == old(
                    self,
                ).last_non_empty_block)
                &&& (r matches Some(m) ==> exists|sel: SelectedItems|
                    {
                        &&& #[trigger] sel.wf()
                        &&& sel.transaction == spec_sel_transaction(old(self).filter, *tx)
                        &&& sel.instructions.spec_len() == tx.instructions@.len()
                        &&& sel.balances.spec_len() == tx.balances@.len()
                        &&& sel.token_balances.spec_len() == tx.token_balances@.len()
                        &&& sel.instructions.spec_includes_all() == spec_all_instructions(
                            old(self).filter,
                            *tx,
                        )
                        &&& sel.balances.spec_includes_all() == spec_all_balances(
                            old(self).filter,
                            *tx,
                        )
                        &&& sel.token_balances.spec_includes_all() == spec_all_token_balances(
                            old(self).filter,
                            *tx,
                        )
                        &&& (forall|j: int|
                            #[trigger] sel.instructions.selected(j) == spec_instruction_selected(
                                old(self).filter,
                                *tx,
                                j,
                            ))
                        &&& (forall|j: int|
                            #[trigger] sel.balances.selected(j) == spec_balance_selected(
                                old(self).filter,
                                *tx,
                                j,
                            ))
                        &&& (forall|j: int|
                            #[trigger] sel.token_balances.selected(j)
                                == spec_token_balance_selected(old(self).filter, *tx, j))
                        &&& encode_utf8(m@) == spec_transaction_message(
                            old(self).fields,
                            *tx,
                            sel,
                        )
                    })
            },
    {
        match msg {
            DataMessage::Block(block) => {
                if self.include_all_blocks || (block.slot >= self.last_emitted_block && block.slot
                    - self.last_emitted_block >= 5) || self.last_non_empty_block == block.slot {
                    self.last_emitted_block = block.slot;
                    Some(render_block_message(&self.fields.block, block))
                } else {
                    None
                }
            },
            DataMessage::Transaction(tx) => {
                let selection = self.filter.eval(tx);
                if selection.is_empty() {
                    None
                } else {
                    self.last_non_empty_block = tx.slot;
                    let m = render_transaction_message(&self.fields, tx, &selection);
                    proof {
                        assert(exists|sel: SelectedItems|
                            {
                                &&& #[trigger] sel.wf()
                                &&& sel.transaction == spec_sel_transaction(
                                    old(self).filter,
                                    *tx,
                                )
                                &&& sel.instructions.spec_len() == tx.instructions@.len()
                                &&& sel.balances.spec_len() == tx.balances@.len()
                                &&& sel.token_balances.spec_len() == tx.token_balances@.len()
                                &&& sel.instructions.spec_includes_all() == spec_all_instructions(
                                    old(self).filter,
                                    *tx,
                                )
                                &&& sel.balances.spec_includes_all() == spec_all_balances(
                                    old(self).filter,
                                    *tx,
                                )
                                &&& sel.token_balances.spec_includes_all()
                                    == spec_all_token_balances(old(self).filter, *tx)
                                &&& (forall|j: int|
                                    #[trigger] sel.instructions.selected(j)
                                        == spec_instruction_selected(old(self).filter, *tx, j))
                                &&& (forall|j: int|
                                    #[trigger] sel.balances.selected(j) == spec_balance_selected(
                                        old(self).filter,
                                        *tx,
                                        j,
                                    ))
                                &&& (forall|j: int|
                                    #[trigger] sel.token_balances.selected(j)
                                        == spec_token_balance_selected(old(self).filter, *tx, j))
                                &&& encode_utf8(m@) == spec_transaction_message(
                                    old(self).fields,
                                    *tx,
                                    sel,
                                )
                            }) by {
                            assert(selection.wf());
                        }
                    }
                    Some(m)
                }
            },
        }
    }
}

} // verus!

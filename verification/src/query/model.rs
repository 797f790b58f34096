//! The declarative subscription query: field selections and per-item request
//! records. Identifier strings are base58 strings held as ASCII bytes, as in
//! the data model; discriminator byte strings are `0x`-prefixed hex.
use vstd::prelude::*;

verus! {

pub type Base58Bytes = Vec<u8>;

pub type Bytes = Vec<u8>;

/// Which properties to render, per item kind.
#[derive(Debug, Clone)]
pub struct FieldSelection {
    pub block: BlockFieldSelection,
    pub transaction: TransactionFieldSelection,
    pub instruction: InstructionFieldSelection,
    pub balance: BalanceFieldSelection,
    pub token_balance: TokenBalanceFieldSelection,
}

#[derive(Debug, Clone)]
pub struct BlockFieldSelection {
    pub number: bool,
    pub hash: bool,
    pub parent_number: bool,
    pub parent_hash: bool,
    pub height: bool,
    pub timestamp: bool,
}

#[derive(Debug, Clone)]
pub struct TransactionFieldSelection {
    pub transaction_index: bool,
    pub version: bool,
    pub account_keys: bool,
    pub address_table_lookups: bool,
    pub num_readonly_signed_accounts: bool,
    pub num_readonly_unsigned_accounts: bool,
    pub num_required_signatures: bool,
    pub recent_blockhash: bool,
    pub signatures: bool,
    pub err: bool,
    pub fee: bool,
    pub compute_units_consumed: bool,
    pub loaded_addresses: bool,
    pub fee_payer: bool,
    pub has_dropped_log_messages: bool,
}

#[derive(Debug, Clone)]
pub struct InstructionFieldSelection {
    pub transaction_index: bool,
    pub instruction_address: bool,
    pub program_id: bool,
    pub accounts: bool,
    pub data: bool,
    pub d1: bool,
    pub d2: bool,
    pub d4: bool,
    pub d8: bool,
    pub error: bool,
    pub compute_units_consumed: bool,
    pub is_committed: bool,
    pub has_dropped_log_messages: bool,
}

#[derive(Debug, Clone)]
pub struct BalanceFieldSelection {
    pub transaction_index: bool,
    pub account: bool,
    pub pre: bool,
    pub post: bool,
}

#[derive(Debug, Clone)]
pub struct TokenBalanceFieldSelection {
    pub transaction_index: bool,
    pub account: bool,
    pub pre_mint: bool,
    pub post_mint: bool,
    pub pre_decimals: bool,
    pub post_decimals: bool,
    pub pre_program_id: bool,
    pub post_program_id: bool,
    pub pre_owner: bool,
    pub post_owner: bool,
    pub pre_amount: bool,
    pub post_amount: bool,
}

impl Default for BlockFieldSelection {
    fn default() -> (r: Self)
        ensures
            !r.number && !r.hash && !r.parent_number && !r.parent_hash && !r.height
                && !r.timestamp,
    {
        BlockFieldSelection {
            number: false,
            hash: false,
            parent_number: false,
            parent_hash: false,
            height: false,
            timestamp: false,
        }
    }
}

impl Default for TransactionFieldSelection {
    fn default() -> (r: Self)
        ensures
            !r.transaction_index && !r.version && !r.account_keys && !r.address_table_lookups
                && !r.num_readonly_signed_accounts && !r.num_readonly_unsigned_accounts
                && !r.num_required_signatures && !r.recent_blockhash && !r.signatures && !r.err
                && !r.fee && !r.compute_units_consumed && !r.loaded_addresses && !r.fee_payer
                && !r.has_dropped_log_messages,
    {
        TransactionFieldSelection {
            transaction_index: false,
            version: false,
            account_keys: false,
            address_table_lookups: false,
            num_readonly_signed_accounts: false,
            num_readonly_unsigned_accounts: false,
            num_required_signatures: false,
            recent_blockhash: false,
            signatures: false,
            err: false,
            fee: false,
            compute_units_consumed: false,
            loaded_addresses: false,
            fee_payer: false,
            has_dropped_log_messages: false,
        }
    }
}

impl Default for InstructionFieldSelection {
    fn default() -> (r: Self)
        ensures
            !r.transaction_index && !r.instruction_address && !r.program_id && !r.accounts
                && !r.data && !r.d1 && !r.d2 && !r.d4 && !r.d8 && !r.error
                && !r.compute_units_consumed && !r.is_committed && !r.has_dropped_log_messages,
    {
        InstructionFieldSelection {
            transaction_index: false,
            instruction_address: false,
            program_id: false,
            accounts: false,
            data: false,
            d1: false,
            d2: false,
            d4: false,
            d8: false,
            error: false,
            compute_units_consumed: false,
            is_committed: false,
            has_dropped_log_messages: false,
        }
    }
}

impl Default for BalanceFieldSelection {
    fn default() -> (r: Self)
        ensures
            !r.transaction_index && !r.account && !r.pre && !r.post,
    {
        BalanceFieldSelection { transaction_index: false, account: false, pre: false, post: false }
    }
}

impl Default for TokenBalanceFieldSelection {
    fn default() -> (r: Self)
        ensures
            !r.transaction_index && !r.account && !r.pre_mint && !r.post_mint && !r.pre_decimals
                && !r.post_decimals && !r.pre_program_id && !r.post_program_id && !r.pre_owner
                && !r.post_owner && !r.pre_amount && !r.post_amount,
    {
        TokenBalanceFieldSelection {
            transaction_index: false,
            account: false,
            pre_mint: false,
            post_mint: false,
            pre_decimals: false,
            post_decimals: false,
            pre_program_id: false,
            post_program_id: false,
            pre_owner: false,
            post_owner: false,
            pre_amount: false,
            post_amount: false,
        }
    }
}

impl Default for FieldSelection {
    fn default() -> (r: Self)
    {
        FieldSelection {
            block: BlockFieldSelection::default(),
            transaction: TransactionFieldSelection::default(),
            instruction: InstructionFieldSelection::default(),
            balance: BalanceFieldSelection::default(),
            token_balance: TokenBalanceFieldSelection::default(),
        }
    }
}

/// A transaction-level request: conjunctive predicates plus the related items
/// pulled in on a match.
#[derive(Debug, Clone, Default)]
pub struct TransactionRequest {
    pub fee_payer: Option<Vec<Base58Bytes>>,
    pub mentions_account: Option<Vec<Base58Bytes>>,
    pub instructions: bool,
    pub logs: bool,
    pub balances: bool,
    pub token_balances: bool,
}

/// An instruction-level request. The `d1`, `d2`, `d4` and `d8` fields are
/// accepted but carry no predicate.
#[derive(Debug, Clone, Default)]
pub struct InstructionRequest {
    pub program_id: Option<Vec<Base58Bytes>>,
    pub discriminator: Option<Vec<Bytes>>,
    pub d1: Option<Vec<Bytes>>,
    pub d2: Option<Vec<Bytes>>,
    pub d4: Option<Vec<Bytes>>,
    pub d8: Option<Vec<Bytes>>,
    pub mentions_account: Option<Vec<Base58Bytes>>,
    pub a0: Option<Vec<Base58Bytes>>,
    pub a1: Option<Vec<Base58Bytes>>,
    pub a2: Option<Vec<Base58Bytes>>,
    pub a3: Option<Vec<Base58Bytes>>,
    pub a4: Option<Vec<Base58Bytes>>,
    pub a5: Option<Vec<Base58Bytes>>,
    pub a6: Option<Vec<Base58Bytes>>,
    pub a7: Option<Vec<Base58Bytes>>,
    pub a8: Option<Vec<Base58Bytes>>,
    pub a9: Option<Vec<Base58Bytes>>,
    pub a10: Option<Vec<Base58Bytes>>,
    pub a11: Option<Vec<Base58Bytes>>,
    pub a12: Option<Vec<Base58Bytes>>,
    pub a13: Option<Vec<Base58Bytes>>,
    pub a14: Option<Vec<Base58Bytes>>,
    pub a15: Option<Vec<Base58Bytes>>,
    pub is_committed: Option<bool>,
    pub transaction: bool,
    pub transaction_balances: bool,
    pub transaction_token_balances: bool,
    pub transaction_instructions: bool,
    pub inner_instructions: bool,
    pub parent_instructions: bool,
    pub logs: bool,
}

#[derive(Debug, Clone, Default)]
pub struct TokenBalanceRequest {
    pub account: Option<Vec<Base58Bytes>>,
    pub pre_mint: Option<Vec<Base58Bytes>>,
    pub post_mint: Option<Vec<Base58Bytes>>,
    pub pre_program_id: Option<Vec<Base58Bytes>>,
    pub post_program_id: Option<Vec<Base58Bytes>>,
    pub pre_owner: Option<Vec<Base58Bytes>>,
    pub post_owner: Option<Vec<Base58Bytes>>,
    pub transaction: bool,
    pub transaction_instructions: bool,
}

#[derive(Debug, Clone, Default)]
pub struct BalanceRequest {
    pub account: Option<Vec<Base58Bytes>>,
    pub transaction: bool,
    pub transaction_instructions: bool,
}

/// A whole subscription query.
#[derive(Debug, Clone)]
pub struct SolanaQuery {
    pub fields: FieldSelection,
    pub include_all_blocks: bool,
    pub transactions: Vec<TransactionRequest>,
    pub instructions: Vec<InstructionRequest>,
    pub balances: Vec<BalanceRequest>,
    pub token_balances: Vec<TokenBalanceRequest>,
}

/// Why a query was rejected.
#[derive(Debug, Clone, Copy, PartialEq, Eq, Structural)]
pub enum QueryError {
    TooManyItems,
}

impl SolanaQuery {
    /// The total number of item requests across all four lists.
    pub open spec fn spec_num_items(self) -> int {
        self.transactions@.len() + self.instructions@.len() + self.balances@.len()
            + self.token_balances@.len() as int
    }

    /// A query may hold at most 100 item requests in total.
    pub fn validate(&self) -> (r: Result<(), QueryError>)
        ensures
            r is Ok <==> self.spec_num_items() <= 100,
    {
        let num_items: u128 = self.transactions.len() as u128 + self.instructions.len() as u128
            + self.balances.len() as u128 + self.token_balances.len() as u128;
        if num_items <= 100 {
            Ok(())
        } else {
            Err(QueryError::TooManyItems)
        }
    }
}

} // verus!

//! The normalized data model delivered to subscribers.
//!
//! All externally visible identifiers (addresses, hashes, signatures, program
//! ids, instruction data) are base58 strings held as ASCII bytes. Pre-rendered
//! JSON fragments are held as UTF-8 bytes and spliced into notifications
//! verbatim.
use crate::json_builder::ascii_seq;
use vstd::prelude::*;
use vstd::utf8::valid_utf8;

verus! {

pub type AccountIndex = u8;

pub type ItemIndex = usize;

/// The ASCII bytes of a printable base58 string.
pub type Base58Bytes = Vec<u8>;

/// The UTF-8 bytes of a pre-rendered JSON fragment.
pub type JsonString = Vec<u8>;

/// One event on the fan-out channel.
pub enum DataMessage {
    Block(BlockData),
    Transaction(TransactionData),
}

/// Block metadata for one slot. `timestamp` is epoch seconds, `0` when the
/// upstream omits it.
#[derive(Debug, Clone)]
pub struct BlockData {
    pub slot: u64,
    pub hash: Base58Bytes,
    pub parent_slot: u64,
    pub parent_hash: Base58Bytes,
    pub height: Option<u64>,
    pub timestamp: i64,
}

impl BlockData {
    /// Identifier strings are ASCII.
    pub open spec fn wf(self) -> bool {
        ascii_seq(self.hash@) && ascii_seq(self.parent_hash@)
    }
}

/// One normalized transaction, produced once and shared by all subscribers.
#[derive(Debug, Clone)]
pub struct TransactionData {
    pub slot: u64,
    pub transaction_index: ItemIndex,
    pub transaction: Transaction,
    pub instructions: Vec<Instruction>,
    pub balances: Vec<Balance>,
    pub token_balances: Vec<TokenBalance>,
    /// The merged static + loaded address table. Every `AccountIndex` in this
    /// transaction refers into this list.
    pub accounts: Vec<Base58Bytes>,
}

/// The transaction header record.
#[derive(Debug, Clone)]
pub struct Transaction {
    pub version: TransactionVersion,
    pub account_keys: usize,
    pub address_table_lookups: JsonString,
    pub num_readonly_signed_accounts: u8,
    pub num_readonly_unsigned_accounts: u8,
    pub num_required_signatures: u8,
    pub recent_blockhash: Base58Bytes,
    pub signatures: JsonString,
    pub err: Option<JsonString>,
    pub compute_units_consumed: Option<u64>,
    pub fee: u64,
    pub loaded_addresses: JsonString,
}

#[derive(Debug, Clone, Copy, PartialEq, Eq, Structural)]
pub enum TransactionVersion {
    Legacy,
    Other(u8),
}

/// One instruction, top-level or inner, in pre-order call-tree position.
#[derive(Debug, Clone)]
pub struct Instruction {
    pub instruction_address: Vec<ItemIndex>,
    pub program_id: AccountIndex,
    pub accounts: Vec<AccountIndex>,
    pub data: Base58Bytes,
    pub binary_data: Vec<u8>,
    pub is_committed: bool,
}

/// Native-lamport balance change of one account.
#[derive(Debug, Clone)]
pub struct Balance {
    pub account: Base58Bytes,
    pub pre: u64,
    pub post: u64,
}

/// Token balance change of one account; pre and post sides are each optional.
#[derive(Debug, Clone, Default)]
pub struct TokenBalance {
    pub account: Base58Bytes,
    pub pre_mint: Option<Base58Bytes>,
    pub post_mint: Option<Base58Bytes>,
    pub pre_decimals: Option<u32>,
    pub post_decimals: Option<u32>,
    pub pre_program_id: Option<Base58Bytes>,
    pub post_program_id: Option<Base58Bytes>,
    pub pre_owner: Option<Base58Bytes>,
    pub post_owner: Option<Base58Bytes>,
    pub pre_amount: Option<Vec<u8>>,
    pub post_amount: Option<Vec<u8>>,
}

/// An optional identifier string is ASCII when present.
pub open spec fn opt_ascii(o: Option<Vec<u8>>) -> bool {
    o matches Some(v) ==> ascii_seq(v@)
}

impl Transaction {
    pub open spec fn wf(self) -> bool {
        &&& ascii_seq(self.recent_blockhash@)
        &&& valid_utf8(self.signatures@)
        &&& valid_utf8(self.address_table_lookups@)
        &&& valid_utf8(self.loaded_addresses@)
        &&& (self.err matches Some(e) ==> valid_utf8(e@))
    }
}

impl Instruction {
    /// Well-formed against an address table of `n_accounts` entries: all
    /// account references are in range and the data string is ASCII.
    pub open spec fn wf(self, n_accounts: int) -> bool {
        &&& (self.program_id as int) < n_accounts
        &&& forall|i: int|
            0 <= i < self.accounts@.len() ==> (#[trigger] self.accounts@[i] as int) < n_accounts
        &&& ascii_seq(self.data@)
    }
}

impl Balance {
    pub open spec fn wf(self) -> bool {
        ascii_seq(self.account@)
    }
}

impl TokenBalance {
    pub open spec fn wf(self) -> bool {
        &&& ascii_seq(self.account@)
        &&& opt_ascii(self.pre_mint)
        &&& opt_ascii(self.post_mint)
        &&& opt_ascii(self.pre_program_id)
        &&& opt_ascii(self.post_program_id)
        &&& opt_ascii(self.pre_owner)
        &&& opt_ascii(self.post_owner)
        &&& opt_ascii(self.pre_amount)
        &&& opt_ascii(self.post_amount)
    }
}

/// True iff `a` is a strict prefix of `b`.
pub open spec fn is_strict_prefix(a: Seq<ItemIndex>, b: Seq<ItemIndex>) -> bool {
    a.len() < b.len() && a == b.take(a.len() as int)
}

/// The largest index below `below` whose address has length `l`, or `-1`.
pub open spec fn last_idx_with_len(addrs: Seq<Seq<ItemIndex>>, below: int, l: nat) -> int
    decreases below,
{
    if below <= 0 {
        -1
    } else if addrs[below - 1].len() == l {
        below - 1
    } else {
        last_idx_with_len(addrs, below - 1, l)
    }
}

/// Parent closure: every prefix of every address occurs at or before it.
pub open spec fn prefix_closed(addrs: Seq<Seq<ItemIndex>>) -> bool {
    forall|j: int, l: int|
        0 <= j < addrs.len() && 1 <= l <= addrs[j].len() ==> exists|p: int|
            0 <= p <= j && addrs[p] == #[trigger] addrs[j].take(l)
}

/// For every address of length `k > 1`, the closest earlier address of length
/// `k - 1` is exactly its parent prefix.
pub open spec fn parent_linked(addrs: Seq<Seq<ItemIndex>>) -> bool {
    forall|j: int|
        0 <= j < addrs.len() && #[trigger] addrs[j].len() > 1 ==> last_idx_with_len(
            addrs,
            j,
            (addrs[j].len() - 1) as nat,
        ) >= 0 && addrs[last_idx_with_len(addrs, j, (addrs[j].len() - 1) as nat)] == addrs[j].take(
            addrs[j].len() - 1,
        )
}

impl TransactionData {
    /// The addresses of this transaction's instructions, in order.
    pub open spec fn addresses(self) -> Seq<Seq<ItemIndex>> {
        self.instructions@.map_values(|i: Instruction| i.instruction_address@)
    }

    pub open spec fn wf(self) -> bool {
        &&& self.transaction.wf()
        &&& self.transaction.account_keys <= self.accounts@.len()
        &&& forall|i: int|
            0 <= i < self.accounts@.len() ==> ascii_seq(#[trigger] self.accounts@[i]@)
        &&& forall|i: int|
            0 <= i < self.instructions@.len() ==> (#[trigger] self.instructions@[i]).wf(
                self.accounts@.len() as int,
            )
        &&& forall|i: int| 0 <= i < self.balances@.len() ==> (#[trigger] self.balances@[i]).wf()
        &&& forall|i: int|
            0 <= i < self.token_balances@.len() ==> (#[trigger] self.token_balances@[i]).wf()
        &&& prefix_closed(self.addresses())
        &&& parent_linked(self.addresses())
    }
}

} // verus!

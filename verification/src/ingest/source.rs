//! Upstream update shapes and the per-source session policy.
//!
//! The wire shapes mirror the upstream subscription protocol as plain values:
//! optional substructures stay optional, and the accessor that flattens them
//! reports exactly which required part was missing.
use vstd::prelude::*;

verus! {

/// One update forwarded by a source worker, tagged with the source's name.
pub struct SourceMessage {
    pub source: String,
    pub update: SourceUpdate,
}

pub enum SourceUpdate {
    Block(BlockMeta),
    Transaction(TransactionUpdate),
}

/// Decoded block metadata as delivered by the upstream.
#[derive(Debug, Clone)]
pub struct BlockMeta {
    pub slot: u64,
    pub blockhash: Vec<u8>,
    pub parent_slot: u64,
    pub parent_blockhash: Vec<u8>,
    pub block_height: Option<u64>,
    pub block_time: Option<i64>,
}

/// The message header counts of a transaction.
#[derive(Debug, Clone)]
pub struct MessageHeader {
    pub num_required_signatures: u32,
    pub num_readonly_signed_accounts: u32,
    pub num_readonly_unsigned_accounts: u32,
}

/// A top-level compiled instruction as delivered by the upstream.
#[derive(Debug, Clone)]
pub struct CompiledInstruction {
    pub program_id_index: u32,
    pub accounts: Vec<u8>,
    pub data: Vec<u8>,
}

/// An inner instruction; `stack_height` is at least 2 when present.
#[derive(Debug, Clone)]
pub struct InnerInstruction {
    pub program_id_index: u32,
    pub accounts: Vec<u8>,
    pub data: Vec<u8>,
    pub stack_height: Option<u32>,
}

/// Inner instructions grouped under the top-level instruction at `index`.
#[derive(Debug, Clone)]
pub struct InnerInstructionGroup {
    pub index: u32,
    pub instructions: Vec<InnerInstruction>,
}

/// An address table lookup record of a versioned transaction.
#[derive(Debug, Clone)]
pub struct AddressTableLookup {
    pub account_key: Vec<u8>,
    pub writable_indexes: Vec<u8>,
    pub readonly_indexes: Vec<u8>,
}

/// One side of a token balance record. The identifier fields are base58
/// strings held as ASCII bytes, as the upstream delivers them.
#[derive(Debug, Clone)]
pub struct RawTokenBalance {
    pub account_index: u32,
    pub mint: Vec<u8>,
    pub owner: Vec<u8>,
    pub program_id: Vec<u8>,
    pub amount: Option<Vec<u8>>,
    pub decimals: Option<u32>,
}

/// Transaction status metadata. `err_json` is the error already rendered as a
/// JSON fragment by the edge, `None` for a committed transaction.
#[derive(Debug, Clone)]
pub struct TransactionMeta {
    pub err_json: Option<Vec<u8>>,
    pub fee: u64,
    pub pre_balances: Vec<u64>,
    pub post_balances: Vec<u64>,
    pub inner_instructions: Vec<InnerInstructionGroup>,
    pub loaded_writable_addresses: Vec<Vec<u8>>,
    pub loaded_readonly_addresses: Vec<Vec<u8>>,
    pub pre_token_balances: Vec<RawTokenBalance>,
    pub post_token_balances: Vec<RawTokenBalance>,
    pub compute_units_consumed: Option<u64>,
}

/// A raw transaction update with its optional substructures still in place.
#[derive(Debug)]
pub struct SubscriptionUpdate {
    pub slot: u64,
    pub transaction: Option<TransactionInfo>,
}

#[derive(Debug)]
pub struct TransactionInfo {
    pub index: u64,
    pub transaction: Option<RawTransaction>,
    pub meta: Option<TransactionMeta>,
}

#[derive(Debug)]
pub struct RawTransaction {
    pub signatures: Vec<Vec<u8>>,
    pub message: Option<RawMessage>,
}

#[derive(Debug)]
pub struct RawMessage {
    pub header: Option<MessageHeader>,
    pub account_keys: Vec<Vec<u8>>,
    pub recent_blockhash: Vec<u8>,
    pub instructions: Vec<CompiledInstruction>,
    pub versioned: bool,
    pub address_table_lookups: Vec<AddressTableLookup>,
}

/// The path of the required substructure that a raw update was missing.
#[derive(Debug, Clone, Copy, PartialEq, Eq, Structural)]
pub enum MissingField {
    Transaction,
    InnerTransaction,
    Message,
    Header,
    Meta,
}

impl MissingField {
    /// The field path, as named in per-session error reports.
    pub fn path(&self) -> &'static str {
        match self {
            MissingField::Transaction => ".transaction",
            MissingField::InnerTransaction => ".transaction.transaction",
            MissingField::Message => ".transaction.transaction.message",
            MissingField::Header => ".transaction.transaction.message.header",
            MissingField::Meta => ".transaction.meta",
        }
    }
}

/// A flattened transaction update with every required part present.
#[derive(Debug)]
pub struct TransactionUpdate {
    pub slot: u64,
    pub index: usize,
    pub signatures: Vec<Vec<u8>>,
    pub header: MessageHeader,
    pub account_keys: Vec<Vec<u8>>,
    pub recent_blockhash: Vec<u8>,
    pub instructions: Vec<CompiledInstruction>,
    pub versioned: bool,
    pub address_table_lookups: Vec<AddressTableLookup>,
    pub meta: TransactionMeta,
}

impl TransactionUpdate {
    /// Flattens a raw update, naming the first missing required substructure.
    pub fn from_subscription_update(update: SubscriptionUpdate) -> (r: Result<
        Self,
        MissingField,
    >)
        ensures
            update.transaction is None ==> r == Err::<Self, MissingField>(
                MissingField::Transaction,
            ),
            update.transaction matches Some(info) ==> {
                if info.transaction is None {
                    r == Err::<Self, MissingField>(MissingField::InnerTransaction)
                } else if info.transaction matches Some(tx) && tx.message is None {
                    r == Err::<Self, MissingField>(MissingField::Message)
                } else if info.transaction matches Some(tx) && tx.message matches Some(msg)
                    && msg.header is None {
                    r == Err::<Self, MissingField>(MissingField::Header)
                } else if info.meta is None {
                    r == Err::<Self, MissingField>(MissingField::Meta)
                } else {
                    info.transaction matches Some(tx) && tx.message matches Some(msg)
                        && msg.header matches Some(header) && info.meta matches Some(meta)
                        && r matches Ok(tu) && tu.slot == update.slot && tu.index == info.index
                        as usize && tu.signatures == tx.signatures && tu.header == header
                        && tu.account_keys == msg.account_keys && tu.recent_blockhash
                        == msg.recent_blockhash && tu.instructions == msg.instructions
                        && tu.versioned == msg.versioned && tu.address_table_lookups
                        == msg.address_table_lookups && tu.meta == meta
                }
            },
    {
        let Some(info) = update.transaction else {
            return Err(MissingField::Transaction);
        };
        let Some(tx) = info.transaction else {
            return Err(MissingField::InnerTransaction);
        };
        let Some(message) = tx.message else {
            return Err(MissingField::Message);
        };
        let Some(header) = message.header else {
            return Err(MissingField::Header);
        };
        let Some(meta) = info.meta else {
            return Err(MissingField::Meta);
        };
        Ok(TransactionUpdate {
            slot: update.slot,
            index: info.index as usize,
            signatures: tx.signatures,
            header,
            account_keys: message.account_keys,
            recent_blockhash: message.recent_blockhash,
            instructions: message.instructions,
            versioned: message.versioned,
            address_table_lookups: message.address_table_lookups,
            meta,
        })
    }
}

/// The reconnection pause, in milliseconds, after `errors` consecutive
/// failed sessions: 0, 0, 200, 500, 1000, 2000, then 5000 from there on.
pub open spec fn backoff_ms(errors: int) -> int {
    if errors <= 1 {
        0
    } else if errors == 2 {
        200
    } else if errors == 3 {
        500
    } else if errors == 4 {
        1000
    } else if errors == 5 {
        2000
    } else {
        5000
    }
}

/// The retry policy of one source worker. A failure during the very first
/// session, before any update was received, is fatal; afterwards the worker
/// backs off and reconnects, and the error count restarts at one whenever the
/// failed session had received at least one update.
pub struct RetryState {
    pub first_session: bool,
    pub errors: u32,
}

impl RetryState {
    pub fn new() -> (r: Self)
        ensures
            r.first_session,
            r.errors == 0,
    {
        RetryState { first_session: true, errors: 0 }
    }

    /// Decides what to do after a failed session: `None` means the failure is
    /// fatal, `Some(p)` means reconnect after a pause of `p` milliseconds.
    pub fn on_session_failure(&mut self, update_received: bool) -> (r: Option<u64>)
        ensures
            r is None <==> (old(self).first_session && !update_received),
            final (self).first_session == false,
            final (self).errors == (if update_received {
                1int
            } else if old(self).errors < 6 {
                old(self).errors + 1
            } else {
                6int
            }),
            r matches Some(p) ==> p == backoff_ms(final (self).errors as int),
    {
        let fatal = self.first_session && !update_received;
        self.first_session = false;
        if update_received {
            self.errors = 1;
        } else if self.errors < 6 {
            self.errors = self.errors + 1;
        } else {
            self.errors = 6;
        }
        if fatal {
            None
        } else {
            let pause: u64 = if self.errors <= 1 {
                0
            } else if self.errors == 2 {
                200
            } else if self.errors == 3 {
                500
            } else if self.errors == 4 {
                1000
            } else if self.errors == 5 {
                2000
            } else {
                5000
            };
            Some(pause)
        }
    }
}

} // verus!

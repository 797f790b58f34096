//! The selective renderer: turns `(fields, transaction, selection)` into the
//! JSON notification, emitting each item section only when its selection is
//! non-empty and each property only when its field is chosen.
use crate::data::BlockData;
use crate::data::TransactionData;
use crate::data::TransactionVersion;
use crate::ingest::mapping::spec_prop;
use crate::json_builder::close_seq;
use crate::json_builder::dec_digits;
use crate::json_builder::dec_digits_int;
use crate::json_builder::lemma_close_append;
use crate::json_builder::JsonBuilder;
use crate::query::model::BalanceFieldSelection;
use crate::query::model::BlockFieldSelection;
use crate::query::model::FieldSelection;
use crate::query::model::InstructionFieldSelection;
use crate::query::model::TokenBalanceFieldSelection;
use crate::query::model::TransactionFieldSelection;
use crate::query::selected_items::SelectedItems;
use crate::query::util::render_hex_seq;
use vstd::prelude::*;
use vstd::string::StringSliceAdditionalSpecFns;
use vstd::utf8::encode_utf8;
use vstd::utf8::valid_utf8;

verus! {

/// A quoted string value.
pub open spec fn quoted(s: Seq<u8>) -> Seq<u8> {
    seq![0x22u8] + s + seq![0x22u8]
}

/// A bool as a JSON literal.
pub open spec fn bool_bytes(b: bool) -> Seq<u8> {
    if b {
        "true".spec_bytes()
    } else {
        "false".spec_bytes()
    }
}

/// An optional property: the value when present, else `null`.
pub open spec fn null_bytes() -> Seq<u8> {
    "null".spec_bytes()
}

/// The rendered transaction version: `"legacy"` or the numeric tag.
pub open spec fn version_bytes(v: TransactionVersion) -> Seq<u8> {
    match v {
        TransactionVersion::Legacy => quoted("legacy".spec_bytes()),
        TransactionVersion::Other(n) => dec_digits(n as nat),
    }
}

/// The elements of a JSON array of quoted strings, each with its comma.
pub open spec fn quoted_items(l: Seq<Seq<u8>>) -> Seq<u8>
    decreases l.len(),
{
    if l.len() == 0 {
        Seq::empty()
    } else {
        quoted_items(l.drop_last()) + quoted(l.last()) + seq![0x2cu8]
    }
}

/// A JSON array of quoted strings.
pub open spec fn quoted_array(l: Seq<Seq<u8>>) -> Seq<u8> {
    close_seq(seq![0x5bu8] + quoted_items(l), 0x5du8)
}

/// The elements of a JSON array of numbers, each with its comma.
pub open spec fn usize_items(l: Seq<usize>) -> Seq<u8>
    decreases l.len(),
{
    if l.len() == 0 {
        Seq::empty()
    } else {
        usize_items(l.drop_last()) + dec_digits(l.last() as nat) + seq![0x2cu8]
    }
}

/// A JSON array of numbers.
pub open spec fn usize_array(l: Seq<usize>) -> Seq<u8> {
    close_seq(seq![0x5bu8] + usize_items(l), 0x5du8)
}

/// The first `n` entries of the address table, as quoted strings.
pub open spec fn account_key_views(tx: TransactionData, n: int) -> Seq<Seq<u8>> {
    tx.accounts@.take(n).map_values(|v: Vec<u8>| v@)
}

/// The accounts an instruction references, as quoted strings.
pub open spec fn ins_account_views(tx: TransactionData, idxs: Seq<u8>) -> Seq<Seq<u8>> {
    idxs.map_values(|i: u8| tx.accounts@[i as int]@)
}

/// One property with its value and trailing comma, when selected.
pub open spec fn prop_if(on: bool, name: &str, value: Seq<u8>) -> Seq<u8> {
    if on {
        spec_prop(name) + value + seq![0x2cu8]
    } else {
        Seq::empty()
    }
}

/// An optional byte-string value as a quoted string or `null`.
pub open spec fn opt_quoted(v: Option<Vec<u8>>) -> Seq<u8> {
    match v {
        Some(b) => quoted(b@),
        None => null_bytes(),
    }
}

/// An optional number value or `null`.
pub open spec fn opt_u64(v: Option<u64>) -> Seq<u8> {
    match v {
        Some(n) => dec_digits(n as nat),
        None => null_bytes(),
    }
}

/// An optional number value rendered inside a string, or `null`.
pub open spec fn opt_u64_str(v: Option<u64>) -> Seq<u8> {
    match v {
        Some(n) => quoted(dec_digits(n as nat)),
        None => null_bytes(),
    }
}

pub open spec fn opt_u32(v: Option<u32>) -> Seq<u8> {
    match v {
        Some(n) => dec_digits(n as nat),
        None => null_bytes(),
    }
}

/// The first half of the `transaction` section properties.
pub open spec fn tx_props_a(f: TransactionFieldSelection, tx: TransactionData) -> Seq<u8> {
    prop_if(f.transaction_index, "transactionIndex", dec_digits(tx.transaction_index as nat))
        + prop_if(f.version, "version", version_bytes(tx.transaction.version)) + prop_if(
        f.account_keys,
        "accountKeys",
        quoted_array(account_key_views(tx, tx.transaction.account_keys as int)),
    ) + prop_if(
        f.address_table_lookups,
        "addressTableLookups",
        tx.transaction.address_table_lookups@,
    ) + prop_if(
        f.num_required_signatures,
        "numRequiredSignatures",
        dec_digits(tx.transaction.num_required_signatures as nat),
    ) + prop_if(
        f.num_readonly_signed_accounts,
        "numReadonlySignedAccounts",
        dec_digits(tx.transaction.num_readonly_signed_accounts as nat),
    ) + prop_if(
        f.num_readonly_unsigned_accounts,
        "numReadonlyUnsignedAccounts",
        dec_digits(tx.transaction.num_readonly_unsigned_accounts as nat),
    )
}

/// The second half of the `transaction` section properties.
pub open spec fn tx_props_b(f: TransactionFieldSelection, tx: TransactionData) -> Seq<u8> {
    prop_if(f.recent_blockhash, "recentBlockhash", quoted(tx.transaction.recent_blockhash@))
        + prop_if(f.signatures, "signatures", tx.transaction.signatures@) + prop_if(
        f.err,
        "err",
        match tx.transaction.err {
            Some(e) => e@,
            None => null_bytes(),
        },
    ) + prop_if(f.fee, "fee", quoted(dec_digits(tx.transaction.fee as nat))) + prop_if(
        f.compute_units_consumed,
        "computeUnitsConsumed",
        opt_u64_str(tx.transaction.compute_units_consumed),
    ) + prop_if(f.loaded_addresses, "loadedAddresses", tx.transaction.loaded_addresses@)
        + prop_if(
        f.fee_payer,
        "feePayer",
        if tx.accounts@.len() > 0 {
            quoted(tx.accounts@[0]@)
        } else {
            null_bytes()
        },
    ) + prop_if(f.has_dropped_log_messages, "hasDroppedLogMessages", "true".spec_bytes())
}

/// The `transaction` section of a notification.
pub open spec fn spec_tx_section(f: TransactionFieldSelection, tx: TransactionData) -> Seq<u8> {
    close_seq(seq![0x7bu8] + tx_props_a(f, tx) + tx_props_b(f, tx), 0x7du8)
}

/// The first half of an instruction object's properties.
pub open spec fn ins_props_a(f: InstructionFieldSelection, tx: TransactionData, i: int) -> Seq<
    u8,
> {
    prop_if(f.transaction_index, "transactionIndex", dec_digits(tx.transaction_index as nat))
        + prop_if(
        f.instruction_address,
        "instructionAddress",
        usize_array(tx.instructions@[i].instruction_address@),
    ) + prop_if(
        f.program_id,
        "programId",
        quoted(tx.accounts@[tx.instructions@[i].program_id as int]@),
    ) + prop_if(
        f.accounts,
        "accounts",
        quoted_array(ins_account_views(tx, tx.instructions@[i].accounts@)),
    ) + prop_if(f.data, "data", quoted(tx.instructions@[i].data@)) + prop_if(
        f.d1,
        "d1",
        if tx.instructions@[i].binary_data@.len() >= 1 {
            quoted(render_hex_seq(tx.instructions@[i].binary_data@.take(1)))
        } else {
            null_bytes()
        },
    ) + prop_if(
        f.d2,
        "d2",
        if tx.instructions@[i].binary_data@.len() >= 2 {
            quoted(render_hex_seq(tx.instructions@[i].binary_data@.take(2)))
        } else {
            null_bytes()
        },
    )
}

/// The second half of an instruction object's properties.
pub open spec fn ins_props_b(f: InstructionFieldSelection, tx: TransactionData, i: int) -> Seq<
    u8,
> {
    prop_if(
        f.d4,
        "d4",
        if tx.instructions@[i].binary_data@.len() >= 4 {
            quoted(render_hex_seq(tx.instructions@[i].binary_data@.take(4)))
        } else {
            null_bytes()
        },
    ) + prop_if(
        f.d8,
        "d8",
        if tx.instructions@[i].binary_data@.len() >= 8 {
            quoted(render_hex_seq(tx.instructions@[i].binary_data@.take(8)))
        } else {
            null_bytes()
        },
    ) + prop_if(f.error, "error", null_bytes()) + prop_if(
        f.compute_units_consumed,
        "computeUnitsConsumed",
        null_bytes(),
    ) + prop_if(f.is_committed, "isCommitted", bool_bytes(tx.instructions@[i].is_committed))
        + prop_if(f.has_dropped_log_messages, "hasDroppedLogMessages", "true".spec_bytes())
}

/// One rendered instruction object.
pub open spec fn spec_ins_obj(
    f: InstructionFieldSelection,
    tx: TransactionData,
    i: int,
) -> Seq<u8> {
    close_seq(seq![0x7bu8] + ins_props_a(f, tx, i) + ins_props_b(f, tx, i), 0x7du8)
}

/// One rendered balance object.
pub open spec fn spec_bal_obj(f: BalanceFieldSelection, tx: TransactionData, i: int) -> Seq<u8> {
    close_seq(
        seq![0x7bu8] + prop_if(
            f.transaction_index,
            "transactionIndex",
            dec_digits(tx.transaction_index as nat),
        ) + prop_if(f.account, "account", quoted(tx.balances@[i].account@)) + prop_if(
            f.pre,
            "pre",
            quoted(dec_digits(tx.balances@[i].pre as nat)),
        ) + prop_if(f.post, "post", quoted(dec_digits(tx.balances@[i].post as nat))),
        0x7du8,
    )
}

/// The first half of a token balance object's properties.
pub open spec fn tok_props_a(
    f: TokenBalanceFieldSelection,
    tx: TransactionData,
    i: int,
) -> Seq<u8> {
    prop_if(f.transaction_index, "transactionIndex", dec_digits(tx.transaction_index as nat))
        + prop_if(f.account, "account", quoted(tx.token_balances@[i].account@)) + prop_if(
        f.pre_mint,
        "preMint",
        opt_quoted(tx.token_balances@[i].pre_mint),
    ) + prop_if(f.post_mint, "postMint", opt_quoted(tx.token_balances@[i].post_mint)) + prop_if(
        f.pre_program_id,
        "preProgramId",
        opt_quoted(tx.token_balances@[i].pre_program_id),
    ) + prop_if(
        f.post_program_id,
        "postProgramId",
        opt_quoted(tx.token_balances@[i].post_program_id),
    )
}

/// The second half of a token balance object's properties.
pub open spec fn tok_props_b(
    f: TokenBalanceFieldSelection,
    tx: TransactionData,
    i: int,
) -> Seq<u8> {
    prop_if(f.pre_owner, "preOwner", opt_quoted(tx.token_balances@[i].pre_owner)) + prop_if(
        f.post_owner,
        "postOwner",
        opt_quoted(tx.token_balances@[i].post_owner),
    ) + prop_if(f.pre_decimals, "preDecimals", opt_u32(tx.token_balances@[i].pre_decimals))
        + prop_if(f.post_decimals, "postDecimals", opt_u32(tx.token_balances@[i].post_decimals))
        + prop_if(f.pre_amount, "preAmount", opt_quoted(tx.token_balances@[i].pre_amount))
        + prop_if(f.post_amount, "postAmount", opt_quoted(tx.token_balances@[i].post_amount))
}

/// One rendered token balance object.
pub open spec fn spec_tok_obj(
    f: TokenBalanceFieldSelection,
    tx: TransactionData,
    i: int,
) -> Seq<u8> {
    close_seq(seq![0x7bu8] + tok_props_a(f, tx, i) + tok_props_b(f, tx, i), 0x7du8)
}

/// The rendered objects of the selected items of one kind, by index order.
pub open spec fn item_objs(objs: Seq<Seq<u8>>) -> Seq<u8>
    decreases objs.len(),
{
    if objs.len() == 0 {
        Seq::empty()
    } else {
        item_objs(objs.drop_last()) + objs.last() + seq![0x2cu8]
    }
}

pub open spec fn item_array(objs: Seq<Seq<u8>>) -> Seq<u8> {
    close_seq(seq![0x5bu8] + item_objs(objs), 0x5du8)
}

/// The fixed head of a transaction notification.
pub open spec fn msg_header(tx: TransactionData) -> Seq<u8> {
    spec_prop("type") + quoted("transaction".spec_bytes()) + seq![0x2cu8] + spec_prop("slot")
        + dec_digits(tx.slot as nat) + seq![0x2cu8] + spec_prop("transactionIndex") + dec_digits(
        tx.transaction_index as nat,
    ) + seq![0x2cu8]
}

/// The `transaction` section, present iff the transaction record is selected.
pub open spec fn tx_sec_chunk(
    fields: FieldSelection,
    tx: TransactionData,
    sel: SelectedItems,
) -> Seq<u8> {
    if sel.transaction {
        spec_prop("transaction") + spec_tx_section(fields.transaction, tx) + seq![0x2cu8]
    } else {
        Seq::empty()
    }
}

/// The `instructions` section, present iff that selection is non-empty.
pub open spec fn ins_chunk(
    fields: FieldSelection,
    tx: TransactionData,
    sel: SelectedItems,
) -> Seq<u8> {
    if !sel.instructions.spec_is_empty() {
        spec_prop("instructions") + item_array(
            sel.instructions.selected_upto(sel.instructions.spec_len()).map_values(
                |i: usize| spec_ins_obj(fields.instruction, tx, i as int),
            ),
        ) + seq![0x2cu8]
    } else {
        Seq::empty()
    }
}

/// The `balances` section, present iff that selection is non-empty.
pub open spec fn bal_chunk(
    fields: FieldSelection,
    tx: TransactionData,
    sel: SelectedItems,
) -> Seq<u8> {
    if !sel.balances.spec_is_empty() {
        spec_prop("balances") + item_array(
            sel.balances.selected_upto(sel.balances.spec_len()).map_values(
                |i: usize| spec_bal_obj(fields.balance, tx, i as int),
            ),
        ) + seq![0x2cu8]
    } else {
        Seq::empty()
    }
}

/// The `tokenBalances` section, present iff that selection is non-empty.
pub open spec fn tok_chunk(
    fields: FieldSelection,
    tx: TransactionData,
    sel: SelectedItems,
) -> Seq<u8> {
    if !sel.token_balances.spec_is_empty() {
        spec_prop("tokenBalances") + item_array(
            sel.token_balances.selected_upto(sel.token_balances.spec_len()).map_values(
                |i: usize| spec_tok_obj(fields.token_balance, tx, i as int),
            ),
        ) + seq![0x2cu8]
    } else {
        Seq::empty()
    }
}

/// The whole transaction notification. Each item section appears exactly
/// when its selection is non-empty.
pub open spec fn spec_transaction_message(
    fields: FieldSelection,
    tx: TransactionData,
    sel: SelectedItems,
) -> Seq<u8> {
    close_seq(
        seq![0x7bu8] + msg_header(tx) + tx_sec_chunk(fields, tx, sel) + ins_chunk(fields, tx, sel)
            + bal_chunk(fields, tx, sel) + tok_chunk(fields, tx, sel),
        0x7du8,
    )
}

/// The header-fields object of a block notification.
pub open spec fn block_header_props(f: BlockFieldSelection, b: BlockData) -> Seq<u8> {
    prop_if(f.number, "number", dec_digits(b.slot as nat)) + prop_if(
        f.hash,
        "hash",
        quoted(b.hash@),
    ) + prop_if(f.parent_number, "parentNumber", dec_digits(b.parent_slot as nat)) + prop_if(
        f.parent_hash,
        "parentHash",
        quoted(b.parent_hash@),
    ) + prop_if(f.height, "height", opt_u64(b.height)) + prop_if(
        f.timestamp,
        "timestamp",
        dec_digits_int(b.timestamp as int),
    )
}

/// The `header` section of a block notification, present iff some header
/// field is selected.
pub open spec fn block_header_chunk(f: BlockFieldSelection, b: BlockData) -> Seq<u8> {
    if f.number || f.hash || f.parent_number || f.parent_hash || f.height || f.timestamp {
        spec_prop("header") + close_seq(seq![0x7bu8] + block_header_props(f, b), 0x7du8)
            + seq![0x2cu8]
    } else {
        Seq::empty()
    }
}

/// The whole block notification.
pub open spec fn spec_block_message(f: BlockFieldSelection, b: BlockData) -> Seq<u8> {
    close_seq(
        seq![0x7bu8] + spec_prop("type") + quoted("block".spec_bytes()) + seq![0x2cu8]
            + spec_prop("slot") + dec_digits(b.slot as nat) + seq![0x2cu8] + block_header_chunk(
            f,
            b,
        ),
        0x7du8,
    )
}


/// Renders the first `n` address-table entries as a JSON array of strings.
fn push_account_keys(json: &mut JsonBuilder, tx: &TransactionData, n: usize)
    requires
        old(json).wf(),
        tx.wf(),
        n <= tx.accounts@.len(),
    ensures
        final (json).wf(),
        final (json).bytes() == old(json).bytes() + quoted_array(account_key_views(*tx, n as int)),
{
    let ghost pre = json.bytes();
    json.begin_array();
    let mut ai: usize = 0;
    while ai < n
        invariant
            ai <= n,
            n <= tx.accounts@.len(),
            tx.wf(),
            json.wf(),
            json.bytes() =~= pre + seq![0x5bu8] + quoted_items(
                account_key_views(*tx, ai as int),
            ),
        decreases n - ai,
    {
        json.safe_bytes(tx.accounts[ai].as_slice());
        json.comma();
        ai = ai + 1;
        proof {
            let v = account_key_views(*tx, ai as int);
            assert(v.drop_last() =~~= account_key_views(*tx, ai as int - 1));
            assert(v.last() == tx.accounts@[ai as int - 1]@);
            assert(quoted_items(v) == quoted_items(v.drop_last()) + quoted(v.last()) + seq![
                0x2cu8,
            ]);
            assert(json.bytes() =~= pre + seq![0x5bu8] + quoted_items(v));
        }
    }
    json.end_array();
    proof {
        lemma_close_append(
            pre,
            seq![0x5bu8] + quoted_items(account_key_views(*tx, n as int)),
            0x5du8,
        );
        assert(final (json).bytes() =~= pre + quoted_array(account_key_views(*tx, n as int)));
    }
}

/// Renders an instruction's referenced accounts as a JSON array of strings.
fn push_ins_accounts(json: &mut JsonBuilder, tx: &TransactionData, idxs: &Vec<u8>)
    requires
        old(json).wf(),
        tx.wf(),
        forall|i: int| 0 <= i < idxs@.len() ==> (#[trigger] idxs@[i] as int) < tx.accounts@.len(),
    ensures
        final (json).wf(),
        final (json).bytes() == old(json).bytes() + quoted_array(ins_account_views(*tx, idxs@)),
{
    let ghost pre = json.bytes();
    json.begin_array();
    let mut ai: usize = 0;
    while ai < idxs.len()
        invariant
            ai <= idxs@.len(),
            forall|i: int|
                0 <= i < idxs@.len() ==> (#[trigger] idxs@[i] as int) < tx.accounts@.len(),
            tx.wf(),
            json.wf(),
            json.bytes() =~= pre + seq![0x5bu8] + quoted_items(
                ins_account_views(*tx, idxs@.take(ai as int)),
            ),
        decreases idxs@.len() - ai,
    {
        let idx: usize = idxs[ai] as usize;
        json.safe_bytes(tx.accounts[idx].as_slice());
        json.comma();
        ai = ai + 1;
        proof {
            let v = ins_account_views(*tx, idxs@.take(ai as int));
            assert(idxs@.take(ai as int).drop_last() =~= idxs@.take(ai as int - 1));
            assert(v.drop_last() =~~= ins_account_views(*tx, idxs@.take(ai as int - 1)));
            assert(v.last() == tx.accounts@[idxs@[ai as int - 1] as int]@);
            assert(json.bytes() =~= pre + seq![0x5bu8] + quoted_items(v));
        }
    }
    proof {
        assert(idxs@.take(idxs@.len() as int) =~= idxs@);
    }
    json.end_array();
    proof {
        lemma_close_append(
            pre,
            seq![0x5bu8] + quoted_items(ins_account_views(*tx, idxs@)),
            0x5du8,
        );
        assert(final (json).bytes() =~= pre + quoted_array(ins_account_views(*tx, idxs@)));
    }
}

/// Renders an instruction address as a JSON array of numbers.
fn push_usize_array(json: &mut JsonBuilder, l: &Vec<usize>)
    requires
        old(json).wf(),
    ensures
        final (json).wf(),
        final (json).bytes() == old(json).bytes() + usize_array(l@),
{
    let ghost pre = json.bytes();
    json.begin_array();
    let mut ai: usize = 0;
    while ai < l.len()
        invariant
            ai <= l@.len(),
            json.wf(),
            json.bytes() =~= pre + seq![0x5bu8] + usize_items(l@.take(ai as int)),
        decreases l@.len() - ai,
    {
        json.number(l[ai] as u64);
        json.comma();
        ai = ai + 1;
        proof {
            assert(l@.take(ai as int).drop_last() =~= l@.take(ai as int - 1));
            assert(l@.take(ai as int).last() == l@[ai as int - 1]);
            assert(json.bytes() =~= pre + seq![0x5bu8] + usize_items(l@.take(ai as int)));
        }
    }
    proof {
        assert(l@.take(l@.len() as int) =~= l@);
    }
    json.end_array();
    proof {
        lemma_close_append(pre, seq![0x5bu8] + usize_items(l@), 0x5du8);
        assert(final (json).bytes() =~= pre + usize_array(l@));
    }
}

/// Writes a `null` literal.
fn push_null(json: &mut JsonBuilder)
    requires
        old(json).wf(),
    ensures
        final (json).wf(),
        final (json).bytes() == old(json).bytes() + null_bytes(),
{
    json.null();
}

/// Writes a bool literal.
fn push_bool(json: &mut JsonBuilder, b: bool)
    requires
        old(json).wf(),
    ensures
        final (json).wf(),
        final (json).bytes() == old(json).bytes() + bool_bytes(b),
{
    proof {
        vstd::utf8::encode_utf8_valid_utf8(
            (if b {
                "true"
            } else {
                "false"
            })@,
        );
    }
    if b {
        json.raw("true".as_bytes());
    } else {
        json.raw("false".as_bytes());
    }
}


/// One conditional property with a plain number value.
fn render_prop_u64(json: &mut JsonBuilder, on: bool, name: &str, v: u64)
    requires
        old(json).wf(),
    ensures
        final (json).wf(),
        final (json).bytes() == old(json).bytes() + prop_if(on, name, dec_digits(v as nat)),
{
    if on {
        json.safe_prop(name);
        json.number(v);
        json.comma();
        proof {
            assert(final (json).bytes() =~= old(json).bytes() + prop_if(
                on,
                name,
                dec_digits(v as nat),
            ));
        }
    } else {
        proof {
            assert(final (json).bytes() =~= old(json).bytes() + prop_if(
                on,
                name,
                dec_digits(v as nat),
            ));
        }
    }
}

/// One conditional property with a number-in-string value.
fn render_prop_u64_str(json: &mut JsonBuilder, on: bool, name: &str, v: u64)
    requires
        old(json).wf(),
    ensures
        final (json).wf(),
        final (json).bytes() == old(json).bytes() + prop_if(
            on,
            name,
            quoted(dec_digits(v as nat)),
        ),
{
    if on {
        json.safe_prop(name);
        json.number_str(v);
        json.comma();
        proof {
            assert(final (json).bytes() =~= old(json).bytes() + prop_if(
                on,
                name,
                quoted(dec_digits(v as nat)),
            ));
        }
    } else {
        proof {
            assert(final (json).bytes() =~= old(json).bytes() + prop_if(
                on,
                name,
                quoted(dec_digits(v as nat)),
            ));
        }
    }
}

/// One conditional property with an optional number-in-string value.
fn render_prop_opt_u64_str(json: &mut JsonBuilder, on: bool, name: &str, v: &Option<u64>)
    requires
        old(json).wf(),
    ensures
        final (json).wf(),
        final (json).bytes() == old(json).bytes() + prop_if(on, name, opt_u64_str(*v)),
{
    if on {
        json.safe_prop(name);
        match v {
            Some(n) => {
                json.number_str(*n);
            },
            None => {
                json.null();
            },
        }
        json.comma();
        proof {
            assert(final (json).bytes() =~= old(json).bytes() + prop_if(
                on,
                name,
                opt_u64_str(*v),
            ));
        }
    } else {
        proof {
            assert(final (json).bytes() =~= old(json).bytes() + prop_if(
                on,
                name,
                opt_u64_str(*v),
            ));
        }
    }
}

/// One conditional property with an optional plain number value.
fn render_prop_opt_u64(json: &mut JsonBuilder, on: bool, name: &str, v: &Option<u64>)
    requires
        old(json).wf(),
    ensures
        final (json).wf(),
        final (json).bytes() == old(json).bytes() + prop_if(on, name, opt_u64(*v)),
{
    if on {
        json.safe_prop(name);
        match v {
            Some(n) => {
                json.number(*n);
            },
            None => {
                json.null();
            },
        }
        json.comma();
        proof {
            assert(final (json).bytes() =~= old(json).bytes() + prop_if(on, name, opt_u64(*v)));
        }
    } else {
        proof {
            assert(final (json).bytes() =~= old(json).bytes() + prop_if(on, name, opt_u64(*v)));
        }
    }
}

fn render_prop_opt_u32(json: &mut JsonBuilder, on: bool, name: &str, v: &Option<u32>)
    requires
        old(json).wf(),
    ensures
        final (json).wf(),
        final (json).bytes() == old(json).bytes() + prop_if(on, name, opt_u32(*v)),
{
    if on {
        json.safe_prop(name);
        match v {
            Some(n) => {
                json.number(*n as u64);
            },
            None => {
                json.null();
            },
        }
        json.comma();
        proof {
            assert(final (json).bytes() =~= old(json).bytes() + prop_if(on, name, opt_u32(*v)));
        }
    } else {
        proof {
            assert(final (json).bytes() =~= old(json).bytes() + prop_if(on, name, opt_u32(*v)));
        }
    }
}

/// One conditional property splicing a pre-rendered fragment.
fn render_prop_raw(json: &mut JsonBuilder, on: bool, name: &str, frag: &[u8])
    requires
        old(json).wf(),
        valid_utf8(frag@),
    ensures
        final (json).wf(),
        final (json).bytes() == old(json).bytes() + prop_if(on, name, frag@),
{
    if on {
        json.safe_prop(name);
        json.raw(frag);
        json.comma();
        proof {
            assert(final (json).bytes() =~= old(json).bytes() + prop_if(on, name, frag@));
        }
    } else {
        proof {
            assert(final (json).bytes() =~= old(json).bytes() + prop_if(on, name, frag@));
        }
    }
}

/// One conditional property with a quoted ASCII string value.
fn render_prop_quoted(json: &mut JsonBuilder, on: bool, name: &str, s: &[u8])
    requires
        old(json).wf(),
        crate::json_builder::ascii_seq(s@),
    ensures
        final (json).wf(),
        final (json).bytes() == old(json).bytes() + prop_if(on, name, quoted(s@)),
{
    if on {
        json.safe_prop(name);
        json.safe_bytes(s);
        json.comma();
        proof {
            assert(final (json).bytes() =~= old(json).bytes() + prop_if(on, name, quoted(s@)));
        }
    } else {
        proof {
            assert(final (json).bytes() =~= old(json).bytes() + prop_if(on, name, quoted(s@)));
        }
    }
}

/// One conditional property with an optional quoted ASCII string value.
fn render_prop_opt_quoted(json: &mut JsonBuilder, on: bool, name: &str, v: &Option<Vec<u8>>)
    requires
        old(json).wf(),
        crate::data::opt_ascii(*v),
    ensures
        final (json).wf(),
        final (json).bytes() == old(json).bytes() + prop_if(on, name, opt_quoted(*v)),
{
    if on {
        json.safe_prop(name);
        match v {
            Some(b) => {
                json.safe_bytes(b.as_slice());
            },
            None => {
                json.null();
            },
        }
        json.comma();
        proof {
            assert(final (json).bytes() =~= old(json).bytes() + prop_if(
                on,
                name,
                opt_quoted(*v),
            ));
        }
    } else {
        proof {
            assert(final (json).bytes() =~= old(json).bytes() + prop_if(
                on,
                name,
                opt_quoted(*v),
            ));
        }
    }
}

/// One conditional property that is the constant `true`.
fn render_prop_true(json: &mut JsonBuilder, on: bool, name: &str)
    requires
        old(json).wf(),
    ensures
        final (json).wf(),
        final (json).bytes() == old(json).bytes() + prop_if(on, name, "true".spec_bytes()),
{
    if on {
        json.safe_prop(name);
        proof {
            vstd::utf8::encode_utf8_valid_utf8("true"@);
        }
        json.raw("true".as_bytes());
        json.comma();
        proof {
            assert(final (json).bytes() =~= old(json).bytes() + prop_if(
                on,
                name,
                "true".spec_bytes(),
            ));
        }
    } else {
        proof {
            assert(final (json).bytes() =~= old(json).bytes() + prop_if(
                on,
                name,
                "true".spec_bytes(),
            ));
        }
    }
}

/// One conditional property that is the constant `null`.
fn render_prop_null(json: &mut JsonBuilder, on: bool, name: &str)
    requires
        old(json).wf(),
    ensures
        final (json).wf(),
        final (json).bytes() == old(json).bytes() + prop_if(on, name, null_bytes()),
{
    if on {
        json.safe_prop(name);
        json.null();
        json.comma();
        proof {
            assert(final (json).bytes() =~= old(json).bytes() + prop_if(on, name, null_bytes()));
        }
    } else {
        proof {
            assert(final (json).bytes() =~= old(json).bytes() + prop_if(on, name, null_bytes()));
        }
    }
}

/// One conditional property with a bool value.
fn render_prop_bool(json: &mut JsonBuilder, on: bool, name: &str, b: bool)
    requires
        old(json).wf(),
    ensures
        final (json).wf(),
        final (json).bytes() == old(json).bytes() + prop_if(on, name, bool_bytes(b)),
{
    if on {
        json.safe_prop(name);
        push_bool(json, b);
        json.comma();
        proof {
            assert(final (json).bytes() =~= old(json).bytes() + prop_if(on, name, bool_bytes(b)));
        }
    } else {
        proof {
            assert(final (json).bytes() =~= old(json).bytes() + prop_if(on, name, bool_bytes(b)));
        }
    }
}

/// The version property.
fn render_prop_version(json: &mut JsonBuilder, on: bool, v: TransactionVersion)
    requires
        old(json).wf(),
    ensures
        final (json).wf(),
        final (json).bytes() == old(json).bytes() + prop_if(on, "version", version_bytes(v)),
{
    if on {
        json.safe_prop("version");
        match v {
            TransactionVersion::Legacy => {
                json.safe_str("legacy");
            },
            TransactionVersion::Other(n) => {
                json.number(n as u64);
            },
        }
        json.comma();
        proof {
            assert(final (json).bytes() =~= old(json).bytes() + prop_if(
                on,
                "version",
                version_bytes(v),
            ));
        }
    } else {
        proof {
            assert(final (json).bytes() =~= old(json).bytes() + prop_if(
                on,
                "version",
                version_bytes(v),
            ));
        }
    }
}

/// The accountKeys property.
fn render_prop_account_keys(json: &mut JsonBuilder, on: bool, tx: &TransactionData)
    requires
        old(json).wf(),
        tx.wf(),
    ensures
        final (json).wf(),
        final (json).bytes() == old(json).bytes() + prop_if(
            on,
            "accountKeys",
            quoted_array(account_key_views(*tx, tx.transaction.account_keys as int)),
        ),
{
    if on {
        json.safe_prop("accountKeys");
        let n: usize = tx.transaction.account_keys;
        push_account_keys(json, tx, n);
        json.comma();
        proof {
            assert(final (json).bytes() =~= old(json).bytes() + prop_if(
                on,
                "accountKeys",
                quoted_array(account_key_views(*tx, tx.transaction.account_keys as int)),
            ));
        }
    } else {
        proof {
            assert(final (json).bytes() =~= old(json).bytes() + prop_if(
                on,
                "accountKeys",
                quoted_array(account_key_views(*tx, tx.transaction.account_keys as int)),
            ));
        }
    }
}

/// The feePayer property: `accounts[0]`, or `null` with no accounts.
fn render_prop_fee_payer(json: &mut JsonBuilder, on: bool, tx: &TransactionData)
    requires
        old(json).wf(),
        tx.wf(),
    ensures
        final (json).wf(),
        final (json).bytes() == old(json).bytes() + prop_if(
            on,
            "feePayer",
            if tx.accounts@.len() > 0 {
                quoted(tx.accounts@[0]@)
            } else {
                null_bytes()
            },
        ),
{
    if on {
        json.safe_prop("feePayer");
        if tx.accounts.len() > 0 {
            json.safe_bytes(tx.accounts[0].as_slice());
        } else {
            json.null();
        }
        json.comma();
        proof {
            assert(final (json).bytes() =~= old(json).bytes() + prop_if(
                on,
                "feePayer",
                if tx.accounts@.len() > 0 {
                    quoted(tx.accounts@[0]@)
                } else {
                    null_bytes()
                },
            ));
        }
    } else {
        proof {
            assert(final (json).bytes() =~= old(json).bytes() + prop_if(
                on,
                "feePayer",
                if tx.accounts@.len() > 0 {
                    quoted(tx.accounts@[0]@)
                } else {
                    null_bytes()
                },
            ));
        }
    }
}

/// The err property: the pre-rendered error fragment, or `null`.
fn render_prop_err(json: &mut JsonBuilder, on: bool, tx: &TransactionData)
    requires
        old(json).wf(),
        tx.wf(),
    ensures
        final (json).wf(),
        final (json).bytes() == old(json).bytes() + prop_if(
            on,
            "err",
            match tx.transaction.err {
                Some(e) => e@,
                None => null_bytes(),
            },
        ),
{
    if on {
        json.safe_prop("err");
        match &tx.transaction.err {
            Some(e) => {
                json.raw(e.as_slice());
            },
            None => {
                json.null();
            },
        }
        json.comma();
        proof {
            assert(final (json).bytes() =~= old(json).bytes() + prop_if(
                on,
                "err",
                match tx.transaction.err {
                    Some(e) => e@,
                    None => null_bytes(),
                },
            ));
        }
    } else {
        proof {
            assert(final (json).bytes() =~= old(json).bytes() + prop_if(
                on,
                "err",
                match tx.transaction.err {
                    Some(e) => e@,
                    None => null_bytes(),
                },
            ));
        }
    }
}

#[verifier::rlimit(100)]
#[verifier::spinoff_prover]
fn render_tx_props_a(json: &mut JsonBuilder, f: &TransactionFieldSelection, tx: &TransactionData)
    requires
        old(json).wf(),
        tx.wf(),
    ensures
        final (json).wf(),
        final (json).bytes() == old(json).bytes() + tx_props_a(*f, *tx),
{
    render_prop_u64(json, f.transaction_index, "transactionIndex", tx.transaction_index as u64);
    render_prop_version(json, f.version, tx.transaction.version);
    render_prop_account_keys(json, f.account_keys, tx);
    render_prop_raw(
        json,
        f.address_table_lookups,
        "addressTableLookups",
        tx.transaction.address_table_lookups.as_slice(),
    );
    render_prop_u64(
        json,
        f.num_required_signatures,
        "numRequiredSignatures",
        tx.transaction.num_required_signatures as u64,
    );
    render_prop_u64(
        json,
        f.num_readonly_signed_accounts,
        "numReadonlySignedAccounts",
        tx.transaction.num_readonly_signed_accounts as u64,
    );
    render_prop_u64(
        json,
        f.num_readonly_unsigned_accounts,
        "numReadonlyUnsignedAccounts",
        tx.transaction.num_readonly_unsigned_accounts as u64,
    );
    proof {
        let b0 = old(json).bytes();
        let p1 = prop_if(
            f.transaction_index,
            "transactionIndex",
            dec_digits(tx.transaction_index as nat),
        );
        let p2 = prop_if(f.version, "version", version_bytes(tx.transaction.version));
        let p3 = prop_if(
            f.account_keys,
            "accountKeys",
            quoted_array(account_key_views(*tx, tx.transaction.account_keys as int)),
        );
        let p4 = prop_if(
            f.address_table_lookups,
            "addressTableLookups",
            tx.transaction.address_table_lookups@,
        );
        let p5 = prop_if(
            f.num_required_signatures,
            "numRequiredSignatures",
            dec_digits(tx.transaction.num_required_signatures as nat),
        );
        let p6 = prop_if(
            f.num_readonly_signed_accounts,
            "numReadonlySignedAccounts",
            dec_digits(tx.transaction.num_readonly_signed_accounts as nat),
        );
        let p7 = prop_if(
            f.num_readonly_unsigned_accounts,
            "numReadonlyUnsignedAccounts",
            dec_digits(tx.transaction.num_readonly_unsigned_accounts as nat),
        );
        vstd::seq_lib::lemma_concat_associative(b0, p1, p2);
        vstd::seq_lib::lemma_concat_associative(b0, p1 + p2, p3);
        vstd::seq_lib::lemma_concat_associative(b0, p1 + p2 + p3, p4);
        vstd::seq_lib::lemma_concat_associative(b0, p1 + p2 + p3 + p4, p5);
        vstd::seq_lib::lemma_concat_associative(b0, p1 + p2 + p3 + p4 + p5, p6);
        vstd::seq_lib::lemma_concat_associative(b0, p1 + p2 + p3 + p4 + p5 + p6, p7);
        assert(final (json).bytes() == b0 + tx_props_a(*f, *tx));
    }
}

#[verifier::rlimit(100)]
#[verifier::spinoff_prover]
fn render_tx_props_b(json: &mut JsonBuilder, f: &TransactionFieldSelection, tx: &TransactionData)
    requires
        old(json).wf(),
        tx.wf(),
    ensures
        final (json).wf(),
        final (json).bytes() == old(json).bytes() + tx_props_b(*f, *tx),
{
    render_prop_quoted(
        json,
        f.recent_blockhash,
        "recentBlockhash",
        tx.transaction.recent_blockhash.as_slice(),
    );
    render_prop_raw(json, f.signatures, "signatures", tx.transaction.signatures.as_slice());
    render_prop_err(json, f.err, tx);
    render_prop_u64_str(json, f.fee, "fee", tx.transaction.fee);
    render_prop_opt_u64_str(
        json,
        f.compute_units_consumed,
        "computeUnitsConsumed",
        &tx.transaction.compute_units_consumed,
    );
    render_prop_raw(
        json,
        f.loaded_addresses,
        "loadedAddresses",
        tx.transaction.loaded_addresses.as_slice(),
    );
    render_prop_fee_payer(json, f.fee_payer, tx);
    render_prop_true(json, f.has_dropped_log_messages, "hasDroppedLogMessages");
    proof {
        let b0 = old(json).bytes();
        let p1 = prop_if(
            f.recent_blockhash,
            "recentBlockhash",
            quoted(tx.transaction.recent_blockhash@),
        );
        let p2 = prop_if(f.signatures, "signatures", tx.transaction.signatures@);
        let p3 = prop_if(
            f.err,
            "err",
            match &tx.transaction.err {
                Some(e) => e@,
                None => null_bytes(),
            },
        );
        let p4 = prop_if(f.fee, "fee", quoted(dec_digits(tx.transaction.fee as nat)));
        let p5 = prop_if(
            f.compute_units_consumed,
            "computeUnitsConsumed",
            opt_u64_str(tx.transaction.compute_units_consumed),
        );
        let p6 = prop_if(f.loaded_addresses, "loadedAddresses", tx.transaction.loaded_addresses@);
        let p7 = prop_if(
            f.fee_payer,
            "feePayer",
            if tx.accounts@.len() > 0 {
                quoted(tx.accounts@[0]@)
            } else {
                null_bytes()
            },
        );
        let p8 = prop_if(f.has_dropped_log_messages, "hasDroppedLogMessages", "true".spec_bytes());
        vstd::seq_lib::lemma_concat_associative(b0, p1, p2);
        vstd::seq_lib::lemma_concat_associative(b0, p1 + p2, p3);
        vstd::seq_lib::lemma_concat_associative(b0, p1 + p2 + p3, p4);
        vstd::seq_lib::lemma_concat_associative(b0, p1 + p2 + p3 + p4, p5);
        vstd::seq_lib::lemma_concat_associative(b0, p1 + p2 + p3 + p4 + p5, p6);
        vstd::seq_lib::lemma_concat_associative(b0, p1 + p2 + p3 + p4 + p5 + p6, p7);
        vstd::seq_lib::lemma_concat_associative(b0, p1 + p2 + p3 + p4 + p5 + p6 + p7, p8);
        assert(final (json).bytes() == b0 + tx_props_b(*f, *tx));
    }
}

/// Renders the `transaction` section object.
fn render_tx_section(f: &TransactionFieldSelection, tx: &TransactionData) -> (r: Vec<u8>)
    requires
        tx.wf(),
    ensures
        r@ == spec_tx_section(*f, *tx),
        valid_utf8(r@),
{
    let mut json = JsonBuilder::new();
    json.begin_object();
    proof {
        assert(Seq::<u8>::empty() + seq![0x7bu8] =~= seq![0x7bu8]);
        assert(json.bytes() == seq![0x7bu8]);
    }
    render_tx_props_a(&mut json, f, tx);
    render_tx_props_b(&mut json, f, tx);
    proof {
        assert(json.bytes().len() > 0);
    }
    json.end_object();
    proof {
        assert(json.bytes() == spec_tx_section(*f, *tx));
    }
    json.into_bytes()
}


/// The instructionAddress property.
fn render_prop_ins_address(json: &mut JsonBuilder, on: bool, ins: &crate::data::Instruction)
    requires
        old(json).wf(),
    ensures
        final (json).wf(),
        final (json).bytes() == old(json).bytes() + prop_if(
            on,
            "instructionAddress",
            usize_array(ins.instruction_address@),
        ),
{
    if on {
        json.safe_prop("instructionAddress");
        push_usize_array(json, &ins.instruction_address);
        json.comma();
        proof {
            assert(final (json).bytes() =~= old(json).bytes() + prop_if(
                on,
                "instructionAddress",
                usize_array(ins.instruction_address@),
            ));
        }
    } else {
        proof {
            assert(final (json).bytes() =~= old(json).bytes() + prop_if(
                on,
                "instructionAddress",
                usize_array(ins.instruction_address@),
            ));
        }
    }
}

/// The programId property: the program's address-table entry.
fn render_prop_program_id(
    json: &mut JsonBuilder,
    on: bool,
    tx: &TransactionData,
    ins: &crate::data::Instruction,
)
    requires
        old(json).wf(),
        tx.wf(),
        (ins.program_id as int) < tx.accounts@.len(),
    ensures
        final (json).wf(),
        final (json).bytes() == old(json).bytes() + prop_if(
            on,
            "programId",
            quoted(tx.accounts@[ins.program_id as int]@),
        ),
{
    if on {
        json.safe_prop("programId");
        json.safe_bytes(tx.accounts[ins.program_id as usize].as_slice());
        json.comma();
        proof {
            assert(final (json).bytes() =~= old(json).bytes() + prop_if(
                on,
                "programId",
                quoted(tx.accounts@[ins.program_id as int]@),
            ));
        }
    } else {
        proof {
            assert(final (json).bytes() =~= old(json).bytes() + prop_if(
                on,
                "programId",
                quoted(tx.accounts@[ins.program_id as int]@),
            ));
        }
    }
}

/// The accounts property: the instruction's referenced addresses.
fn render_prop_ins_accounts(
    json: &mut JsonBuilder,
    on: bool,
    tx: &TransactionData,
    ins: &crate::data::Instruction,
)
    requires
        old(json).wf(),
        tx.wf(),
        forall|k: int|
            0 <= k < ins.accounts@.len() ==> (#[trigger] ins.accounts@[k] as int)
                < tx.accounts@.len(),
    ensures
        final (json).wf(),
        final (json).bytes() == old(json).bytes() + prop_if(
            on,
            "accounts",
            quoted_array(ins_account_views(*tx, ins.accounts@)),
        ),
{
    if on {
        json.safe_prop("accounts");
        push_ins_accounts(json, tx, &ins.accounts);
        json.comma();
        proof {
            assert(final (json).bytes() =~= old(json).bytes() + prop_if(
                on,
                "accounts",
                quoted_array(ins_account_views(*tx, ins.accounts@)),
            ));
        }
    } else {
        proof {
            assert(final (json).bytes() =~= old(json).bytes() + prop_if(
                on,
                "accounts",
                quoted_array(ins_account_views(*tx, ins.accounts@)),
            ));
        }
    }
}

#[verifier::rlimit(100)]
#[verifier::spinoff_prover]
fn render_ins_props_a(
    json: &mut JsonBuilder,
    f: &InstructionFieldSelection,
    tx: &TransactionData,
    i: usize,
)
    requires
        old(json).wf(),
        tx.wf(),
        i < tx.instructions@.len(),
    ensures
        final (json).wf(),
        final (json).bytes() == old(json).bytes() + ins_props_a(*f, *tx, i as int),
{
    let ins = &tx.instructions[i];
    proof {
        assert(ins == &tx.instructions@[i as int]);
        assert(tx.instructions@[i as int].wf(tx.accounts@.len() as int));
    }
    render_prop_u64(json, f.transaction_index, "transactionIndex", tx.transaction_index as u64);
    render_prop_ins_address(json, f.instruction_address, ins);
    render_prop_program_id(json, f.program_id, tx, ins);
    render_prop_ins_accounts(json, f.accounts, tx, ins);
    render_prop_quoted(json, f.data, "data", ins.data.as_slice());
    render_prop_hex_prefix(json, f.d1, "d1", ins, 1);
    render_prop_hex_prefix(json, f.d2, "d2", ins, 2);
    proof {
        let b0 = old(json).bytes();
        let p1 = prop_if(
            f.transaction_index,
            "transactionIndex",
            dec_digits(tx.transaction_index as nat),
        );
        let p2 = prop_if(
            f.instruction_address,
            "instructionAddress",
            usize_array(tx.instructions@[i as int].instruction_address@),
        );
        let p3 = prop_if(
            f.program_id,
            "programId",
            quoted(tx.accounts@[tx.instructions@[i as int].program_id as int]@),
        );
        let p4 = prop_if(
            f.accounts,
            "accounts",
            quoted_array(ins_account_views(*tx, tx.instructions@[i as int].accounts@)),
        );
        let p5 = prop_if(f.data, "data", quoted(tx.instructions@[i as int].data@));
        let p6 = prop_if(
            f.d1,
            "d1",
            if tx.instructions@[i as int].binary_data@.len() >= 1 {
                quoted(render_hex_seq(tx.instructions@[i as int].binary_data@.take(1)))
            } else {
                null_bytes()
            },
        );
        let p7 = prop_if(
            f.d2,
            "d2",
            if tx.instructions@[i as int].binary_data@.len() >= 2 {
                quoted(render_hex_seq(tx.instructions@[i as int].binary_data@.take(2)))
            } else {
                null_bytes()
            },
        );
        vstd::seq_lib::lemma_concat_associative(b0, p1, p2);
        vstd::seq_lib::lemma_concat_associative(b0, p1 + p2, p3);
        vstd::seq_lib::lemma_concat_associative(b0, p1 + p2 + p3, p4);
        vstd::seq_lib::lemma_concat_associative(b0, p1 + p2 + p3 + p4, p5);
        vstd::seq_lib::lemma_concat_associative(b0, p1 + p2 + p3 + p4 + p5, p6);
        vstd::seq_lib::lemma_concat_associative(b0, p1 + p2 + p3 + p4 + p5 + p6, p7);
        assert(final (json).bytes() == b0 + ins_props_a(*f, *tx, i as int));
    }
}

/// One conditional `dN` property: the first `n` data bytes as hex, or `null`./// One conditional `dN` property: the first `n` data bytes as hex, or `null`.
fn render_prop_hex_prefix(
    json: &mut JsonBuilder,
    on: bool,
    name: &str,
    ins: &crate::data::Instruction,
    n: usize,
)
    requires
        old(json).wf(),
    ensures
        final (json).wf(),
        final (json).bytes() == old(json).bytes() + prop_if(
            on,
            name,
            if ins.binary_data@.len() >= n {
                quoted(render_hex_seq(ins.binary_data@.take(n as int)))
            } else {
                null_bytes()
            },
        ),
{
    if on {
        json.safe_prop(name);
        if ins.binary_data.len() >= n {
            let prefix: &[u8] = slice_take(ins.binary_data.as_slice(), n);
            let h = crate::query::util::render_hex(prefix);
            proof {
                crate::query::util::lemma_hex_body_ascii(prefix@);
            }
            json.safe_bytes(h.as_slice());
        } else {
            json.null();
        }
        json.comma();
        proof {
            assert(final (json).bytes() =~= old(json).bytes() + prop_if(
                on,
                name,
                if ins.binary_data@.len() >= n {
                    quoted(render_hex_seq(ins.binary_data@.take(n as int)))
                } else {
                    null_bytes()
                },
            ));
        }
    } else {
        proof {
            assert(final (json).bytes() =~= old(json).bytes() + prop_if(
                on,
                name,
                if ins.binary_data@.len() >= n {
                    quoted(render_hex_seq(ins.binary_data@.take(n as int)))
                } else {
                    null_bytes()
                },
            ));
        }
    }
}

/// The prefix of a slice.
fn slice_take(s: &[u8], n: usize) -> (r: &[u8])
    requires
        n <= s@.len(),
    ensures
        r@ == s@.take(n as int),
{
    let r = vstd::slice::slice_subrange(s, 0, n);
    proof {
        assert(r@ =~= s@.take(n as int));
    }
    r
}

#[verifier::rlimit(100)]
#[verifier::spinoff_prover]
fn render_ins_props_b(
    json: &mut JsonBuilder,
    f: &InstructionFieldSelection,
    tx: &TransactionData,
    i: usize,
)
    requires
        old(json).wf(),
        tx.wf(),
        i < tx.instructions@.len(),
    ensures
        final (json).wf(),
        final (json).bytes() == old(json).bytes() + ins_props_b(*f, *tx, i as int),
{
    let ins = &tx.instructions[i];
    proof {
        assert(ins == &tx.instructions@[i as int]);
    }
    render_prop_hex_prefix(json, f.d4, "d4", ins, 4);
    render_prop_hex_prefix(json, f.d8, "d8", ins, 8);
    render_prop_null(json, f.error, "error");
    render_prop_null(json, f.compute_units_consumed, "computeUnitsConsumed");
    render_prop_bool(json, f.is_committed, "isCommitted", ins.is_committed);
    render_prop_true(json, f.has_dropped_log_messages, "hasDroppedLogMessages");
    proof {
        let b0 = old(json).bytes();
        let p1 = prop_if(
            f.d4,
            "d4",
            if tx.instructions@[i as int].binary_data@.len() >= 4 {
                quoted(render_hex_seq(tx.instructions@[i as int].binary_data@.take(4)))
            } else {
                null_bytes()
            },
        );
        let p2 = prop_if(
            f.d8,
            "d8",
            if tx.instructions@[i as int].binary_data@.len() >= 8 {
                quoted(render_hex_seq(tx.instructions@[i as int].binary_data@.take(8)))
            } else {
                null_bytes()
            },
        );
        let p3 = prop_if(f.error, "error", null_bytes());
        let p4 = prop_if(f.compute_units_consumed, "computeUnitsConsumed", null_bytes());
        let p5 = prop_if(
            f.is_committed,
            "isCommitted",
            bool_bytes(tx.instructions@[i as int].is_committed),
        );
        let p6 = prop_if(f.has_dropped_log_messages, "hasDroppedLogMessages", "true".spec_bytes());
        vstd::seq_lib::lemma_concat_associative(b0, p1, p2);
        vstd::seq_lib::lemma_concat_associative(b0, p1 + p2, p3);
        vstd::seq_lib::lemma_concat_associative(b0, p1 + p2 + p3, p4);
        vstd::seq_lib::lemma_concat_associative(b0, p1 + p2 + p3 + p4, p5);
        vstd::seq_lib::lemma_concat_associative(b0, p1 + p2 + p3 + p4 + p5, p6);
        assert(final (json).bytes() == b0 + ins_props_b(*f, *tx, i as int));
    }
}

/// Renders one instruction object.
fn render_ins_obj(f: &InstructionFieldSelection, tx: &TransactionData, i: usize) -> (r: Vec<u8>)
    requires
        tx.wf(),
        i < tx.instructions@.len(),
    ensures
        r@ == spec_ins_obj(*f, *tx, i as int),
        valid_utf8(r@),
{
    let mut json = JsonBuilder::new();
    json.begin_object();
    proof {
        assert(Seq::<u8>::empty() + seq![0x7bu8] =~= seq![0x7bu8]);
        assert(json.bytes() == seq![0x7bu8]);
    }
    render_ins_props_a(&mut json, f, tx, i);
    render_ins_props_b(&mut json, f, tx, i);
    proof {
        assert(json.bytes().len() > 0);
    }
    json.end_object();
    proof {
        assert(json.bytes() == spec_ins_obj(*f, *tx, i as int));
    }
    json.into_bytes()
}

/// Renders one balance object.
#[verifier::rlimit(100)]
#[verifier::spinoff_prover]
fn render_bal_obj(f: &BalanceFieldSelection, tx: &TransactionData, i: usize) -> (r: Vec<u8>)
    requires
        tx.wf(),
        i < tx.balances@.len(),
    ensures
        r@ == spec_bal_obj(*f, *tx, i as int),
        valid_utf8(r@),
{
    let b = &tx.balances[i];
    proof {
        assert(b == &tx.balances@[i as int]);
        assert(tx.balances@[i as int].wf());
    }
    let mut json = JsonBuilder::new();
    json.begin_object();
    proof {
        assert(Seq::<u8>::empty() + seq![0x7bu8] =~= seq![0x7bu8]);
        assert(json.bytes() == seq![0x7bu8]);
    }
    render_prop_u64(&mut json, f.transaction_index, "transactionIndex", tx.transaction_index
        as u64);
    render_prop_quoted(&mut json, f.account, "account", b.account.as_slice());
    render_prop_u64_str(&mut json, f.pre, "pre", b.pre);
    render_prop_u64_str(&mut json, f.post, "post", b.post);
    proof {
        assert(json.bytes().len() > 0);
    }
    json.end_object();
    proof {
        assert(json.bytes() == spec_bal_obj(*f, *tx, i as int));
    }
    json.into_bytes()
}

#[verifier::rlimit(100)]
#[verifier::spinoff_prover]
fn render_tok_props_a(
    json: &mut JsonBuilder,
    f: &TokenBalanceFieldSelection,
    tx: &TransactionData,
    i: usize,
)
    requires
        old(json).wf(),
        tx.wf(),
        i < tx.token_balances@.len(),
    ensures
        final (json).wf(),
        final (json).bytes() == old(json).bytes() + tok_props_a(*f, *tx, i as int),
{
    let b = &tx.token_balances[i];
    proof {
        assert(b == &tx.token_balances@[i as int]);
        assert(tx.token_balances@[i as int].wf());
    }
    render_prop_u64(json, f.transaction_index, "transactionIndex", tx.transaction_index as u64);
    render_prop_quoted(json, f.account, "account", b.account.as_slice());
    render_prop_opt_quoted(json, f.pre_mint, "preMint", &b.pre_mint);
    render_prop_opt_quoted(json, f.post_mint, "postMint", &b.post_mint);
    render_prop_opt_quoted(json, f.pre_program_id, "preProgramId", &b.pre_program_id);
    render_prop_opt_quoted(json, f.post_program_id, "postProgramId", &b.post_program_id);
    proof {
        let b0 = old(json).bytes();
        let tb = tx.token_balances@[i as int];
        let p1 = prop_if(
            f.transaction_index,
            "transactionIndex",
            dec_digits(tx.transaction_index as nat),
        );
        let p2 = prop_if(f.account, "account", quoted(tb.account@));
        let p3 = prop_if(f.pre_mint, "preMint", opt_quoted(tb.pre_mint));
        let p4 = prop_if(f.post_mint, "postMint", opt_quoted(tb.post_mint));
        let p5 = prop_if(f.pre_program_id, "preProgramId", opt_quoted(tb.pre_program_id));
        let p6 = prop_if(f.post_program_id, "postProgramId", opt_quoted(tb.post_program_id));
        vstd::seq_lib::lemma_concat_associative(b0, p1, p2);
        vstd::seq_lib::lemma_concat_associative(b0, p1 + p2, p3);
        vstd::seq_lib::lemma_concat_associative(b0, p1 + p2 + p3, p4);
        vstd::seq_lib::lemma_concat_associative(b0, p1 + p2 + p3 + p4, p5);
        vstd::seq_lib::lemma_concat_associative(b0, p1 + p2 + p3 + p4 + p5, p6);
        assert(final (json).bytes() == b0 + tok_props_a(*f, *tx, i as int));
    }
}

#[verifier::rlimit(100)]
#[verifier::spinoff_prover]
fn render_tok_props_b(
    json: &mut JsonBuilder,
    f: &TokenBalanceFieldSelection,
    tx: &TransactionData,
    i: usize,
)
    requires
        old(json).wf(),
        tx.wf(),
        i < tx.token_balances@.len(),
    ensures
        final (json).wf(),
        final (json).bytes() == old(json).bytes() + tok_props_b(*f, *tx, i as int),
{
    let b = &tx.token_balances[i];
    proof {
        assert(b == &tx.token_balances@[i as int]);
        assert(tx.token_balances@[i as int].wf());
    }
    render_prop_opt_quoted(json, f.pre_owner, "preOwner", &b.pre_owner);
    render_prop_opt_quoted(json, f.post_owner, "postOwner", &b.post_owner);
    render_prop_opt_u32(json, f.pre_decimals, "preDecimals", &b.pre_decimals);
    render_prop_opt_u32(json, f.post_decimals, "postDecimals", &b.post_decimals);
    render_prop_opt_quoted(json, f.pre_amount, "preAmount", &b.pre_amount);
    render_prop_opt_quoted(json, f.post_amount, "postAmount", &b.post_amount);
    proof {
        let b0 = old(json).bytes();
        let tb = tx.token_balances@[i as int];
        let p1 = prop_if(f.pre_owner, "preOwner", opt_quoted(tb.pre_owner));
        let p2 = prop_if(f.post_owner, "postOwner", opt_quoted(tb.post_owner));
        let p3 = prop_if(f.pre_decimals, "preDecimals", opt_u32(tb.pre_decimals));
        let p4 = prop_if(f.post_decimals, "postDecimals", opt_u32(tb.post_decimals));
        let p5 = prop_if(f.pre_amount, "preAmount", opt_quoted(tb.pre_amount));
        let p6 = prop_if(f.post_amount, "postAmount", opt_quoted(tb.post_amount));
        vstd::seq_lib::lemma_concat_associative(b0, p1, p2);
        vstd::seq_lib::lemma_concat_associative(b0, p1 + p2, p3);
        vstd::seq_lib::lemma_concat_associative(b0, p1 + p2 + p3, p4);
        vstd::seq_lib::lemma_concat_associative(b0, p1 + p2 + p3 + p4, p5);
        vstd::seq_lib::lemma_concat_associative(b0, p1 + p2 + p3 + p4 + p5, p6);
        assert(final (json).bytes() == b0 + tok_props_b(*f, *tx, i as int));
    }
}

/// Renders one token balance object.
fn render_tok_obj(f: &TokenBalanceFieldSelection, tx: &TransactionData, i: usize) -> (r: Vec<u8>)
    requires
        tx.wf(),
        i < tx.token_balances@.len(),
    ensures
        r@ == spec_tok_obj(*f, *tx, i as int),
        valid_utf8(r@),
{
    let mut json = JsonBuilder::new();
    json.begin_object();
    proof {
        assert(Seq::<u8>::empty() + seq![0x7bu8] =~= seq![0x7bu8]);
        assert(json.bytes() == seq![0x7bu8]);
    }
    render_tok_props_a(&mut json, f, tx, i);
    render_tok_props_b(&mut json, f, tx, i);
    proof {
        assert(json.bytes().len() > 0);
    }
    json.end_object();
    proof {
        assert(json.bytes() == spec_tok_obj(*f, *tx, i as int));
    }
    json.into_bytes()
}


/// Writes the fixed head of a transaction notification.
#[verifier::rlimit(100)]
#[verifier::spinoff_prover]
fn push_msg_header(json: &mut JsonBuilder, tx: &TransactionData)
    requires
        old(json).wf(),
    ensures
        final (json).wf(),
        final (json).bytes() == old(json).bytes() + msg_header(*tx),
{
    json.safe_prop("type");
    json.safe_str("transaction");
    json.comma();
    json.safe_prop("slot");
    json.number(tx.slot);
    json.comma();
    json.safe_prop("transactionIndex");
    json.number(tx.transaction_index as u64);
    json.comma();
    proof {
        assert(final (json).bytes() =~= old(json).bytes() + msg_header(*tx));
    }
}

/// Writes one item section: the property name and the array of objects.
fn push_section(json: &mut JsonBuilder, name: &str, body: &Vec<u8>)
    requires
        old(json).wf(),
        valid_utf8(body@),
    ensures
        final (json).wf(),
        final (json).bytes() == old(json).bytes() + (spec_prop(name) + body@ + seq![0x2cu8]),
{
    json.safe_prop(name);
    json.raw(body.as_slice());
    json.comma();
    proof {
        assert(final (json).bytes() =~= old(json).bytes() + (spec_prop(name) + body@ + seq![
            0x2cu8,
        ]));
    }
}

/// Renders the array of selected instruction objects.
fn render_ins_array(
    fields: &FieldSelection,
    tx: &TransactionData,
    sel: &SelectedItems,
) -> (r: Vec<u8>)
    requires
        tx.wf(),
        sel.wf(),
        sel.instructions.spec_len() == tx.instructions@.len(),
    ensures
        r@ == item_array(
            sel.instructions.selected_upto(sel.instructions.spec_len()).map_values(
                |i: usize| spec_ins_obj(fields.instruction, *tx, i as int),
            ),
        ),
        valid_utf8(r@),
{
    let idxs = sel.instructions.selected_indices();
    let ghost objs = sel.instructions.selected_upto(sel.instructions.spec_len()).map_values(
        |i: usize| spec_ins_obj(fields.instruction, *tx, i as int),
    );
    let mut json = JsonBuilder::new();
    json.begin_array();
    proof {
        assert(Seq::<u8>::empty() + seq![0x5bu8] =~= seq![0x5bu8]);
        assert(json.bytes() == seq![0x5bu8]);
    }
    let mut k: usize = 0;
    while k < idxs.len()
        invariant
            k <= idxs@.len(),
            tx.wf(),
            idxs@ == sel.instructions.selected_upto(sel.instructions.spec_len()),
            forall|m: int| 0 <= m < idxs@.len() ==> (#[trigger] idxs@[m] as int)
                < tx.instructions@.len(),
            objs == idxs@.map_values(|i: usize| spec_ins_obj(fields.instruction, *tx, i as int)),
            json.wf(),
            json.bytes() =~= seq![0x5bu8] + item_objs(objs.take(k as int)),
        decreases idxs@.len() - k,
    {
        let obj = render_ins_obj(&fields.instruction, tx, idxs[k]);
        json.raw(obj.as_slice());
        json.comma();
        k = k + 1;
        proof {
            assert(objs.take(k as int).drop_last() =~~= objs.take(k as int - 1));
            assert(objs.take(k as int).last() == objs[k as int - 1]);
            assert(objs[k as int - 1] == spec_ins_obj(
                fields.instruction,
                *tx,
                idxs@[k as int - 1] as int,
            ));
            assert(json.bytes() =~= seq![0x5bu8] + item_objs(objs.take(k as int)));
        }
    }
    proof {
        assert(objs.take(objs.len() as int) =~~= objs);
        assert(item_objs(objs.take(objs.len() as int)) == item_objs(objs));
        assert(json.bytes().len() > 0);
    }
    json.end_array();
    proof {
        assert(json.bytes() == item_array(objs));
    }
    json.into_bytes()
}

/// Renders the array of selected balance objects.
fn render_bal_array(
    fields: &FieldSelection,
    tx: &TransactionData,
    sel: &SelectedItems,
) -> (r: Vec<u8>)
    requires
        tx.wf(),
        sel.wf(),
        sel.balances.spec_len() == tx.balances@.len(),
    ensures
        r@ == item_array(
            sel.balances.selected_upto(sel.balances.spec_len()).map_values(
                |i: usize| spec_bal_obj(fields.balance, *tx, i as int),
            ),
        ),
        valid_utf8(r@),
{
    let idxs = sel.balances.selected_indices();
    let ghost objs = sel.balances.selected_upto(sel.balances.spec_len()).map_values(
        |i: usize| spec_bal_obj(fields.balance, *tx, i as int),
    );
    let mut json = JsonBuilder::new();
    json.begin_array();
    proof {
        assert(Seq::<u8>::empty() + seq![0x5bu8] =~= seq![0x5bu8]);
        assert(json.bytes() == seq![0x5bu8]);
    }
    let mut k: usize = 0;
    while k < idxs.len()
        invariant
            k <= idxs@.len(),
            tx.wf(),
            idxs@ == sel.balances.selected_upto(sel.balances.spec_len()),
            forall|m: int| 0 <= m < idxs@.len() ==> (#[trigger] idxs@[m] as int)
                < tx.balances@.len(),
            objs == idxs@.map_values(|i: usize| spec_bal_obj(fields.balance, *tx, i as int)),
            json.wf(),
            json.bytes() =~= seq![0x5bu8] + item_objs(objs.take(k as int)),
        decreases idxs@.len() - k,
    {
        let obj = render_bal_obj(&fields.balance, tx, idxs[k]);
        json.raw(obj.as_slice());
        json.comma();
        k = k + 1;
        proof {
            assert(objs.take(k as int).drop_last() =~~= objs.take(k as int - 1));
            assert(objs.take(k as int).last() == objs[k as int - 1]);
            assert(objs[k as int - 1] == spec_bal_obj(
                fields.balance,
                *tx,
                idxs@[k as int - 1] as int,
            ));
            assert(json.bytes() =~= seq![0x5bu8] + item_objs(objs.take(k as int)));
        }
    }
    proof {
        assert(objs.take(objs.len() as int) =~~= objs);
        assert(item_objs(objs.take(objs.len() as int)) == item_objs(objs));
        assert(json.bytes().len() > 0);
    }
    json.end_array();
    proof {
        assert(json.bytes() == item_array(objs));
    }
    json.into_bytes()
}

/// Renders the array of selected token balance objects.
fn render_tok_array(
    fields: &FieldSelection,
    tx: &TransactionData,
    sel: &SelectedItems,
) -> (r: Vec<u8>)
    requires
        tx.wf(),
        sel.wf(),
        sel.token_balances.spec_len() == tx.token_balances@.len(),
    ensures
        r@ == item_array(
            sel.token_balances.selected_upto(sel.token_balances.spec_len()).map_values(
                |i: usize| spec_tok_obj(fields.token_balance, *tx, i as int),
            ),
        ),
        valid_utf8(r@),
{
    let idxs = sel.token_balances.selected_indices();
    let ghost objs = sel.token_balances.selected_upto(sel.token_balances.spec_len()).map_values(
        |i: usize| spec_tok_obj(fields.token_balance, *tx, i as int),
    );
    let mut json = JsonBuilder::new();
    json.begin_array();
    proof {
        assert(Seq::<u8>::empty() + seq![0x5bu8] =~= seq![0x5bu8]);
        assert(json.bytes() == seq![0x5bu8]);
    }
    let mut k: usize = 0;
    while k < idxs.len()
        invariant
            k <= idxs@.len(),
            tx.wf(),
            idxs@ == sel.token_balances.selected_upto(sel.token_balances.spec_len()),
            forall|m: int| 0 <= m < idxs@.len() ==> (#[trigger] idxs@[m] as int)
                < tx.token_balances@.len(),
            objs == idxs@.map_values(
                |i: usize| spec_tok_obj(fields.token_balance, *tx, i as int),
            ),
            json.wf(),
            json.bytes() =~= seq![0x5bu8] + item_objs(objs.take(k as int)),
        decreases idxs@.len() - k,
    {
        let obj = render_tok_obj(&fields.token_balance, tx, idxs[k]);
        json.raw(obj.as_slice());
        json.comma();
        k = k + 1;
        proof {
            assert(objs.take(k as int).drop_last() =~~= objs.take(k as int - 1));
            assert(objs.take(k as int).last() == objs[k as int - 1]);
            assert(objs[k as int - 1] == spec_tok_obj(
                fields.token_balance,
                *tx,
                idxs@[k as int - 1] as int,
            ));
            assert(json.bytes() =~= seq![0x5bu8] + item_objs(objs.take(k as int)));
        }
    }
    proof {
        assert(objs.take(objs.len() as int) =~~= objs);
        assert(item_objs(objs.take(objs.len() as int)) == item_objs(objs));
        assert(json.bytes().len() > 0);
    }
    json.end_array();
    proof {
        assert(json.bytes() == item_array(objs));
    }
    json.into_bytes()
}

/// Renders the notification for one transaction: the selection decides which
/// sections appear, the field selection decides which properties each item
/// shows.
#[verifier::rlimit(100)]
#[verifier::spinoff_prover]
pub fn render_transaction_message(
    fields: &FieldSelection,
    tx: &TransactionData,
    sel: &SelectedItems,
) -> (r: String)
    requires
        tx.wf(),
        sel.wf(),
        sel.instructions.spec_len() == tx.instructions@.len(),
        sel.balances.spec_len() == tx.balances@.len(),
        sel.token_balances.spec_len() == tx.token_balances@.len(),
    ensures
        encode_utf8(r@) == spec_transaction_message(*fields, *tx, *sel),
{
    let mut json = JsonBuilder::new();
    json.begin_object();
    proof {
        assert(Seq::<u8>::empty() + seq![0x7bu8] =~= seq![0x7bu8]);
        assert(json.bytes() == seq![0x7bu8]);
    }
    push_msg_header(&mut json, tx);
    if sel.transaction {
        let sec = render_tx_section(&fields.transaction, tx);
        push_section(&mut json, "transaction", &sec);
    }
    proof {
        assert(json.bytes() == seq![0x7bu8] + msg_header(*tx) + tx_sec_chunk(
            *fields,
            *tx,
            *sel,
        )) by {
            if sel.transaction {
                vstd::seq_lib::lemma_concat_associative(
                    seq![0x7bu8] + msg_header(*tx),
                    spec_prop("transaction") + spec_tx_section(fields.transaction, *tx),
                    seq![0x2cu8],
                );
                vstd::seq_lib::lemma_concat_associative(
                    seq![0x7bu8] + msg_header(*tx),
                    spec_prop("transaction"),
                    spec_tx_section(fields.transaction, *tx),
                );
                assert(spec_prop("transaction") + spec_tx_section(fields.transaction, *tx) + seq![
                    0x2cu8,
                ] =~= tx_sec_chunk(*fields, *tx, *sel));
            } else {
                assert(seq![0x7bu8] + msg_header(*tx) + tx_sec_chunk(*fields, *tx, *sel)
                    =~= seq![0x7bu8] + msg_header(*tx));
            }
        }
    }
    let ghost b2 = seq![0x7bu8] + msg_header(*tx) + tx_sec_chunk(*fields, *tx, *sel);
    if !sel.instructions.is_empty() {
        let arr = render_ins_array(fields, tx, sel);
        push_section(&mut json, "instructions", &arr);
    }
    proof {
        assert(json.bytes() == b2 + ins_chunk(*fields, *tx, *sel)) by {
            if !sel.instructions.spec_is_empty() {
                let arrv = item_array(
                    sel.instructions.selected_upto(sel.instructions.spec_len()).map_values(
                        |i: usize| spec_ins_obj(fields.instruction, *tx, i as int),
                    ),
                );
                vstd::seq_lib::lemma_concat_associative(
                    b2,
                    spec_prop("instructions") + arrv,
                    seq![0x2cu8],
                );
                vstd::seq_lib::lemma_concat_associative(b2, spec_prop("instructions"), arrv);
            } else {
                assert(b2 + ins_chunk(*fields, *tx, *sel) =~= b2);
            }
        }
    }
    let ghost b3 = b2 + ins_chunk(*fields, *tx, *sel);
    if !sel.balances.is_empty() {
        let arr = render_bal_array(fields, tx, sel);
        push_section(&mut json, "balances", &arr);
    }
    proof {
        assert(json.bytes() == b3 + bal_chunk(*fields, *tx, *sel)) by {
            if !sel.balances.spec_is_empty() {
                let arrv = item_array(
                    sel.balances.selected_upto(sel.balances.spec_len()).map_values(
                        |i: usize| spec_bal_obj(fields.balance, *tx, i as int),
                    ),
                );
                vstd::seq_lib::lemma_concat_associative(
                    b3,
                    spec_prop("balances") + arrv,
                    seq![0x2cu8],
                );
                vstd::seq_lib::lemma_concat_associative(b3, spec_prop("balances"), arrv);
            } else {
                assert(b3 + bal_chunk(*fields, *tx, *sel) =~= b3);
            }
        }
    }
    let ghost b4 = b3 + bal_chunk(*fields, *tx, *sel);
    if !sel.token_balances.is_empty() {
        let arr = render_tok_array(fields, tx, sel);
        push_section(&mut json, "tokenBalances", &arr);
    }
    proof {
        assert(json.bytes() == b4 + tok_chunk(*fields, *tx, *sel)) by {
            if !sel.token_balances.spec_is_empty() {
                let arrv = item_array(
                    sel.token_balances.selected_upto(sel.token_balances.spec_len()).map_values(
                        |i: usize| spec_tok_obj(fields.token_balance, *tx, i as int),
                    ),
                );
                vstd::seq_lib::lemma_concat_associative(
                    b4,
                    spec_prop("tokenBalances") + arrv,
                    seq![0x2cu8],
                );
                vstd::seq_lib::lemma_concat_associative(b4, spec_prop("tokenBalances"), arrv);
            } else {
                assert(b4 + tok_chunk(*fields, *tx, *sel) =~= b4);
            }
        }
        assert(json.bytes().len() > 0);
    }
    json.end_object();
    proof {
        assert(json.bytes() == spec_transaction_message(*fields, *tx, *sel));
    }
    json.into_string()
}

/// Renders the notification for one block; the `header` object appears only
/// when at least one of its fields is selected.
#[verifier::rlimit(100)]
#[verifier::spinoff_prover]
pub fn render_block_message(f: &BlockFieldSelection, b: &BlockData) -> (r: String)
    requires
        b.wf(),
    ensures
        encode_utf8(r@) == spec_block_message(*f, *b),
{
    let mut json = JsonBuilder::new();
    json.begin_object();
    proof {
        assert(Seq::<u8>::empty() + seq![0x7bu8] =~= seq![0x7bu8]);
        assert(json.bytes() == seq![0x7bu8]);
    }
    json.safe_prop("type");
    json.safe_str("block");
    json.comma();
    json.safe_prop("slot");
    json.number(b.slot);
    json.comma();
    let ghost head = seq![0x7bu8] + spec_prop("type") + quoted("block".spec_bytes()) + seq![
        0x2cu8,
    ] + spec_prop("slot") + dec_digits(b.slot as nat) + seq![0x2cu8];
    proof {
        assert(json.bytes() =~= head);
    }
    if f.number || f.hash || f.parent_number || f.parent_hash || f.height || f.timestamp {
        json.safe_prop("header");
        let hdr = render_block_header(f, b);
        json.raw(hdr.as_slice());
        json.comma();
        proof {
            let body = close_seq(seq![0x7bu8] + block_header_props(*f, *b), 0x7du8);
            vstd::seq_lib::lemma_concat_associative(
                head,
                spec_prop("header") + body,
                seq![0x2cu8],
            );
            vstd::seq_lib::lemma_concat_associative(head, spec_prop("header"), body);
            assert(json.bytes() == head + block_header_chunk(*f, *b));
        }
    } else {
        proof {
            assert(head + block_header_chunk(*f, *b) =~= head);
            assert(json.bytes() == head + block_header_chunk(*f, *b));
        }
    }
    proof {
        assert(json.bytes().len() > 0);
    }
    json.end_object();
    proof {
        assert(json.bytes() == spec_block_message(*f, *b));
    }
    json.into_string()
}

/// Renders the header-fields object of a block notification.
#[verifier::rlimit(100)]
#[verifier::spinoff_prover]
fn render_block_header(f: &BlockFieldSelection, b: &BlockData) -> (r: Vec<u8>)
    requires
        b.wf(),
    ensures
        r@ == close_seq(seq![0x7bu8] + block_header_props(*f, *b), 0x7du8),
        valid_utf8(r@),
{
    let mut json = JsonBuilder::new();
    json.begin_object();
    proof {
        assert(Seq::<u8>::empty() + seq![0x7bu8] =~= seq![0x7bu8]);
        assert(json.bytes() == seq![0x7bu8]);
    }
    render_prop_u64(&mut json, f.number, "number", b.slot);
    render_prop_quoted(&mut json, f.hash, "hash", b.hash.as_slice());
    render_prop_u64(&mut json, f.parent_number, "parentNumber", b.parent_slot);
    render_prop_quoted(&mut json, f.parent_hash, "parentHash", b.parent_hash.as_slice());
    render_prop_opt_u64(&mut json, f.height, "height", &b.height);
    render_prop_i64(&mut json, f.timestamp, "timestamp", b.timestamp);
    proof {
        let b0 = seq![0x7bu8];
        let p1 = prop_if(f.number, "number", dec_digits(b.slot as nat));
        let p2 = prop_if(f.hash, "hash", quoted(b.hash@));
        let p3 = prop_if(f.parent_number, "parentNumber", dec_digits(b.parent_slot as nat));
        let p4 = prop_if(f.parent_hash, "parentHash", quoted(b.parent_hash@));
        let p5 = prop_if(f.height, "height", opt_u64(b.height));
        let p6 = prop_if(f.timestamp, "timestamp", dec_digits_int(b.timestamp as int));
        vstd::seq_lib::lemma_concat_associative(b0, p1, p2);
        vstd::seq_lib::lemma_concat_associative(b0, p1 + p2, p3);
        vstd::seq_lib::lemma_concat_associative(b0, p1 + p2 + p3, p4);
        vstd::seq_lib::lemma_concat_associative(b0, p1 + p2 + p3 + p4, p5);
        vstd::seq_lib::lemma_concat_associative(b0, p1 + p2 + p3 + p4 + p5, p6);
        assert(json.bytes() == seq![0x7bu8] + block_header_props(*f, *b));
        assert(json.bytes().len() > 0);
    }
    json.end_object();
    json.into_bytes()
}

/// One conditional property with a signed number value.
fn render_prop_i64(json: &mut JsonBuilder, on: bool, name: &str, v: i64)
    requires
        old(json).wf(),
    ensures
        final (json).wf(),
        final (json).bytes() == old(json).bytes() + prop_if(on, name, dec_digits_int(v as int)),
{
    if on {
        json.safe_prop(name);
        json.number_signed(v);
        json.comma();
        proof {
            assert(final (json).bytes() =~= old(json).bytes() + prop_if(
                on,
                name,
                dec_digits_int(v as int),
            ));
        }
    } else {
        proof {
            assert(final (json).bytes() =~= old(json).bytes() + prop_if(
                on,
                name,
                dec_digits_int(v as int),
            ));
        }
    }
}

} // verus!

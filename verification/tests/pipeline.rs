use spray::ingest::mapping::{check_update, map_transaction, render_address_table_lookups};
use spray::ingest::processing::{map_block, Dedupe, Mask};
use spray::ingest::source::{
    AddressTableLookup, BlockMeta, CompiledInstruction, InnerInstruction, InnerInstructionGroup,
    MessageHeader, MissingField, RawMessage, RawTokenBalance, RawTransaction, RetryState,
    SubscriptionUpdate, TransactionInfo, TransactionMeta, TransactionUpdate,
};
use spray::json_builder::JsonBuilder;
use spray::query::util::{parse_hex, render_hex};

fn empty_meta() -> TransactionMeta {
    TransactionMeta {
        err_json: None,
        fee: 5000,
        pre_balances: vec![],
        post_balances: vec![],
        inner_instructions: vec![],
        loaded_writable_addresses: vec![],
        loaded_readonly_addresses: vec![],
        pre_token_balances: vec![],
        post_token_balances: vec![],
        compute_units_consumed: Some(150),
    }
}

fn header() -> MessageHeader {
    MessageHeader {
        num_required_signatures: 1,
        num_readonly_signed_accounts: 0,
        num_readonly_unsigned_accounts: 2,
    }
}

fn basic_update() -> TransactionUpdate {
    TransactionUpdate {
        slot: 100,
        index: 0,
        signatures: vec![vec![1, 2, 3]],
        header: header(),
        account_keys: vec![vec![0, 0], vec![9, 9, 9]],
        recent_blockhash: vec![4, 48, 94, 43, 36, 115, 240, 88],
        instructions: vec![],
        versioned: false,
        address_table_lookups: vec![],
        meta: empty_meta(),
    }
}

#[test]
fn dedupe_redundant_transaction_pair() {
    // two workers hand in the same (slot, index) back to back: one emission
    let mut d = Dedupe::new();
    assert!(d.offer_transaction(100, 0));
    assert!(!d.offer_transaction(100, 0));
    // a different index of the same slot still goes out
    assert!(d.offer_transaction(100, 1));
}

#[test]
fn dedupe_block_advances_watermark() {
    let mut d = Dedupe::new();
    assert!(d.offer_block(10));
    // transactions at or below the block's slot are dropped afterwards
    assert!(!d.offer_transaction(10, 0));
    assert!(d.offer_transaction(11, 0));
    // an older block is dropped
    assert!(!d.offer_block(5));
}

#[test]
fn dedupe_slot_regression_is_dropped() {
    let mut d = Dedupe::new();
    assert!(d.offer_transaction(100, 0));
    assert!(!d.offer_transaction(99, 0));
    assert!(d.offer_transaction(101, 0));
    // going back to 100 after advancing is a drop
    assert!(!d.offer_transaction(100, 7));
}

#[test]
fn mask_grows_to_cover_large_indices() {
    let mut m = Mask::new(2);
    assert!(m.mark(5000));
    assert!(!m.mark(5000));
    m.reset();
    assert!(m.mark(5000));
}

#[test]
fn hex_round_trip_even_length() {
    for bytes in [vec![], vec![0x00], vec![0xff, 0x00, 0x1a], vec![0xde, 0xad, 0xbe, 0xef]] {
        let rendered = render_hex(&bytes);
        assert_eq!(parse_hex(&rendered), Some(bytes));
    }
    assert_eq!(String::from_utf8(render_hex(&[0xde, 0xad])).unwrap(), "0xdead");
}

#[test]
fn parse_hex_rejects_bad_strings() {
    assert_eq!(parse_hex(b"1a2b"), None); // missing prefix
    assert_eq!(parse_hex(b"0x1"), None); // odd length
    assert_eq!(parse_hex(b"0xgg"), None); // not hex digits
    assert_eq!(parse_hex(b"0x"), Some(vec![])); // empty payload parses
    assert_eq!(parse_hex(b"0x1A2b"), Some(vec![0x1a, 0x2b])); // mixed case
}

#[test]
fn map_transaction_instruction_addresses() {
    // two top-level instructions; the first has inners with stack heights
    // 2, 3, 3, 4, 2 -> addresses [0], [0,0], [0,0,0], [0,0,1], [0,0,1,0], [0,1], [1]
    let mk_ins = |pid: u32| CompiledInstruction {
        program_id_index: pid,
        accounts: vec![0],
        data: vec![7],
    };
    let mk_inner = |pid: u32, h: u32| InnerInstruction {
        program_id_index: pid,
        accounts: vec![1],
        data: vec![8],
        stack_height: Some(h),
    };
    let mut u = basic_update();
    u.instructions = vec![mk_ins(0), mk_ins(1)];
    u.meta.inner_instructions = vec![InnerInstructionGroup {
        index: 0,
        instructions: vec![
            mk_inner(0, 2),
            mk_inner(0, 3),
            mk_inner(0, 3),
            mk_inner(0, 4),
            mk_inner(0, 2),
        ],
    }];
    assert!(check_update(&u));
    let tx = map_transaction(u);
    let addrs: Vec<Vec<usize>> = tx
        .instructions
        .iter()
        .map(|i| i.instruction_address.clone())
        .collect();
    assert_eq!(
        addrs,
        vec![
            vec![0],
            vec![0, 0],
            vec![0, 0, 0],
            vec![0, 0, 1],
            vec![0, 0, 1, 0],
            vec![0, 1],
            vec![1],
        ]
    );
}

#[test]
fn map_transaction_fields_and_base58() {
    let mut u = basic_update();
    u.instructions = vec![CompiledInstruction {
        program_id_index: 1,
        accounts: vec![0, 1],
        data: vec![0, 0],
    }];
    u.meta.pre_balances = vec![10, 20];
    u.meta.post_balances = vec![11, 21];
    assert!(check_update(&u));
    let tx = map_transaction(u);
    assert_eq!(tx.slot, 100);
    assert_eq!(tx.transaction_index, 0);
    // base58 of [0, 0] is "11" (each zero byte becomes the first alphabet char)
    assert_eq!(String::from_utf8(tx.instructions[0].data.clone()).unwrap(), "11");
    // base58 of the docs example bytes
    assert_eq!(
        String::from_utf8(tx.transaction.recent_blockhash.clone()).unwrap(),
        "he11owor1d"
    );
    assert_eq!(tx.accounts.len(), 2);
    assert_eq!(tx.transaction.account_keys, 2);
    assert_eq!(tx.transaction.fee, 5000);
    assert_eq!(tx.transaction.compute_units_consumed, Some(150));
    assert!(tx.instructions[0].is_committed);
    // balances zip positionally with the address table
    assert_eq!(tx.balances.len(), 2);
    assert_eq!(tx.balances[0].pre, 10);
    assert_eq!(tx.balances[1].post, 21);
    assert_eq!(tx.balances[0].account, tx.accounts[0]);
    // the signatures fragment is rendered once at mapping time
    assert_eq!(
        String::from_utf8(tx.transaction.signatures.clone()).unwrap(),
        "[\"Ldp\"]"
    );
    assert_eq!(
        String::from_utf8(tx.transaction.loaded_addresses.clone()).unwrap(),
        "{\"writable\":[],\"readonly\":[]}"
    );
}

#[test]
fn map_transaction_token_balance_merge() {
    let raw = |idx: u32, mint: &str, amount: &str| RawTokenBalance {
        account_index: idx,
        mint: mint.as_bytes().to_vec(),
        owner: b"owner".to_vec(),
        program_id: b"prog".to_vec(),
        amount: Some(amount.as_bytes().to_vec()),
        decimals: Some(6),
    };
    let mut u = basic_update();
    u.meta.pre_token_balances = vec![raw(0, "mintA", "100")];
    u.meta.post_token_balances = vec![raw(0, "mintA", "150"), raw(1, "mintB", "7")];
    assert!(check_update(&u));
    let tx = map_transaction(u);
    assert_eq!(tx.token_balances.len(), 2);
    let first = &tx.token_balances[0];
    assert_eq!(first.pre_amount.as_deref(), Some(b"100".as_ref()));
    assert_eq!(first.post_amount.as_deref(), Some(b"150".as_ref()));
    assert_eq!(first.pre_mint.as_deref(), Some(b"mintA".as_ref()));
    let second = &tx.token_balances[1];
    assert_eq!(second.pre_amount, None);
    assert_eq!(second.pre_mint, None);
    assert_eq!(second.post_amount.as_deref(), Some(b"7".as_ref()));
    assert_eq!(second.post_mint.as_deref(), Some(b"mintB".as_ref()));
}

#[test]
fn check_update_rejects_bad_shapes() {
    // a stack height that jumps by more than one
    let mut u = basic_update();
    u.instructions = vec![CompiledInstruction {
        program_id_index: 0,
        accounts: vec![],
        data: vec![],
    }];
    u.meta.inner_instructions = vec![InnerInstructionGroup {
        index: 0,
        instructions: vec![InnerInstruction {
            program_id_index: 0,
            accounts: vec![],
            data: vec![],
            stack_height: Some(4),
        }],
    }];
    assert!(!check_update(&u));

    // an inner group pointing past the top-level instructions
    let mut u = basic_update();
    u.meta.inner_instructions = vec![InnerInstructionGroup {
        index: 3,
        instructions: vec![],
    }];
    assert!(!check_update(&u));

    // a program id index outside the merged address table
    let mut u = basic_update();
    u.instructions = vec![CompiledInstruction {
        program_id_index: 9,
        accounts: vec![],
        data: vec![],
    }];
    assert!(!check_update(&u));
}

#[test]
fn map_block_defaults_missing_timestamp_to_zero() {
    let b = BlockMeta {
        slot: 42,
        blockhash: b"hash42".to_vec(),
        parent_slot: 41,
        parent_blockhash: b"hash41".to_vec(),
        block_height: Some(40),
        block_time: None,
    };
    let data = map_block(&b);
    assert_eq!(data.slot, 42);
    assert_eq!(data.timestamp, 0);
    assert_eq!(data.height, Some(40));
    let b2 = BlockMeta { block_time: Some(1700000000), ..b };
    assert_eq!(map_block(&b2).timestamp, 1700000000);
}

#[test]
fn from_subscription_update_reports_first_missing_field() {
    let full = || SubscriptionUpdate {
        slot: 5,
        transaction: Some(TransactionInfo {
            index: 3,
            transaction: Some(RawTransaction {
                signatures: vec![vec![1]],
                message: Some(RawMessage {
                    header: Some(header()),
                    account_keys: vec![vec![1]],
                    recent_blockhash: vec![2],
                    instructions: vec![],
                    versioned: false,
                    address_table_lookups: vec![],
                }),
            }),
            meta: Some(empty_meta()),
        }),
    };

    let ok = TransactionUpdate::from_subscription_update(full()).unwrap();
    assert_eq!(ok.slot, 5);
    assert_eq!(ok.index, 3);

    let mut u = full();
    u.transaction = None;
    let e = TransactionUpdate::from_subscription_update(u).unwrap_err();
    assert_eq!(e, MissingField::Transaction);
    assert_eq!(e.path(), ".transaction");

    let mut u = full();
    u.transaction.as_mut().unwrap().transaction = None;
    let e = TransactionUpdate::from_subscription_update(u).unwrap_err();
    assert_eq!(e, MissingField::InnerTransaction);
    assert_eq!(e.path(), ".transaction.transaction");

    let mut u = full();
    u.transaction.as_mut().unwrap().transaction.as_mut().unwrap().message = None;
    let e = TransactionUpdate::from_subscription_update(u).unwrap_err();
    assert_eq!(e, MissingField::Message);
    assert_eq!(e.path(), ".transaction.transaction.message");

    let mut u = full();
    u.transaction
        .as_mut()
        .unwrap()
        .transaction
        .as_mut()
        .unwrap()
        .message
        .as_mut()
        .unwrap()
        .header = None;
    let e = TransactionUpdate::from_subscription_update(u).unwrap_err();
    assert_eq!(e, MissingField::Header);
    assert_eq!(e.path(), ".transaction.transaction.message.header");

    let mut u = full();
    u.transaction.as_mut().unwrap().meta = None;
    let e = TransactionUpdate::from_subscription_update(u).unwrap_err();
    assert_eq!(e, MissingField::Meta);
    assert_eq!(e.path(), ".transaction.meta");
}

#[test]
fn retry_policy_backoff_schedule() {
    let mut r = RetryState::new();
    // a failure during the very first session, with no update seen, is fatal
    assert_eq!(r.on_session_failure(false), None);
    // afterwards failures back off along the schedule, saturating at 5000
    assert_eq!(r.on_session_failure(false), Some(200));
    assert_eq!(r.on_session_failure(false), Some(500));
    assert_eq!(r.on_session_failure(false), Some(1000));
    assert_eq!(r.on_session_failure(false), Some(2000));
    assert_eq!(r.on_session_failure(false), Some(5000));
    assert_eq!(r.on_session_failure(false), Some(5000));
    // a session that saw at least one update resets the count to one
    assert_eq!(r.on_session_failure(true), Some(0));
    assert_eq!(r.on_session_failure(false), Some(200));

    // a first session that did receive updates is not fatal
    let mut r2 = RetryState::new();
    assert_eq!(r2.on_session_failure(true), Some(0));
}

#[test]
fn json_builder_primitives() {
    let mut json = JsonBuilder::new();
    json.begin_object();
    json.safe_prop("a");
    json.number(7);
    json.comma();
    json.safe_prop("b");
    json.number_str(18446744073709551615);
    json.comma();
    json.safe_prop("c");
    json.number_signed(-12);
    json.comma();
    json.safe_prop("d");
    json.base58(&[4, 48, 94, 43, 36, 115, 240, 88]);
    json.comma();
    json.safe_prop("e");
    json.str(b"q\"w\\e\n");
    json.comma();
    json.end_object();
    let s = json.into_string();
    assert_eq!(
        s,
        "{\"a\":7,\"b\":\"18446744073709551615\",\"c\":-12,\"d\":\"he11owor1d\",\"e\":\"q\\\"w\\\\e\\n\"}"
    );
    // the trailing-comma close never leaves `,}` or `,]`
    assert!(!s.contains(",}"));
    assert!(!s.contains(",]"));
    let v: serde_json::Value = serde_json::from_str(&s).unwrap();
    assert_eq!(v["a"], serde_json::Value::from(7));
}

#[test]
fn json_builder_empty_containers_close_cleanly() {
    let mut json = JsonBuilder::new();
    json.begin_array();
    json.end_array();
    assert_eq!(json.into_string(), "[]");
    let mut json = JsonBuilder::new();
    json.begin_object();
    json.end_object();
    assert_eq!(json.into_string(), "{}");
}

#[test]
fn address_table_lookups_fragment_is_valid_json() {
    let lookups = vec![AddressTableLookup {
        account_key: vec![1, 2, 3],
        writable_indexes: vec![0, 2],
        readonly_indexes: vec![1],
    }];
    let frag = render_address_table_lookups(&lookups);
    let s = String::from_utf8(frag).unwrap();
    assert_eq!(s, "[{\"accountKey\":\"Ldp\",\"readonlyIndexes\":[1],\"writableIndexes\":[0,2]}]");
    let _: serde_json::Value = serde_json::from_str(&s).unwrap();
}

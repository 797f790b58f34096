use spray::data::{
    Balance, BlockData, DataMessage, Instruction, TokenBalance, Transaction, TransactionData,
    TransactionVersion,
};
use spray::query::filter::Filter;
use spray::query::model::{
    BalanceRequest, FieldSelection, InstructionRequest, QueryError, SolanaQuery,
    TokenBalanceRequest, TransactionRequest,
};
use spray::query::render::{render_block_message, render_transaction_message};
use spray::server::rpc::SubscriptionState;

fn accounts() -> Vec<Vec<u8>> {
    vec![b"payer".to_vec(), b"progA".to_vec(), b"progB".to_vec(), b"other".to_vec()]
}

fn instruction(address: Vec<usize>, program_id: u8, accts: Vec<u8>, data: Vec<u8>) -> Instruction {
    Instruction {
        instruction_address: address,
        program_id,
        accounts: accts,
        data: b"data58".to_vec(),
        binary_data: data,
        is_committed: true,
    }
}

/// A transaction with instructions at addresses [0], [0,0], [0,0,0], [0,1], [1].
fn call_tree_tx() -> TransactionData {
    TransactionData {
        slot: 100,
        transaction_index: 0,
        transaction: Transaction {
            version: TransactionVersion::Legacy,
            account_keys: 4,
            address_table_lookups: b"[]".to_vec(),
            num_readonly_signed_accounts: 0,
            num_readonly_unsigned_accounts: 1,
            num_required_signatures: 1,
            recent_blockhash: b"hash".to_vec(),
            signatures: b"[\"sig\"]".to_vec(),
            err: None,
            compute_units_consumed: Some(7),
            fee: 5000,
            loaded_addresses: b"{\"writable\":[],\"readonly\":[]}".to_vec(),
        },
        instructions: vec![
            instruction(vec![0], 1, vec![0, 3], vec![0xde, 0xad, 0xbe, 0xef]),
            instruction(vec![0, 0], 2, vec![0], vec![0x01]),
            instruction(vec![0, 0, 0], 3, vec![3], vec![]),
            instruction(vec![0, 1], 1, vec![1], vec![0x02]),
            instruction(vec![1], 3, vec![2], vec![0x03]),
        ],
        balances: vec![
            Balance { account: b"payer".to_vec(), pre: 100, post: 95 },
            Balance { account: b"other".to_vec(), pre: 10, post: 15 },
        ],
        token_balances: vec![TokenBalance {
            account: b"other".to_vec(),
            pre_mint: Some(b"mint1".to_vec()),
            post_mint: Some(b"mint1".to_vec()),
            pre_decimals: Some(6),
            post_decimals: Some(6),
            pre_program_id: None,
            post_program_id: None,
            pre_owner: None,
            post_owner: None,
            pre_amount: Some(b"100".to_vec()),
            post_amount: Some(b"90".to_vec()),
        }],
        accounts: accounts(),
    }
}

fn empty_query() -> SolanaQuery {
    SolanaQuery {
        fields: FieldSelection::default(),
        include_all_blocks: false,
        transactions: vec![],
        instructions: vec![],
        balances: vec![],
        token_balances: vec![],
    }
}

fn selected_instructions(filter: &Filter, tx: &TransactionData) -> Vec<usize> {
    let sel = filter.eval(tx);
    sel.instructions.selected_indices()
}

#[test]
fn inner_closure_selects_subtree() {
    // match at [0,0] with inner_instructions=true selects {1, 2}
    let mut q = empty_query();
    q.instructions = vec![InstructionRequest {
        program_id: Some(vec![b"progB".to_vec()]),
        a0: Some(vec![b"payer".to_vec()]),
        inner_instructions: true,
        ..InstructionRequest::default()
    }];
    let filter = Filter::compile(q);
    assert_eq!(selected_instructions(&filter, &call_tree_tx()), vec![1, 2]);
}

#[test]
fn parent_closure_selects_ancestors() {
    // match at [0,0,0] with parent_instructions=true selects {0, 1, 2}
    let mut q = empty_query();
    q.instructions = vec![InstructionRequest {
        program_id: Some(vec![b"other".to_vec()]),
        a0: Some(vec![b"other".to_vec()]),
        parent_instructions: true,
        ..InstructionRequest::default()
    }];
    let filter = Filter::compile(q);
    assert_eq!(selected_instructions(&filter, &call_tree_tx()), vec![0, 1, 2]);
}

#[test]
fn transaction_request_pulls_every_instruction() {
    // fee_payer matches accounts[0] and instructions=true: whole-kind selection
    let mut q = empty_query();
    q.transactions = vec![TransactionRequest {
        fee_payer: Some(vec![b"payer".to_vec()]),
        instructions: true,
        ..TransactionRequest::default()
    }];
    let filter = Filter::compile(q);
    let sel = filter.eval(&call_tree_tx());
    assert!(sel.transaction);
    assert!(sel.instructions.includes_all());
    assert_eq!(sel.instructions.selected_indices(), vec![0, 1, 2, 3, 4]);
    assert!(!sel.is_empty());
}

#[test]
fn empty_predicate_list_compiles_request_away() {
    let mut q = empty_query();
    q.instructions = vec![InstructionRequest {
        program_id: Some(vec![]),
        ..InstructionRequest::default()
    }];
    let filter = Filter::compile(q);
    let sel = filter.eval(&call_tree_tx());
    assert!(sel.is_empty());

    let mut q = empty_query();
    q.transactions = vec![TransactionRequest {
        fee_payer: Some(vec![]),
        instructions: true,
        ..TransactionRequest::default()
    }];
    let filter = Filter::compile(q);
    let sel = filter.eval(&call_tree_tx());
    assert!(sel.is_empty());
}

#[test]
fn discriminator_prefix_matching() {
    // 0xdead is a prefix of the first instruction's data
    let mut q = empty_query();
    q.instructions = vec![InstructionRequest {
        discriminator: Some(vec![b"0xdead".to_vec()]),
        ..InstructionRequest::default()
    }];
    let filter = Filter::compile(q);
    assert_eq!(selected_instructions(&filter, &call_tree_tx()), vec![0]);

    // a longer prefix does not match
    let mut q = empty_query();
    q.instructions = vec![InstructionRequest {
        discriminator: Some(vec![b"0xdeadbeef01".to_vec()]),
        ..InstructionRequest::default()
    }];
    let filter = Filter::compile(q);
    assert_eq!(selected_instructions(&filter, &call_tree_tx()), Vec::<usize>::new());
}

#[test]
fn discriminator_with_empty_prefix_disables_predicate() {
    // "0x" parses to the empty prefix: the predicate is dropped entirely and
    // every instruction matches
    let mut q = empty_query();
    q.instructions = vec![InstructionRequest {
        discriminator: Some(vec![b"0x".to_vec(), b"0xdead".to_vec()]),
        ..InstructionRequest::default()
    }];
    let filter = Filter::compile(q);
    assert_eq!(selected_instructions(&filter, &call_tree_tx()), vec![0, 1, 2, 3, 4]);
}

#[test]
fn discriminator_with_no_parseable_string_compiles_away() {
    let mut q = empty_query();
    q.instructions = vec![InstructionRequest {
        discriminator: Some(vec![b"zz".to_vec()]),
        ..InstructionRequest::default()
    }];
    let filter = Filter::compile(q);
    assert!(filter.eval(&call_tree_tx()).is_empty());
}

#[test]
fn positional_account_respects_bounds() {
    // a3 must not match instructions with fewer than 4 accounts; instruction 0
    // has only 2
    let mut q = empty_query();
    q.instructions = vec![InstructionRequest {
        a3: Some(vec![b"payer".to_vec()]),
        ..InstructionRequest::default()
    }];
    let filter = Filter::compile(q);
    assert_eq!(selected_instructions(&filter, &call_tree_tx()), Vec::<usize>::new());

    // a1 does match instruction 0 (accounts[3] = "other" at position 1)
    let mut q = empty_query();
    q.instructions = vec![InstructionRequest {
        a1: Some(vec![b"other".to_vec()]),
        ..InstructionRequest::default()
    }];
    let filter = Filter::compile(q);
    assert_eq!(selected_instructions(&filter, &call_tree_tx()), vec![0]);
}

#[test]
fn balance_and_token_balance_requests() {
    let mut q = empty_query();
    q.balances = vec![BalanceRequest {
        account: Some(vec![b"other".to_vec()]),
        transaction: true,
        transaction_instructions: false,
    }];
    q.token_balances = vec![TokenBalanceRequest {
        pre_mint: Some(vec![b"mint1".to_vec()]),
        ..TokenBalanceRequest::default()
    }];
    let filter = Filter::compile(q);
    let sel = filter.eval(&call_tree_tx());
    assert!(sel.transaction);
    assert_eq!(sel.balances.selected_indices(), vec![1]);
    assert_eq!(sel.token_balances.selected_indices(), vec![0]);
    assert_eq!(sel.instructions.selected_indices(), Vec::<usize>::new());
}

#[test]
fn filter_eval_is_deterministic() {
    // running the filter twice on the same transaction yields the same set
    let mut q = empty_query();
    q.instructions = vec![InstructionRequest {
        program_id: Some(vec![b"progB".to_vec()]),
        inner_instructions: true,
        transaction: true,
        ..InstructionRequest::default()
    }];
    let filter = Filter::compile(q);
    let tx = call_tree_tx();
    let s1 = filter.eval(&tx);
    let s2 = filter.eval(&tx);
    assert_eq!(s1.transaction, s2.transaction);
    assert_eq!(s1.instructions.selected_indices(), s2.instructions.selected_indices());
    assert_eq!(s1.balances.selected_indices(), s2.balances.selected_indices());
    assert_eq!(s1.token_balances.selected_indices(), s2.token_balances.selected_indices());
    assert_eq!(s1.is_empty(), s2.is_empty());
}

#[test]
fn query_validation_caps_item_requests() {
    let mut q = empty_query();
    q.instructions = vec![InstructionRequest::default(); 60];
    q.balances = vec![BalanceRequest::default(); 40];
    assert!(q.validate().is_ok());
    q.transactions = vec![TransactionRequest::default()];
    assert_eq!(q.validate().unwrap_err(), QueryError::TooManyItems);
}

fn all_fields() -> FieldSelection {
    let mut f = FieldSelection::default();
    f.block.number = true;
    f.block.hash = true;
    f.block.parent_number = true;
    f.block.parent_hash = true;
    f.block.height = true;
    f.block.timestamp = true;
    f.transaction.transaction_index = true;
    f.transaction.version = true;
    f.transaction.account_keys = true;
    f.transaction.address_table_lookups = true;
    f.transaction.num_readonly_signed_accounts = true;
    f.transaction.num_readonly_unsigned_accounts = true;
    f.transaction.num_required_signatures = true;
    f.transaction.recent_blockhash = true;
    f.transaction.signatures = true;
    f.transaction.err = true;
    f.transaction.fee = true;
    f.transaction.compute_units_consumed = true;
    f.transaction.loaded_addresses = true;
    f.transaction.fee_payer = true;
    f.instruction.transaction_index = true;
    f.instruction.instruction_address = true;
    f.instruction.program_id = true;
    f.instruction.accounts = true;
    f.instruction.data = true;
    f.instruction.d1 = true;
    f.instruction.d2 = true;
    f.instruction.d4 = true;
    f.instruction.d8 = true;
    f.instruction.error = true;
    f.instruction.compute_units_consumed = true;
    f.instruction.is_committed = true;
    f.balance.transaction_index = true;
    f.balance.account = true;
    f.balance.pre = true;
    f.balance.post = true;
    f.token_balance.account = true;
    f.token_balance.pre_mint = true;
    f.token_balance.post_mint = true;
    f.token_balance.pre_decimals = true;
    f.token_balance.post_decimals = true;
    f.token_balance.pre_amount = true;
    f.token_balance.post_amount = true;
    f
}

#[test]
fn rendered_messages_parse_as_json() {
    let fields = all_fields();
    let tx = call_tree_tx();
    let mut q = empty_query();
    q.transactions = vec![TransactionRequest {
        fee_payer: Some(vec![b"payer".to_vec()]),
        instructions: true,
        balances: true,
        token_balances: true,
        ..TransactionRequest::default()
    }];
    let filter = Filter::compile(q);
    let sel = filter.eval(&tx);
    let msg = render_transaction_message(&fields, &tx, &sel);
    let v: serde_json::Value = serde_json::from_str(&msg).unwrap();
    assert_eq!(v["type"], "transaction");
    assert_eq!(v["slot"], 100);
    assert_eq!(v["transaction"]["fee"], "5000");
    assert_eq!(v["transaction"]["version"], "legacy");
    assert_eq!(v["instructions"].as_array().unwrap().len(), 5);
    assert_eq!(v["instructions"][0]["d2"], "0xdead");
    assert_eq!(v["instructions"][0]["d4"], "0xdeadbeef");
    assert_eq!(v["instructions"][0]["d8"], serde_json::Value::Null);
    assert_eq!(v["balances"].as_array().unwrap().len(), 2);
    assert_eq!(v["balances"][0]["pre"], "100");
    assert_eq!(v["tokenBalances"][0]["preAmount"], "100");
    // the trailing-comma discipline never leaves `,}` or `,]`
    assert!(!msg.contains(",}"));
    assert!(!msg.contains(",]"));

    let block = BlockData {
        slot: 10,
        hash: b"hashA".to_vec(),
        parent_slot: 9,
        parent_hash: b"hashB".to_vec(),
        height: None,
        timestamp: -5,
    };
    let bmsg = render_block_message(&fields.block, &block);
    let bv: serde_json::Value = serde_json::from_str(&bmsg).unwrap();
    assert_eq!(bv["type"], "block");
    assert_eq!(bv["header"]["hash"], "hashA");
    assert_eq!(bv["header"]["height"], serde_json::Value::Null);
    assert_eq!(bv["header"]["timestamp"], -5);
    assert!(!bmsg.contains(",}"));
    assert!(!bmsg.contains(",]"));
}

#[test]
fn renderer_omits_section_iff_selection_empty() {
    let fields = all_fields();
    let tx = call_tree_tx();
    // only balances selected: no instructions or tokenBalances section
    let mut q = empty_query();
    q.balances = vec![BalanceRequest {
        account: Some(vec![b"payer".to_vec()]),
        transaction: false,
        transaction_instructions: false,
    }];
    let filter = Filter::compile(q);
    let sel = filter.eval(&tx);
    let msg = render_transaction_message(&fields, &tx, &sel);
    let v: serde_json::Value = serde_json::from_str(&msg).unwrap();
    assert!(v.get("balances").is_some());
    assert!(v.get("instructions").is_none());
    assert!(v.get("tokenBalances").is_none());
    assert!(v.get("transaction").is_none());
}

#[test]
fn empty_selection_sends_no_notification() {
    // SelectedItems::is_empty implies the subscription sends nothing
    let q = empty_query();
    let mut state = SubscriptionState::new(q);
    let msg = DataMessage::Transaction(call_tree_tx());
    assert_eq!(state.emit(&msg), None);
}

#[test]
fn block_heartbeat_gap() {
    // include_all_blocks = false; a non-empty transaction at slot 10, then
    // blocks 10..=17, with a non-empty transaction at 16 before block 16:
    // blocks 10, 15 and 16 go out; 11..14 and 17 are skipped
    let mut q = empty_query();
    q.transactions = vec![TransactionRequest {
        fee_payer: Some(vec![b"payer".to_vec()]),
        ..TransactionRequest::default()
    }];
    let mut state = SubscriptionState::new(q);
    let block = |slot: u64| {
        DataMessage::Block(BlockData {
            slot,
            hash: b"h".to_vec(),
            parent_slot: slot.saturating_sub(1),
            parent_hash: b"p".to_vec(),
            height: None,
            timestamp: 0,
        })
    };
    let tx_at = |slot: u64| {
        let mut t = call_tree_tx();
        t.slot = slot;
        DataMessage::Transaction(t)
    };

    assert!(state.emit(&tx_at(10)).is_some());
    assert!(state.emit(&block(10)).is_some()); // last non-empty slot
    assert!(state.emit(&block(11)).is_none());
    assert!(state.emit(&block(12)).is_none());
    assert!(state.emit(&block(13)).is_none());
    assert!(state.emit(&block(14)).is_none());
    assert!(state.emit(&block(15)).is_some()); // five past the last emitted
    assert!(state.emit(&tx_at(16)).is_some());
    assert!(state.emit(&block(16)).is_some()); // emit-on-first for slot 16
    assert!(state.emit(&block(17)).is_none());
}

#[test]
fn include_all_blocks_streams_every_block() {
    let mut q = empty_query();
    q.include_all_blocks = true;
    let mut state = SubscriptionState::new(q);
    for slot in 1..5u64 {
        let b = DataMessage::Block(BlockData {
            slot,
            hash: b"h".to_vec(),
            parent_slot: slot - 1,
            parent_hash: b"p".to_vec(),
            height: Some(slot),
            timestamp: 1,
        });
        assert!(state.emit(&b).is_some());
    }
}

#[test]
fn lagged_subscriber_resumes_with_next_event() {
    // a slow subscriber misses messages, observes a lag marker, then keeps
    // receiving without terminating
    let (sender, mut rx) = tokio::sync::broadcast::channel::<u64>(2);
    for slot in 0..52u64 {
        sender.send(slot).unwrap();
    }
    match rx.try_recv() {
        Err(tokio::sync::broadcast::error::TryRecvError::Lagged(n)) => {
            assert_eq!(n, 50);
        },
        other => panic!("expected a lag marker, got {:?}", other),
    }
    // the subscription resumes at the head of the channel
    assert_eq!(rx.try_recv().unwrap(), 50);
    assert_eq!(rx.try_recv().unwrap(), 51);

    // and the resumed event still flows through the subscription state
    let mut q = empty_query();
    q.transactions = vec![TransactionRequest {
        fee_payer: Some(vec![b"payer".to_vec()]),
        ..TransactionRequest::default()
    }];
    let mut state = SubscriptionState::new(q);
    assert!(state.emit(&DataMessage::Transaction(call_tree_tx())).is_some());
}

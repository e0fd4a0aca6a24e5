use operations_ext::batch::{ApiTxBatch, BatchStatus};
use operations_ext::enrich::enrich_payload;
use operations_ext::records::{
    AggregatedActionType, AggregatedOperation, BatchRecord, BlockRecord, DepositOp,
    FilterIndexEntry, FullExitOp, MempoolTxRecord, PriorityOpRecord, TokenInfo, TokenRef,
    TxPayload, TxRecord, WithdrawalTxRecord, MIN_NFT_TOKEN_ID,
};
use operations_ext::schema::{OperationsExtSchema, StorageModel};
use operations_ext::status::{resolve_full_status, TxFinalityState, TxInBlockStatus};
use operations_ext::web3::StoreError;

fn addr(b: u8) -> Vec<u8> {
    vec![b; 20]
}

fn hash(b: u8) -> Vec<u8> {
    vec![b; 32]
}

fn transfer_payload(from: u8, to: u8, token: u32, amount: &str, nonce: i64) -> TxPayload {
    TxPayload::Transfer {
        from: format!("0x{:02x}", from),
        to: format!("0x{:02x}", to),
        token: TokenRef::Id(token),
        amount: amount.to_string(),
        fee: Some("100".to_string()),
        nonce,
    }
}

fn withdraw_payload(from: u8, to: u8, token: u32, amount: &str, nonce: i64) -> TxPayload {
    TxPayload::Withdraw {
        from: format!("0x{:02x}", from),
        to: format!("0x{:02x}", to),
        token: TokenRef::Id(token),
        amount: amount.to_string(),
        fee: Some("70".to_string()),
        nonce,
    }
}

fn deposit_payload(from: u8, to: u8, token: u32, amount: &str) -> TxPayload {
    TxPayload::Deposit {
        deposit: DepositOp {
            from: format!("0x{:02x}", from),
            to: format!("0x{:02x}", to),
            token: TokenRef::Id(token),
            amount: amount.to_string(),
        },
    }
}

fn full_exit_payload(account: u8, token: u32) -> TxPayload {
    TxPayload::FullExit {
        full_exit: FullExitOp {
            eth_address: format!("0x{:02x}", account),
            token: TokenRef::Id(token),
            withdraw_amount: Some("55".to_string()),
        },
    }
}

fn tx_record(
    h: u8,
    block: u32,
    index: u32,
    created: i64,
    success: bool,
    payload: TxPayload,
    from: u8,
    to: u8,
) -> TxRecord {
    TxRecord {
        tx_hash: hash(h),
        block_number: block,
        block_index: index,
        payload,
        success,
        fail_reason: if success { None } else { Some("not enough balance".to_string()) },
        created_at: created,
        batch_id: None,
        from_account: addr(from),
        to_account: addr(to),
        primary_account_address: addr(from),
        nonce: 1,
        eth_sign_data: None,
    }
}

fn pop_record(
    h: u8,
    eth_h: u8,
    block: u32,
    index: u32,
    serial: i64,
    created: i64,
    payload: TxPayload,
    from: u8,
    to: u8,
) -> PriorityOpRecord {
    PriorityOpRecord {
        tx_hash: hash(h),
        eth_hash: hash(eth_h),
        block_number: block,
        block_index: index,
        serial_id: serial,
        eth_block: 900,
        payload,
        from_account: addr(from),
        to_account: addr(to),
        created_at: created,
    }
}

fn agg_op(
    action: AggregatedActionType,
    from_block: u32,
    to_block: u32,
    confirmed: bool,
    created: i64,
) -> AggregatedOperation {
    AggregatedOperation { action, from_block, to_block, confirmed, created_at: created }
}

fn filter_entry(a: u8, token: i32, h: u8) -> FilterIndexEntry {
    FilterIndexEntry { address: addr(a), token, tx_hash: hash(h) }
}

fn empty_store() -> StorageModel {
    StorageModel {
        executed_txs: Vec::new(),
        priority_ops: Vec::new(),
        mempool_txs: Vec::new(),
        aggregated_ops: Vec::new(),
        tx_filters: Vec::new(),
        batches: Vec::new(),
        pending_batches: Vec::new(),
        blocks: Vec::new(),
        tokens: Vec::new(),
        withdrawal_txs: Vec::new(),
    }
}

fn schema_of(store: StorageModel) -> OperationsExtSchema {
    assert!(store.wf_check());
    OperationsExtSchema(store)
}

#[test]
fn tx_receipt_hex_encodes_the_hash() {
    let mut store = empty_store();
    store.executed_txs.push(tx_record(0xab, 3, 0, 1_000, true, transfer_payload(1, 2, 0, "7", 4), 1, 2));
    let schema = schema_of(store);
    let receipt = schema.tx_receipt(&hash(0xab)).expect("receipt");
    // two lowercase digits per byte, so not the raw input handed back
    assert_eq!(receipt.tx_hash, "ab".repeat(32));
    assert_eq!(receipt.block_number, 3);
    assert!(receipt.success);
    assert!(!receipt.verified);
    assert_eq!(receipt.fail_reason, None);
    assert!(schema.tx_receipt(&hash(0xcd)).is_none());
}

#[test]
fn tx_receipt_verified_follows_execute_range() {
    let mut store = empty_store();
    store.executed_txs.push(tx_record(0xab, 10, 0, 1_000, true, transfer_payload(1, 2, 0, "7", 4), 1, 2));
    store.aggregated_ops.push(agg_op(AggregatedActionType::ExecuteBlocks, 5, 12, true, 2_000));
    let schema = schema_of(store);
    let receipt = schema.tx_receipt(&hash(0xab)).expect("receipt");
    assert!(receipt.verified);
}

#[test]
fn finalized_when_confirmed_execute_range_covers_block() {
    // a successful transaction at block 10, latest confirmed execute range [5,12]
    let ops = vec![agg_op(AggregatedActionType::ExecuteBlocks, 5, 12, true, 2_000)];
    assert_eq!(resolve_full_status(&ops, true, 10), TxFinalityState::Finalized);
}

#[test]
fn committed_or_executed_before_execute_confirmation() {
    // the same transaction before any execute confirmation covering block 10
    let commit_only = vec![agg_op(AggregatedActionType::CommitBlocks, 5, 12, true, 1_500)];
    assert_eq!(resolve_full_status(&commit_only, true, 10), TxFinalityState::Committed);
    let no_ops: Vec<AggregatedOperation> = Vec::new();
    assert_eq!(resolve_full_status(&no_ops, true, 10), TxFinalityState::Executed);
    // an unconfirmed execute range does not finalize
    let unconfirmed = vec![agg_op(AggregatedActionType::ExecuteBlocks, 5, 12, false, 1_500)];
    assert_eq!(resolve_full_status(&unconfirmed, true, 10), TxFinalityState::Executed);
}

#[test]
fn rejection_beats_finalization() {
    let ops = vec![
        agg_op(AggregatedActionType::CommitBlocks, 1, 20, true, 1_000),
        agg_op(AggregatedActionType::ExecuteBlocks, 1, 20, true, 2_000),
    ];
    assert_eq!(resolve_full_status(&ops, false, 10), TxFinalityState::Rejected);
}

#[test]
fn status_stays_finalized_as_ranges_accumulate() {
    let mut ops = vec![agg_op(AggregatedActionType::ExecuteBlocks, 5, 12, true, 2_000)];
    assert_eq!(resolve_full_status(&ops, true, 10), TxFinalityState::Finalized);
    // the confirmation store only grows; the observation never regresses
    ops.push(agg_op(AggregatedActionType::CommitBlocks, 13, 20, true, 3_000));
    ops.push(agg_op(AggregatedActionType::ExecuteBlocks, 13, 20, false, 3_500));
    assert_eq!(resolve_full_status(&ops, true, 10), TxFinalityState::Finalized);
}

#[test]
fn receipt_for_any_hash_prefers_executed_then_priority_then_mempool() {
    let mut store = empty_store();
    store.executed_txs.push(tx_record(0x11, 4, 0, 1_000, false, transfer_payload(1, 2, 0, "7", 4), 1, 2));
    store.priority_ops.push(pop_record(0x22, 0x33, 5, 0, 9, 1_100, deposit_payload(3, 4, 0, "50"), 3, 4));
    store.mempool_txs.push(MempoolTxRecord {
        tx_hash: hash(0x44),
        payload: transfer_payload(5, 6, 0, "1", 0),
        created_at: 1_200,
        batch_id: None,
        eth_sign_data: None,
    });
    let schema = schema_of(store);

    let r1 = schema.tx_receipt_api_v02(&hash(0x11)).expect("executed");
    assert_eq!(r1.status, TxInBlockStatus::Rejected);
    assert_eq!(r1.block_number, Some(4));
    assert_eq!(r1.fail_reason, Some("not enough balance".to_string()));

    // the priority operation answers to its L1 hash as well
    let r2 = schema.tx_receipt_api_v02(&hash(0x33)).expect("priority");
    assert_eq!(r2.status, TxInBlockStatus::Committed);
    assert_eq!(r2.serial_id, Some(9));
    assert_eq!(r2.eth_block, Some(900));
    assert_eq!(r2.tx_hash, hash(0x22));

    let r3 = schema.tx_receipt_api_v02(&hash(0x44)).expect("queued");
    assert_eq!(r3.status, TxInBlockStatus::Queued);
    assert_eq!(r3.block_number, None);

    assert!(schema.tx_receipt_api_v02(&hash(0x55)).is_none());
}

#[test]
fn tx_data_reports_withdrawal_hash_for_withdrawing_kinds() {
    let mut store = empty_store();
    store.executed_txs.push(tx_record(0x11, 4, 0, 1_000, true, withdraw_payload(1, 2, 0, "7", 4), 1, 2));
    store.executed_txs.push(tx_record(0x12, 4, 1, 1_000, true, transfer_payload(1, 2, 0, "7", 5), 1, 2));
    store.withdrawal_txs.push(WithdrawalTxRecord { tx_hash: hash(0x11), eth_tx_hash: hash(0xee) });
    store.withdrawal_txs.push(WithdrawalTxRecord { tx_hash: hash(0x12), eth_tx_hash: hash(0xef) });
    let schema = schema_of(store);
    let d1 = schema.tx_data_api_v02(&hash(0x11)).expect("withdraw data");
    assert_eq!(d1.complete_withdrawals_tx_hash, Some(hash(0xee)));
    // a transfer never reports one, even when the table holds its hash
    let d2 = schema.tx_data_api_v02(&hash(0x12)).expect("transfer data");
    assert_eq!(d2.complete_withdrawals_tx_hash, None);
    assert_eq!(d2.block_number, Some(4));
    assert_eq!(d2.status, TxInBlockStatus::Committed);
}

#[test]
fn priority_op_receipt_by_serial_id() {
    let mut store = empty_store();
    store.priority_ops.push(pop_record(0x22, 0x33, 5, 0, 9, 1_100, deposit_payload(3, 4, 0, "50"), 3, 4));
    store.aggregated_ops.push(agg_op(AggregatedActionType::ExecuteBlocks, 1, 6, true, 2_000));
    let schema = schema_of(store);
    let r = schema.get_priority_op_receipt(9);
    assert!(r.committed);
    assert!(r.verified);
    let missing = schema.get_priority_op_receipt(10);
    assert!(!missing.committed);
    assert!(!missing.verified);
}

#[test]
fn by_hash_summary_reads_transfer_fields() {
    let mut store = empty_store();
    store.executed_txs.push(tx_record(0x11, 4, 0, 0, true, transfer_payload(1, 2, 5, "700", 42), 1, 2));
    let schema = schema_of(store);
    let resp = schema.get_tx_by_hash(&hash(0x11)).expect("summary");
    assert_eq!(resp.tx_type, "Transfer");
    assert_eq!(resp.from, "0x01");
    assert_eq!(resp.to, "0x02");
    assert_eq!(resp.token, 5);
    assert_eq!(resp.amount, "700");
    assert_eq!(resp.fee, Some("100".to_string()));
    assert_eq!(resp.block_number, 4);
    assert_eq!(resp.nonce, 42);
    // the Unix epoch, rendered by the calendar formatter
    assert_eq!(resp.created_at, "1970-01-01T00:00:00.000000");
}

#[test]
fn by_hash_summary_formats_a_modern_timestamp() {
    let mut store = empty_store();
    store.executed_txs.push(tx_record(
        0x11,
        4,
        0,
        1_600_000_000_123_456,
        true,
        transfer_payload(1, 2, 5, "700", 42),
        1,
        2,
    ));
    let schema = schema_of(store);
    let resp = schema.find_tx_by_hash(&hash(0x11)).expect("summary");
    assert_eq!(resp.created_at, "2020-09-13T12:26:40.123456");
}

#[test]
fn by_hash_summary_falls_back_to_priority_op_by_l1_hash() {
    let mut store = empty_store();
    store.priority_ops.push(pop_record(0x22, 0x33, 5, 0, 9, 0, deposit_payload(3, 4, 7, "50"), 3, 4));
    let schema = schema_of(store);
    let resp = schema.get_tx_by_hash(&hash(0x33)).expect("summary");
    assert_eq!(resp.tx_type, "Deposit");
    assert_eq!(resp.from, "0x03");
    assert_eq!(resp.to, "0x04");
    assert_eq!(resp.token, 7);
    assert_eq!(resp.amount, "50");
    assert_eq!(resp.fee, None);
    assert_eq!(resp.nonce, -1);
    // its own hash is not an L1 hash, so it resolves nothing here
    assert!(schema.get_tx_by_hash(&hash(0x22)).is_none());
}

#[test]
fn full_exit_summary_uses_the_exit_account_for_both_parties() {
    let mut store = empty_store();
    store.priority_ops.push(pop_record(0x22, 0x33, 5, 0, 9, 0, full_exit_payload(8, 3), 8, 8));
    let schema = schema_of(store);
    let resp = schema.find_priority_op_by_hash(&hash(0x33)).expect("summary");
    assert_eq!(resp.tx_type, "FullExit");
    assert_eq!(resp.from, "0x08");
    assert_eq!(resp.to, "0x08");
    assert_eq!(resp.amount, "55");
}

#[test]
fn token_enrichment_cases() {
    let tokens = vec![TokenInfo { id: 5, symbol: "ETH".to_string() }];
    // a known fungible id becomes its symbol
    let enriched = enrich_payload(&transfer_payload(1, 2, 5, "7", 0), &tokens);
    match enriched {
        TxPayload::Transfer { token: TokenRef::Symbol(s), .. } => assert_eq!(s, "ETH"),
        _ => panic!("expected a symbol"),
    }
    // an unknown fungible id becomes the UNKNOWN literal
    let no_tokens: Vec<TokenInfo> = Vec::new();
    let enriched = enrich_payload(&transfer_payload(1, 2, 5, "7", 0), &no_tokens);
    match enriched {
        TxPayload::Transfer { token: TokenRef::Symbol(s), .. } => assert_eq!(s, "UNKNOWN"),
        _ => panic!("expected a symbol"),
    }
    // an id at or above the NFT bound stays numeric
    let enriched = enrich_payload(&transfer_payload(1, 2, MIN_NFT_TOKEN_ID, "7", 0), &tokens);
    match enriched {
        TxPayload::Transfer { token: TokenRef::Id(id), .. } => assert_eq!(id, MIN_NFT_TOKEN_ID),
        _ => panic!("expected a raw id"),
    }
    // the deposit token sits one level down and is enriched there
    let enriched = enrich_payload(&deposit_payload(3, 4, 5, "50"), &tokens);
    match enriched {
        TxPayload::Deposit { deposit } => match deposit.token {
            TokenRef::Symbol(s) => assert_eq!(s, "ETH"),
            _ => panic!("expected a symbol"),
        },
        _ => panic!("expected a deposit"),
    }
    // an unrecognized payload is left unmodified
    let enriched = enrich_payload(&TxPayload::Unknown, &tokens);
    assert!(matches!(enriched, TxPayload::Unknown));
}

#[test]
fn failed_member_rejects_the_whole_batch() {
    let mut store = empty_store();
    let mut m1 = tx_record(0x11, 6, 0, 1_000, true, transfer_payload(1, 2, 0, "7", 1), 1, 2);
    m1.batch_id = Some(77);
    let mut m2 = tx_record(0x12, 6, 1, 1_000, true, transfer_payload(1, 2, 0, "8", 2), 1, 2);
    m2.batch_id = Some(77);
    let mut m3 = tx_record(0x13, 6, 2, 1_000, false, transfer_payload(1, 2, 0, "9", 3), 1, 2);
    m3.batch_id = Some(77);
    store.executed_txs.push(m1);
    store.executed_txs.push(m2);
    store.executed_txs.push(m3);
    store.batches.push(BatchRecord { batch_hash: hash(0xb1), batch_id: 77 });
    // the block is finalized, and the batch is still rejected
    store.aggregated_ops.push(agg_op(AggregatedActionType::ExecuteBlocks, 1, 10, true, 5_000));
    let schema = schema_of(store);
    let info = schema.get_in_block_batch_info(&hash(0xb1)).expect("batch");
    assert_eq!(info.batch_status.last_state, TxInBlockStatus::Rejected);
    assert_eq!(info.batch_status.updated_at, 1_000);
    assert_eq!(info.created_at, 1_000);
    assert_eq!(info.transaction_hashes, vec![hash(0x11), hash(0x12), hash(0x13)]);
}

#[test]
fn batch_status_committed_then_finalized() {
    let mut store = empty_store();
    let mut m1 = tx_record(0x11, 6, 0, 1_000, true, transfer_payload(1, 2, 0, "7", 1), 1, 2);
    m1.batch_id = Some(77);
    store.executed_txs.push(m1);
    store.batches.push(BatchRecord { batch_hash: hash(0xb1), batch_id: 77 });
    let schema = schema_of(store);
    let info = schema.get_in_block_batch_info(&hash(0xb1)).expect("batch");
    assert_eq!(info.batch_status.last_state, TxInBlockStatus::Committed);
    assert_eq!(info.batch_status.updated_at, 1_000);

    let mut store2 = empty_store();
    let mut m1 = tx_record(0x11, 6, 0, 1_000, true, transfer_payload(1, 2, 0, "7", 1), 1, 2);
    m1.batch_id = Some(77);
    store2.executed_txs.push(m1);
    store2.batches.push(BatchRecord { batch_hash: hash(0xb1), batch_id: 77 });
    store2.aggregated_ops.push(agg_op(AggregatedActionType::ExecuteBlocks, 1, 10, true, 5_000));
    let schema2 = schema_of(store2);
    let info2 = schema2.get_in_block_batch_info(&hash(0xb1)).expect("batch");
    assert_eq!(info2.batch_status.last_state, TxInBlockStatus::Finalized);
    assert_eq!(info2.batch_status.updated_at, 5_000);
}

#[test]
fn batch_info_falls_through_to_the_pending_store() {
    let mut store = empty_store();
    store.pending_batches.push(ApiTxBatch {
        batch_hash: hash(0xb2),
        transaction_hashes: vec![hash(0x21), hash(0x22)],
        created_at: 4_000,
        batch_status: BatchStatus { updated_at: 4_000, last_state: TxInBlockStatus::Queued },
    });
    let schema = schema_of(store);
    let info = schema.get_batch_info(&hash(0xb2)).expect("pending batch");
    assert_eq!(info.batch_status.last_state, TxInBlockStatus::Queued);
    assert_eq!(info.created_at, 4_000);
    assert_eq!(info.transaction_hashes, vec![hash(0x21), hash(0x22)]);
    assert!(schema.get_batch_info(&hash(0xb3)).is_none());
}

#[test]
fn account_created_on_is_the_earliest_touch() {
    let mut store = empty_store();
    store.executed_txs.push(tx_record(0x11, 2, 0, 5_000, true, transfer_payload(1, 2, 0, "7", 1), 1, 2));
    store.executed_txs.push(tx_record(0x12, 3, 0, 6_000, true, transfer_payload(2, 1, 0, "7", 1), 2, 1));
    store.priority_ops.push(pop_record(0x22, 0x33, 4, 0, 9, 7_000, deposit_payload(9, 1, 0, "50"), 9, 1));
    let schema = schema_of(store);
    assert_eq!(schema.account_created_on(&addr(1)), Some(5_000));
    assert_eq!(schema.account_created_on(&addr(9)), Some(7_000));
    assert_eq!(schema.account_created_on(&addr(8)), None);
}

#[test]
fn last_tx_hashes_pick_the_latest_entry() {
    let mut store = empty_store();
    store.executed_txs.push(tx_record(0x11, 2, 0, 5_000, true, transfer_payload(1, 2, 0, "7", 1), 1, 2));
    store.executed_txs.push(tx_record(0x12, 2, 1, 6_000, true, transfer_payload(1, 2, 0, "8", 2), 1, 2));
    store.priority_ops.push(pop_record(0x22, 0x33, 2, 2, 9, 6_000, deposit_payload(9, 1, 0, "50"), 9, 1));
    store.tx_filters.push(filter_entry(1, 0, 0x11));
    store.tx_filters.push(filter_entry(1, 0, 0x12));
    store.tx_filters.push(filter_entry(1, 0, 0x22));
    let schema = schema_of(store);
    // equal creation times: the higher intra-block position wins
    assert_eq!(schema.get_account_last_tx_hash(&addr(1)), Some(hash(0x22)));
    assert_eq!(schema.get_account_last_tx_hash(&addr(7)), None);
    assert_eq!(schema.get_block_last_tx_hash(2), Some(hash(0x22)));
    assert_eq!(schema.get_block_last_tx_hash(3), None);
}

#[test]
fn created_at_and_block_looks_in_both_partitions() {
    let mut store = empty_store();
    store.executed_txs.push(tx_record(0x11, 2, 0, 5_000, true, transfer_payload(1, 2, 0, "7", 1), 1, 2));
    store.priority_ops.push(pop_record(0x22, 0x33, 4, 0, 9, 7_000, deposit_payload(9, 1, 0, "50"), 9, 1));
    let schema = schema_of(store);
    assert_eq!(schema.get_tx_created_at_and_block_number(&hash(0x11)), Some((5_000, 2)));
    assert_eq!(schema.get_tx_created_at_and_block_number(&hash(0x22)), Some((7_000, 4)));
    assert_eq!(schema.get_tx_created_at_and_block_number(&hash(0x99)), None);
}

#[test]
fn filter_upsert_is_idempotent() {
    let mut store = empty_store();
    store.tx_filters.push(filter_entry(1, 0, 0x11));
    let mut schema = schema_of(store);
    schema.save_executed_tx_filters(
        vec![addr(1), addr(2), addr(1)],
        vec![0, 0, 0],
        vec![hash(0x11), hash(0x11), hash(0x12)],
    );
    assert_eq!(schema.0.tx_filters.len(), 3);
    // the very same triples again: a no-op
    schema.save_executed_tx_filters(
        vec![addr(1), addr(2), addr(1)],
        vec![0, 0, 0],
        vec![hash(0x11), hash(0x11), hash(0x12)],
    );
    assert_eq!(schema.0.tx_filters.len(), 3);
    assert!(schema.0.wf_check());
}

#[test]
fn transaction_count_respects_token_and_second_address() {
    let mut store = empty_store();
    // address 1 touches tx 0x11 (token 0) and 0x12 (tokens 0 and 5)
    store.tx_filters.push(filter_entry(1, 0, 0x11));
    store.tx_filters.push(filter_entry(1, 0, 0x12));
    store.tx_filters.push(filter_entry(1, 5, 0x12));
    store.tx_filters.push(filter_entry(2, 0, 0x12));
    let schema = schema_of(store);
    assert_eq!(schema.get_account_transactions_count(&addr(1), None, None), 2);
    assert_eq!(schema.get_account_transactions_count(&addr(1), Some(5), None), 1);
    assert_eq!(schema.get_account_transactions_count(&addr(1), None, Some(&addr(2))), 1);
    assert_eq!(schema.get_account_transactions_count(&addr(1), Some(5), Some(&addr(2))), 0);
    assert_eq!(schema.get_account_transactions_count(&addr(3), None, None), 0);
}

#[test]
fn watermark_is_the_highest_indexed_block() {
    let mut store = empty_store();
    store.executed_txs.push(tx_record(0x11, 2, 0, 5_000, true, transfer_payload(1, 2, 0, "7", 1), 1, 2));
    store.executed_txs.push(tx_record(0x12, 9, 0, 6_000, true, transfer_payload(1, 2, 0, "8", 2), 1, 2));
    store.priority_ops.push(pop_record(0x22, 0x33, 5, 0, 9, 5_500, deposit_payload(9, 1, 0, "50"), 9, 1));
    store.tx_filters.push(filter_entry(1, 0, 0x11));
    store.tx_filters.push(filter_entry(9, 0, 0x22));
    let schema = schema_of(store);
    // block 9 is not reflected in the index yet
    assert_eq!(schema.last_block_with_updated_tx_filters(), 5);
}

#[test]
fn web3_data_joins_the_block_root_hash() {
    let mut store = empty_store();
    store.executed_txs.push(tx_record(0x11, 2, 0, 5_000, true, transfer_payload(1, 2, 0, "7", 1), 1, 2));
    store.blocks.push(BlockRecord { number: 2, root_hash: hash(0xaa) });
    let schema = schema_of(store);
    let d = schema.tx_data_for_web3(&hash(0x11)).expect("no fault").expect("data");
    assert_eq!(d.block_hash, hash(0xaa));
    assert_eq!(d.block_number, 2);
    assert_eq!(d.nonce, 1);
    assert!(schema.tx_data_for_web3(&hash(0x99)).expect("no fault").is_none());
}

#[test]
fn web3_data_missing_block_is_a_store_fault() {
    let mut store = empty_store();
    store.executed_txs.push(tx_record(0x11, 2, 0, 5_000, true, transfer_payload(1, 2, 0, "7", 1), 1, 2));
    let schema = schema_of(store);
    match schema.tx_data_for_web3(&hash(0x11)) {
        Err(e) => assert_eq!(e, StoreError::MissingBlock),
        Ok(_) => panic!("expected a store fault"),
    }
}

#[test]
fn web3_receipt_requires_a_confirmed_commit_range() {
    let mut store = empty_store();
    store.executed_txs.push(tx_record(0x11, 2, 0, 5_000, true, transfer_payload(1, 2, 0, "7", 1), 1, 2));
    store.blocks.push(BlockRecord { number: 2, root_hash: hash(0xaa) });
    let schema = schema_of(store);
    // not committed yet: absent, not an error
    assert!(schema.web3_receipt_by_hash(&hash(0x11)).expect("no fault").is_none());
    let mut store2 = schema.0;
    store2.aggregated_ops.push(agg_op(AggregatedActionType::CommitBlocks, 1, 4, true, 6_000));
    let schema2 = schema_of(store2);
    let r = schema2.web3_receipt_by_hash(&hash(0x11)).expect("no fault").expect("receipt");
    assert!(r.success);
    assert_eq!(r.block_hash, hash(0xaa));
}

#[test]
fn web3_receipts_lists_committed_entries_in_range() {
    let mut store = empty_store();
    store.executed_txs.push(tx_record(0x11, 2, 0, 5_000, true, transfer_payload(1, 2, 0, "7", 1), 1, 2));
    store.executed_txs.push(tx_record(0x12, 3, 0, 6_000, true, transfer_payload(1, 2, 0, "8", 2), 1, 2));
    store.priority_ops.push(pop_record(0x22, 0x33, 2, 1, 9, 5_500, deposit_payload(9, 1, 0, "50"), 9, 1));
    store.blocks.push(BlockRecord { number: 2, root_hash: hash(0xaa) });
    store.blocks.push(BlockRecord { number: 3, root_hash: hash(0xbb) });
    // only block 2 is commit-confirmed
    store.aggregated_ops.push(agg_op(AggregatedActionType::CommitBlocks, 2, 2, true, 6_000));
    let schema = schema_of(store);
    let rs = schema.web3_receipts(1, 5).expect("no fault");
    assert_eq!(rs.len(), 2);
    assert_eq!(rs[0].tx_hash, hash(0x11));
    assert_eq!(rs[1].tx_hash, hash(0x22));
}

#[test]
fn block_range_loads_pair_hashes_with_payloads() {
    let mut store = empty_store();
    store.executed_txs.push(tx_record(0x11, 2, 0, 5_000, true, transfer_payload(1, 2, 0, "7", 1), 1, 2));
    store.executed_txs.push(tx_record(0x12, 6, 0, 6_000, true, transfer_payload(1, 2, 0, "8", 2), 1, 2));
    store.priority_ops.push(pop_record(0x22, 0x33, 3, 0, 9, 5_500, deposit_payload(9, 1, 0, "50"), 9, 1));
    let schema = schema_of(store);
    let txs = schema.load_executed_txs_in_block_range(1, 5);
    assert_eq!(txs.len(), 1);
    assert_eq!(txs[0].0, hash(0x11));
    assert!(matches!(&txs[0].1, TxPayload::Transfer { amount, .. } if amount == "7"));
    let pops = schema.load_executed_priority_ops_in_block_range(1, 5);
    assert_eq!(pops.len(), 1);
    assert_eq!(pops[0].0, hash(0x22));
}

#[test]
fn web3_receipts_fail_whole_page_on_missing_block() {
    let mut store = empty_store();
    store.executed_txs.push(tx_record(0x11, 2, 0, 5_000, true, transfer_payload(1, 2, 0, "7", 1), 1, 2));
    store.executed_txs.push(tx_record(0x12, 3, 0, 6_000, true, transfer_payload(1, 2, 0, "8", 2), 1, 2));
    store.blocks.push(BlockRecord { number: 2, root_hash: hash(0xaa) });
    // block 3 is committed but has no stored record: no partial page
    store.aggregated_ops.push(agg_op(AggregatedActionType::CommitBlocks, 1, 5, true, 6_000));
    let schema = schema_of(store);
    match schema.web3_receipts(1, 5) {
        Err(e) => assert_eq!(e, StoreError::MissingBlock),
        Ok(_) => panic!("expected a store fault"),
    }
}

#[test]
fn wf_check_rejects_disorder() {
    let mut store = empty_store();
    store.executed_txs.push(tx_record(0x11, 5, 0, 5_000, true, transfer_payload(1, 2, 0, "7", 1), 1, 2));
    store.executed_txs.push(tx_record(0x12, 2, 0, 6_000, true, transfer_payload(1, 2, 0, "8", 2), 1, 2));
    assert!(!store.wf_check());
    let mut store2 = empty_store();
    store2.tx_filters.push(filter_entry(1, 0, 0x11));
    store2.tx_filters.push(filter_entry(1, 0, 0x11));
    assert!(!store2.wf_check());
    assert!(empty_store().wf_check());
}

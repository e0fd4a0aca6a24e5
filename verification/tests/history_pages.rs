use operations_ext::history::TransactionsHistoryItem;
use operations_ext::records::{
    AggregatedActionType, AggregatedOperation, DepositOp, FilterIndexEntry, PriorityOpRecord,
    TokenInfo, TokenRef, TxPayload, TxRecord,
};
use operations_ext::schema::{OperationsExtSchema, StorageModel};
use operations_ext::status::TxInBlockStatus;
use operations_ext::SearchDirection;

fn addr(b: u8) -> Vec<u8> {
    vec![b; 20]
}

fn hash(b: u8) -> Vec<u8> {
    vec![b; 32]
}

fn transfer(token: u32, amount: &str, nonce: i64) -> TxPayload {
    TxPayload::Transfer {
        from: "0x01".to_string(),
        to: "0x02".to_string(),
        token: TokenRef::Id(token),
        amount: amount.to_string(),
        fee: None,
        nonce,
    }
}

fn deposit(token: u32, amount: &str) -> TxPayload {
    TxPayload::Deposit {
        deposit: DepositOp {
            from: "0x09".to_string(),
            to: "0x01".to_string(),
            token: TokenRef::Id(token),
            amount: amount.to_string(),
        },
    }
}

fn tx(h: u8, block: u32, index: u32, created: i64, payload: TxPayload) -> TxRecord {
    TxRecord {
        tx_hash: hash(h),
        block_number: block,
        block_index: index,
        payload,
        success: true,
        fail_reason: None,
        created_at: created,
        batch_id: None,
        from_account: addr(1),
        to_account: addr(2),
        primary_account_address: addr(1),
        nonce: 1,
        eth_sign_data: None,
    }
}

fn pop(h: u8, eth_h: u8, block: u32, index: u32, serial: i64, created: i64, payload: TxPayload) -> PriorityOpRecord {
    PriorityOpRecord {
        tx_hash: hash(h),
        eth_hash: hash(eth_h),
        block_number: block,
        block_index: index,
        serial_id: serial,
        eth_block: 900,
        payload,
        from_account: addr(9),
        to_account: addr(1),
        created_at: created,
    }
}

fn filter_entry(a: u8, h: u8) -> FilterIndexEntry {
    FilterIndexEntry { address: addr(a), token: 0, tx_hash: hash(h) }
}

fn empty_store() -> StorageModel {
    StorageModel {
        executed_txs: Vec::new(),
        priority_ops: Vec::new(),
        mempool_txs: Vec::new(),
        aggregated_ops: Vec::new(),
        tx_filters: Vec::new(),
        batches: Vec::new(),
        pending_batches: Vec::new(),
        blocks: Vec::new(),
        tokens: Vec::new(),
        withdrawal_txs: Vec::new(),
    }
}

/// Five entries of account 1's history, ascending: blocks 1..5, a priority
/// operation in blocks 2 and 4.
fn five_entry_store() -> StorageModel {
    let mut store = empty_store();
    store.executed_txs.push(tx(0x11, 1, 0, 1_000, transfer(0, "10", 1)));
    store.executed_txs.push(tx(0x13, 3, 0, 3_000, transfer(0, "30", 2)));
    store.executed_txs.push(tx(0x15, 5, 0, 5_000, transfer(0, "50", 3)));
    store.priority_ops.push(pop(0x22, 0x32, 2, 0, 1, 2_000, deposit(0, "20")));
    store.priority_ops.push(pop(0x24, 0x34, 4, 0, 2, 4_000, deposit(0, "40")));
    store.tx_filters.push(filter_entry(1, 0x11));
    store.tx_filters.push(filter_entry(1, 0x13));
    store.tx_filters.push(filter_entry(1, 0x15));
    store.tx_filters.push(filter_entry(1, 0x22));
    store.tx_filters.push(filter_entry(1, 0x24));
    store.aggregated_ops.push(AggregatedOperation {
        action: AggregatedActionType::ExecuteBlocks,
        from_block: 1,
        to_block: 2,
        confirmed: true,
        created_at: 9_000,
    });
    assert!(store.wf_check());
    store
}

fn keys(page: &[TransactionsHistoryItem]) -> Vec<(u32, u32)> {
    page.iter().map(|i| (i.block_number, i.block_index)).collect()
}

#[test]
fn offset_page_is_the_descending_history() {
    let schema = OperationsExtSchema(five_entry_store());
    let page = schema.get_account_transactions_history(&addr(1), 0, 10);
    assert_eq!(keys(&page), vec![(5, 0), (4, 0), (3, 0), (2, 0), (1, 0)]);
    let second = schema.get_account_transactions_history(&addr(1), 2, 2);
    assert_eq!(keys(&second), vec![(3, 0), (2, 0)]);
    let beyond = schema.get_account_transactions_history(&addr(1), 7, 2);
    assert!(beyond.is_empty());
}

#[test]
fn history_items_carry_hashes_status_and_sources() {
    let schema = OperationsExtSchema(five_entry_store());
    let page = schema.get_account_transactions_history(&addr(1), 0, 10);
    // the newest entry is an ordinary transaction with a sync-tx hash
    let newest = &page[0];
    assert_eq!(newest.hash, Some(format!("sync-tx:{}", "15".repeat(32))));
    assert_eq!(newest.pq_id, None);
    assert!(newest.committed);
    assert!(!newest.verified);
    // the deposit at block 2 carries its L1 hash, serial id, and is
    // verified: the confirmed execute range [1,2] covers it
    let dep = &page[3];
    assert_eq!(dep.hash, Some(format!("0x{}", "32".repeat(32))));
    assert_eq!(dep.pq_id, Some(1));
    assert_eq!(dep.eth_block, Some(900));
    assert!(dep.verified);
    assert_eq!(dep.success, Some(true));
}

#[test]
fn older_pages_walk_down_from_a_cursor() {
    // two transactions at (3,0) and (7,2): the first Older page from the
    // top is the (7,2) entry, the next is (3,0), the third is empty
    let mut store = empty_store();
    store.executed_txs.push(tx(0x11, 3, 0, 1_000, transfer(0, "10", 1)));
    store.executed_txs.push(tx(0x12, 7, 2, 2_000, transfer(0, "20", 2)));
    store.tx_filters.push(filter_entry(1, 0x11));
    store.tx_filters.push(filter_entry(1, 0x12));
    assert!(store.wf_check());
    let schema = OperationsExtSchema(store);
    let first = schema.get_account_transactions_history(&addr(1), 0, 1);
    assert_eq!(keys(&first), vec![(7, 2)]);
    let second = schema.get_account_transactions_history_from(
        &addr(1),
        (7, 2),
        SearchDirection::Older,
        1,
    );
    assert_eq!(keys(&second), vec![(3, 0)]);
    let third = schema.get_account_transactions_history_from(
        &addr(1),
        (3, 0),
        SearchDirection::Older,
        1,
    );
    assert!(third.is_empty());
}

#[test]
fn older_pages_tile_the_whole_history() {
    // concatenating successive Older pages of size 2 reconstructs the full
    // descending history, nothing repeated, nothing missing
    let schema = OperationsExtSchema(five_entry_store());
    let mut all: Vec<(u32, u32)> = Vec::new();
    let mut cursor = (u64::MAX, u64::MAX);
    loop {
        let page = schema.get_account_transactions_history_from(
            &addr(1),
            cursor,
            SearchDirection::Older,
            2,
        );
        if page.is_empty() {
            break;
        }
        let last = &page[page.len() - 1];
        cursor = (last.block_number as u64, last.block_index as u64);
        all.extend(keys(&page));
        if page.len() < 2 {
            break;
        }
    }
    assert_eq!(all, vec![(5, 0), (4, 0), (3, 0), (2, 0), (1, 0)]);
}

#[test]
fn page_order_follows_the_direction() {
    let schema = OperationsExtSchema(five_entry_store());
    let older = schema.get_account_transactions_history_from(
        &addr(1),
        (4, 0),
        SearchDirection::Older,
        10,
    );
    let ks = keys(&older);
    assert_eq!(ks, vec![(3, 0), (2, 0), (1, 0)]);
    for w in ks.windows(2) {
        assert!(w[0] > w[1]);
    }
    let newer = schema.get_account_transactions_history_from(
        &addr(1),
        (2, 0),
        SearchDirection::Newer,
        10,
    );
    let ks = keys(&newer);
    assert_eq!(ks, vec![(3, 0), (4, 0), (5, 0)]);
    for w in ks.windows(2) {
        assert!(w[0] < w[1]);
    }
}

#[test]
fn pages_are_deterministic() {
    let schema = OperationsExtSchema(five_entry_store());
    let p1 = schema.get_account_transactions_history_from(
        &addr(1),
        (4, 0),
        SearchDirection::Older,
        2,
    );
    let p2 = schema.get_account_transactions_history_from(
        &addr(1),
        (4, 0),
        SearchDirection::Older,
        2,
    );
    assert_eq!(p1.len(), p2.len());
    for (a, b) in p1.iter().zip(p2.iter()) {
        assert_eq!(a.block_number, b.block_number);
        assert_eq!(a.block_index, b.block_index);
        assert_eq!(a.hash, b.hash);
        assert_eq!(a.created_at, b.created_at);
        assert_eq!(a.verified, b.verified);
    }
}

#[test]
fn cursor_pages_are_stable_under_appends() {
    let schema = OperationsExtSchema(five_entry_store());
    let before = schema.get_account_transactions_history_from(
        &addr(1),
        (4, 0),
        SearchDirection::Older,
        10,
    );
    // a new block arrives: the same cursor still shows the same page
    let mut store = schema.0;
    store.executed_txs.push(tx(0x16, 6, 0, 6_000, transfer(0, "60", 4)));
    store.tx_filters.push(filter_entry(1, 0x16));
    assert!(store.wf_check());
    let schema = OperationsExtSchema(store);
    let after = schema.get_account_transactions_history_from(
        &addr(1),
        (4, 0),
        SearchDirection::Older,
        10,
    );
    assert_eq!(keys(&before), keys(&after));
}

#[test]
fn history_page_enriches_token_symbols() {
    let mut store = five_entry_store();
    store.tokens.push(TokenInfo { id: 0, symbol: "ETH".to_string() });
    let schema = OperationsExtSchema(store);
    let page = schema.get_account_transactions_history(&addr(1), 0, 1);
    match &page[0].tx {
        TxPayload::Transfer { token: TokenRef::Symbol(s), amount, .. } => {
            assert_eq!(s, "ETH");
            assert_eq!(amount, "50");
        },
        _ => panic!("expected an enriched transfer"),
    }
}

#[test]
fn account_transactions_from_latest_hash() {
    let schema = OperationsExtSchema(five_entry_store());
    // no cursor hash: start from the account's most recent entry
    let txs = schema
        .get_account_transactions(&addr(1), None, None, None, SearchDirection::Older, 10)
        .expect("page");
    assert_eq!(txs.len(), 5);
    assert_eq!(txs[0].tx_hash, hash(0x15));
    assert_eq!(txs[4].tx_hash, hash(0x11));
    // finality against the highest verified block (2)
    assert_eq!(txs[4].status, TxInBlockStatus::Finalized);
    assert_eq!(txs[3].status, TxInBlockStatus::Finalized);
    assert_eq!(txs[0].status, TxInBlockStatus::Committed);
}

#[test]
fn account_transactions_newer_from_a_hash() {
    let schema = OperationsExtSchema(five_entry_store());
    let txs = schema
        .get_account_transactions(
            &addr(1),
            Some(&hash(0x13)),
            None,
            None,
            SearchDirection::Newer,
            2,
        )
        .expect("page");
    // from the (3,0) entry's creation time onward, ascending, two of them
    assert_eq!(txs.len(), 2);
    assert_eq!(txs[0].tx_hash, hash(0x13));
    assert_eq!(txs[1].tx_hash, hash(0x24));
}

#[test]
fn account_transactions_empty_and_unknown_cursors() {
    let schema = OperationsExtSchema(five_entry_store());
    // an account with no history yields an empty page
    let empty = schema
        .get_account_transactions(&addr(7), None, None, None, SearchDirection::Older, 10)
        .expect("page");
    assert!(empty.is_empty());
    // an unresolvable cursor hash yields nothing
    assert!(schema
        .get_account_transactions(
            &addr(1),
            Some(&hash(0x99)),
            None,
            None,
            SearchDirection::Older,
            10,
        )
        .is_none());
}

#[test]
fn two_party_page_intersects_the_index() {
    let mut store = five_entry_store();
    // address 2 shares only the block-3 transaction with address 1
    store.tx_filters.push(filter_entry(2, 0x13));
    assert!(store.wf_check());
    let schema = OperationsExtSchema(store);
    let txs = schema
        .get_account_transactions(
            &addr(1),
            None,
            Some(&addr(2)),
            None,
            SearchDirection::Older,
            10,
        )
        .expect("page");
    assert_eq!(txs.len(), 1);
    assert_eq!(txs[0].tx_hash, hash(0x13));
}

#[test]
fn time_window_helpers_select_and_order() {
    let schema = OperationsExtSchema(five_entry_store());
    let newer = schema.get_executed_txs_for_account(&addr(1), None, 10, 3_000, SearchDirection::Newer);
    assert_eq!(newer.len(), 2);
    assert_eq!(newer[0].tx_hash, hash(0x13));
    assert_eq!(newer[1].tx_hash, hash(0x15));
    let older = schema.get_executed_txs_for_account(&addr(1), None, 1, 3_000, SearchDirection::Older);
    assert_eq!(older.len(), 1);
    assert_eq!(older[0].tx_hash, hash(0x13));
    // priority operations reach the page only through the filter index:
    // the depositing L1 account itself is not indexed
    let unindexed = schema.get_priority_operations_for_account(&addr(9), None, 10, 0, SearchDirection::Newer);
    assert!(unindexed.is_empty());
    let pops = schema.get_priority_operations_for_account(&addr(1), None, 10, 0, SearchDirection::Newer);
    assert_eq!(pops.len(), 2);
    assert_eq!(pops[0].tx_hash, hash(0x22));
    assert_eq!(pops[0].priority_op_serialid, Some(1));
    assert_eq!(pops[1].tx_hash, hash(0x24));
}

#[test]
fn merge_prefers_transactions_on_equal_times() {
    let mut store = empty_store();
    store.executed_txs.push(tx(0x11, 1, 0, 1_000, transfer(0, "10", 1)));
    store.priority_ops.push(pop(0x22, 0x32, 1, 1, 1, 1_000, deposit(0, "20")));
    store.tx_filters.push(filter_entry(1, 0x11));
    store.tx_filters.push(filter_entry(1, 0x22));
    assert!(store.wf_check());
    let schema = OperationsExtSchema(store);
    let txs = schema
        .get_account_transactions(
            &addr(1),
            Some(&hash(0x11)),
            None,
            None,
            SearchDirection::Newer,
            10,
        )
        .expect("page");
    assert_eq!(txs.len(), 2);
    // equal creation times: the ordinary transaction comes first
    assert_eq!(txs[0].tx_hash, hash(0x11));
    assert_eq!(txs[1].tx_hash, hash(0x22));
}

#[test]
fn zero_limit_pages_are_empty() {
    let schema = OperationsExtSchema(five_entry_store());
    assert!(schema.get_account_transactions_history(&addr(1), 0, 0).is_empty());
    assert!(schema
        .get_account_transactions_history_from(&addr(1), (4, 0), SearchDirection::Older, 0)
        .is_empty());
    let txs = schema
        .get_account_transactions(&addr(1), None, None, None, SearchDirection::Older, 0)
        .expect("page");
    assert!(txs.is_empty());
}

#[test]
fn last_verified_confirmed_block_is_the_highest_covered() {
    let mut store = empty_store();
    store.aggregated_ops.push(AggregatedOperation {
        action: AggregatedActionType::ExecuteBlocks,
        from_block: 1,
        to_block: 4,
        confirmed: true,
        created_at: 1_000,
    });
    store.aggregated_ops.push(AggregatedOperation {
        action: AggregatedActionType::ExecuteBlocks,
        from_block: 5,
        to_block: 9,
        confirmed: false,
        created_at: 2_000,
    });
    store.aggregated_ops.push(AggregatedOperation {
        action: AggregatedActionType::CommitBlocks,
        from_block: 5,
        to_block: 9,
        confirmed: true,
        created_at: 2_000,
    });
    let schema = OperationsExtSchema(store);
    assert_eq!(schema.get_last_verified_confirmed_block(), 4);
}

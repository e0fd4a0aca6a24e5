//! Time-windowed account pages keyed by a transaction-hash cursor.
//!
//! These pages resolve a transaction hash to its creation time and select
//! entries from that moment onward (or backward), merging the two
//! partitions by creation time. Each returned transaction carries its
//! finality state, derived from the highest verified block.

use vstd::prelude::*;

use crate::filter_index::hash_matches_addr;
use crate::merge::{entry_created, LedgerEntry};
use crate::records::{
    AggregatedActionType, AggregatedOperation, FilterIndexEntry, PriorityOpRecord, TxPayload,
    TxRecord,
};
use crate::status::TxInBlockStatus;
use crate::SearchDirection;

verus! {

/// One selected entry of a time-windowed page, as pulled from a partition.
#[derive(Debug)]
pub struct TransactionItem {
    pub tx_hash: Vec<u8>,
    pub payload: TxPayload,
    pub block_number: u32,
    pub block_index: u32,
    pub created_at: i64,
    pub success: bool,
    pub fail_reason: Option<String>,
    pub eth_hash: Option<Vec<u8>>,
    pub priority_op_serialid: Option<i64>,
    pub batch_id: Option<i64>,
}

/// A transaction of a time-windowed page, with its resolved finality state.
#[derive(Debug)]
pub struct Transaction {
    pub tx_hash: Vec<u8>,
    pub block_number: u32,
    pub block_index: u32,
    pub payload: TxPayload,
    pub created_at: i64,
    pub status: TxInBlockStatus,
    pub fail_reason: Option<String>,
    pub batch_id: Option<i64>,
}

/// Whether a creation time lies in the requested window: at or after the
/// cursor's time for Newer, at or before it for Older.
pub open spec fn time_in_window(created: int, time_from: int, direction: SearchDirection) -> bool {
    match direction {
        SearchDirection::Newer => created >= time_from,
        SearchDirection::Older => created <= time_from,
    }
}

/// An ordinary transaction belongs to the window when the index links it
/// to the address (under the token, when given; to the second address
/// too, when one is given) and its creation time lies in the window.
pub open spec fn tx_window_matches(
    r: TxRecord,
    fs: Seq<FilterIndexEntry>,
    addr: Seq<u8>,
    second: Option<Seq<u8>>,
    token: Option<i32>,
    time_from: int,
    direction: SearchDirection,
) -> bool {
    &&& hash_matches_addr(fs, addr, token, r.tx_hash@)
    &&& (second matches Some(a2) ==> hash_matches_addr(fs, a2, token, r.tx_hash@))
    &&& time_in_window(r.created_at as int, time_from, direction)
}

/// A priority operation belongs to the window when the index links it to
/// the address (under the token, when given) and its creation time lies
/// in the window.
pub open spec fn pop_window_matches(
    r: PriorityOpRecord,
    fs: Seq<FilterIndexEntry>,
    addr: Seq<u8>,
    token: Option<i32>,
    time_from: int,
    direction: SearchDirection,
) -> bool {
    hash_matches_addr(fs, addr, token, r.tx_hash@) && time_in_window(
        r.created_at as int,
        time_from,
        direction,
    )
}

/// The item pulled for an ordinary transaction.
pub open spec fn item_from_tx(item: TransactionItem, r: TxRecord) -> bool {
    &&& item.tx_hash@ == r.tx_hash@
    &&& item.payload == r.payload
    &&& item.block_number == r.block_number
    &&& item.block_index == r.block_index
    &&& item.created_at == r.created_at
    &&& item.success == r.success
    &&& item.fail_reason == r.fail_reason
    &&& item.eth_hash is None
    &&& item.priority_op_serialid is None
    &&& item.batch_id == r.batch_id
}

/// The item pulled for a priority operation: always successful, carrying
/// its L1 hash and serial id.
pub open spec fn item_from_pop(item: TransactionItem, r: PriorityOpRecord) -> bool {
    &&& item.tx_hash@ == r.tx_hash@
    &&& item.payload == r.payload
    &&& item.block_number == r.block_number
    &&& item.block_index == r.block_index
    &&& item.created_at == r.created_at
    &&& item.success == true
    &&& item.fail_reason is None
    &&& item.eth_hash matches Some(h) && h@ == r.eth_hash@
    &&& item.priority_op_serialid == Some(r.serial_id)
    &&& item.batch_id is None
}

/// Builds the item for an ordinary transaction.
fn tx_transaction_item(r: &TxRecord) -> (item: TransactionItem)
    ensures
        item_from_tx(item, *r),
{
    TransactionItem {
        tx_hash: crate::records::clone_bytes(&r.tx_hash),
        payload: r.payload.clone(),
        block_number: r.block_number,
        block_index: r.block_index,
        created_at: r.created_at,
        success: r.success,
        fail_reason: crate::records::clone_opt_string(&r.fail_reason),
        eth_hash: None,
        priority_op_serialid: None,
        batch_id: r.batch_id,
    }
}

/// Builds the item for a priority operation.
fn pop_transaction_item(r: &PriorityOpRecord) -> (item: TransactionItem)
    ensures
        item_from_pop(item, *r),
{
    TransactionItem {
        tx_hash: crate::records::clone_bytes(&r.tx_hash),
        payload: r.payload.clone(),
        block_number: r.block_number,
        block_index: r.block_index,
        created_at: r.created_at,
        success: true,
        fail_reason: None,
        eth_hash: Some(crate::records::clone_bytes(&r.eth_hash)),
        priority_op_serialid: Some(r.serial_id),
        batch_id: None,
    }
}

/// A filtered prefix is a prefix of the full filtering.
pub proof fn lemma_tx_filter_take_prefix(s: Seq<TxRecord>, p: spec_fn(TxRecord) -> bool, i: int)
    requires
        0 <= i <= s.len(),
    ensures
        s.take(i).filter(p).len() <= s.filter(p).len(),
        forall|k: int| 0 <= k < s.take(i).filter(p).len() ==> #[trigger] s.take(i).filter(p)[k]
            == s.filter(p)[k],
    decreases s.len(),
{
    reveal(Seq::filter);
    if i < s.len() {
        let d = s.drop_last();
        assert(s.take(i) =~= d.take(i));
        lemma_tx_filter_take_prefix(d, p, i);
        if p(s.last()) {
            assert(s.filter(p) == d.filter(p).push(s.last()));
        }
    } else {
        assert(s.take(i) =~= s);
    }
}

/// A filtered prefix is a prefix of the full filtering, for priority
/// operations.
pub proof fn lemma_pop_filter_take_prefix(
    s: Seq<PriorityOpRecord>,
    p: spec_fn(PriorityOpRecord) -> bool,
    i: int,
)
    requires
        0 <= i <= s.len(),
    ensures
        s.take(i).filter(p).len() <= s.filter(p).len(),
        forall|k: int| 0 <= k < s.take(i).filter(p).len() ==> #[trigger] s.take(i).filter(p)[k]
            == s.filter(p)[k],
    decreases s.len(),
{
    reveal(Seq::filter);
    if i < s.len() {
        let d = s.drop_last();
        assert(s.take(i) =~= d.take(i));
        lemma_pop_filter_take_prefix(d, p, i);
        if p(s.last()) {
            assert(s.filter(p) == d.filter(p).push(s.last()));
        }
    } else {
        assert(s.take(i) =~= s);
    }
}

/// The filtering of a suffix extends by one when the element before it
/// passes the predicate.
pub proof fn lemma_tx_filter_skip_step(s: Seq<TxRecord>, p: spec_fn(TxRecord) -> bool, i: int)
    requires
        0 <= i < s.len(),
    ensures
        s.skip(i).filter(p) == (if p(s[i]) {
            seq![s[i]]
        } else {
            Seq::<TxRecord>::empty()
        }) + s.skip(i + 1).filter(p),
{
    assert(s.skip(i) =~= seq![s[i]] + s.skip(i + 1));
    s.skip(i + 1).lemma_filter_prepend(s[i], p);
}

/// The filtering of a suffix extends by one when the element before it
/// passes the predicate, for priority operations.
pub proof fn lemma_pop_filter_skip_step(
    s: Seq<PriorityOpRecord>,
    p: spec_fn(PriorityOpRecord) -> bool,
    i: int,
)
    requires
        0 <= i < s.len(),
    ensures
        s.skip(i).filter(p) == (if p(s[i]) {
            seq![s[i]]
        } else {
            Seq::<PriorityOpRecord>::empty()
        }) + s.skip(i + 1).filter(p),
{
    assert(s.skip(i) =~= seq![s[i]] + s.skip(i + 1));
    s.skip(i + 1).lemma_filter_prepend(s[i], p);
}

/// The filtering of a suffix, reversed, is a prefix of the reversed full
/// filtering.
pub proof fn lemma_tx_filter_skip_suffix(s: Seq<TxRecord>, p: spec_fn(TxRecord) -> bool, i: int)
    requires
        0 <= i <= s.len(),
    ensures
        s.skip(i).filter(p).len() <= s.filter(p).len(),
        forall|k: int| 0 <= k < s.skip(i).filter(p).len() ==> #[trigger] s.skip(i).filter(p).reverse()[k]
            == s.filter(p).reverse()[k],
    decreases i,
{
    if i > 0 {
        lemma_tx_filter_skip_suffix(s, p, i - 1);
        lemma_tx_filter_skip_step(s, p, i - 1);
        let fi = s.skip(i).filter(p);
        let fi1 = s.skip(i - 1).filter(p);
        assert(fi1.len() >= fi.len());
        assert forall|k: int| 0 <= k < fi.len() implies #[trigger] fi.reverse()[k]
            == s.filter(p).reverse()[k] by {
            assert(fi.reverse()[k] == fi[fi.len() - 1 - k]);
            if p(s[i - 1]) {
                assert(fi1 == seq![s[i - 1]] + fi);
                assert(fi1[fi1.len() - 1 - k] == fi[fi.len() - 1 - k]);
            } else {
                assert(fi1 == fi);
            }
            assert(fi1.reverse()[k] == fi1[fi1.len() - 1 - k]);
        }
    } else {
        assert(s.skip(0) =~= s);
    }
}

/// The page's ordinary transactions, in partition order.
pub open spec fn tx_window_sel(
    txs: Seq<TxRecord>,
    fs: Seq<FilterIndexEntry>,
    addr: Seq<u8>,
    second: Option<Seq<u8>>,
    token: Option<i32>,
    time_from: int,
    direction: SearchDirection,
) -> Seq<TxRecord> {
    txs.filter(|r: TxRecord| tx_window_matches(r, fs, addr, second, token, time_from, direction))
}

/// The page's priority operations, in partition order.
pub open spec fn pop_window_sel(
    pops: Seq<PriorityOpRecord>,
    fs: Seq<FilterIndexEntry>,
    addr: Seq<u8>,
    token: Option<i32>,
    time_from: int,
    direction: SearchDirection,
) -> Seq<PriorityOpRecord> {
    pops.filter(|r: PriorityOpRecord| pop_window_matches(r, fs, addr, token, time_from, direction))
}

/// The view of an optional borrowed address.
pub open spec fn opt_addr_view(a: Option<&[u8]>) -> Option<Seq<u8>> {
    match a {
        Some(x) => Some(x@),
        None => None,
    }
}

/// The filtering of a suffix, reversed, is a prefix of the reversed full
/// filtering, for priority operations.
pub proof fn lemma_pop_filter_skip_suffix(
    s: Seq<PriorityOpRecord>,
    p: spec_fn(PriorityOpRecord) -> bool,
    i: int,
)
    requires
        0 <= i <= s.len(),
    ensures
        s.skip(i).filter(p).len() <= s.filter(p).len(),
        forall|k: int| 0 <= k < s.skip(i).filter(p).len() ==> #[trigger] s.skip(i).filter(
            p,
        ).reverse()[k] == s.filter(p).reverse()[k],
    decreases i,
{
    if i > 0 {
        lemma_pop_filter_skip_suffix(s, p, i - 1);
        lemma_pop_filter_skip_step(s, p, i - 1);
        let fi = s.skip(i).filter(p);
        let fi1 = s.skip(i - 1).filter(p);
        assert(fi1.len() >= fi.len());
        assert forall|k: int| 0 <= k < fi.len() implies #[trigger] fi.reverse()[k]
            == s.filter(p).reverse()[k] by {
            assert(fi.reverse()[k] == fi[fi.len() - 1 - k]);
            if p(s[i - 1]) {
                assert(fi1 == seq![s[i - 1]] + fi);
                assert(fi1[fi1.len() - 1 - k] == fi[fi.len() - 1 - k]);
            } else {
                assert(fi1 == fi);
            }
            assert(fi1.reverse()[k] == fi1[fi1.len() - 1 - k]);
        }
    } else {
        assert(s.skip(0) =~= s);
    }
}

/// Decides window membership of an ordinary transaction.
fn tx_window_check(
    r: &TxRecord,
    fs: &Vec<FilterIndexEntry>,
    addr: &[u8],
    second: Option<&[u8]>,
    token: Option<i32>,
    time_from: i64,
    direction: SearchDirection,
) -> (m: bool)
    ensures
        m == tx_window_matches(
            *r,
            fs@,
            addr@,
            opt_addr_view(second),
            token,
            time_from as int,
            direction,
        ),
{
    let in_window = match direction {
        SearchDirection::Newer => r.created_at >= time_from,
        SearchDirection::Older => r.created_at <= time_from,
    };
    if !in_window {
        return false;
    }
    if !crate::filter_index::matches_addr_hash(fs, addr, token, r.tx_hash.as_slice()) {
        return false;
    }
    match second {
        Some(a2) => crate::filter_index::matches_addr_hash(fs, a2, token, r.tx_hash.as_slice()),
        None => true,
    }
}

/// Selects the window's ordinary transactions as page items: the first
/// `limit` in partition order for Newer, the last `limit`, newest first,
/// for Older.
fn select_tx_items(
    txs: &Vec<TxRecord>,
    fs: &Vec<FilterIndexEntry>,
    addr: &[u8],
    second: Option<&[u8]>,
    token: Option<i32>,
    limit: u32,
    time_from: i64,
    direction: SearchDirection,
) -> (out: Vec<TransactionItem>)
    ensures
        ({
            let sel = tx_window_sel(
                txs@,
                fs@,
                addr@,
                opt_addr_view(second),
                token,
                time_from as int,
                direction,
            );
            let n = if (limit as int) <= sel.len() { limit as int } else { sel.len() as int };
            &&& out@.len() == n
            &&& direction is Newer ==> forall|k: int| 0 <= k < out@.len() ==> item_from_tx(
                #[trigger] out@[k],
                sel[k],
            )
            &&& direction is Older ==> forall|k: int| 0 <= k < out@.len() ==> item_from_tx(
                #[trigger] out@[k],
                sel.reverse()[k],
            )
        }),
{
    let ghost pred = |r: TxRecord| tx_window_matches(
        r,
        fs@,
        addr@,
        opt_addr_view(second),
        token,
        time_from as int,
        direction,
    );
    let n = txs.len();
    let mut out: Vec<TransactionItem> = Vec::new();
    match direction {
        SearchDirection::Newer => {
            let mut i: usize = 0;
            proof {
                assert(txs@.take(0) =~= Seq::<TxRecord>::empty());
                reveal(Seq::filter);
            }
            while i < n && out.len() < limit as usize
                invariant
                    n == txs@.len(),
                    0 <= i <= n,
                    out@.len() <= limit,
                    out@.len() == limit || out@.len() == txs@.take(i as int).filter(pred).len(),
                    out@.len() <= txs@.take(i as int).filter(pred).len(),
                    forall|k: int| 0 <= k < out@.len() ==> item_from_tx(
                        #[trigger] out@[k],
                        txs@.take(i as int).filter(pred)[k],
                    ),
                    pred == (|r: TxRecord| tx_window_matches(
                        r,
                        fs@,
                        addr@,
                        opt_addr_view(second),
                        token,
                        time_from as int,
                        direction,
                    )),
                    txs == *txs,
                decreases n - i,
            {
                let matched = tx_window_check(&txs[i], fs, addr, second, token, time_from, direction);
                proof {
                    reveal(Seq::filter);
                    assert(txs@.take(i as int + 1).drop_last() =~= txs@.take(i as int));
                    assert(txs@.take(i as int + 1).last() == txs@[i as int]);
                    assert(matched == pred(txs@[i as int]));
                }
                if matched {
                    out.push(tx_transaction_item(&txs[i]));
                }
                i += 1;
            }
            proof {
                lemma_tx_filter_take_prefix(txs@, pred, i as int);
                assert(txs@.take(n as int) =~= txs@);
                if i < n {
                    assert(out@.len() == limit);
                }
            }
        },
        SearchDirection::Older => {
            let mut i: usize = n;
            proof {
                assert(txs@.skip(n as int) =~= Seq::<TxRecord>::empty());
                reveal(Seq::filter);
            }
            while i > 0 && out.len() < limit as usize
                invariant
                    n == txs@.len(),
                    0 <= i <= n,
                    out@.len() <= limit,
                    out@.len() == limit || out@.len() == txs@.skip(i as int).filter(pred).len(),
                    out@.len() <= txs@.skip(i as int).filter(pred).len(),
                    forall|k: int| 0 <= k < out@.len() ==> item_from_tx(
                        #[trigger] out@[k],
                        txs@.skip(i as int).filter(pred).reverse()[k],
                    ),
                    pred == (|r: TxRecord| tx_window_matches(
                        r,
                        fs@,
                        addr@,
                        opt_addr_view(second),
                        token,
                        time_from as int,
                        direction,
                    )),
                decreases i,
            {
                let matched = tx_window_check(
                    &txs[i - 1],
                    fs,
                    addr,
                    second,
                    token,
                    time_from,
                    direction,
                );
                proof {
                    lemma_tx_filter_skip_step(txs@, pred, i as int - 1);
                    assert(matched == pred(txs@[i as int - 1]));
                    if matched {
                        let fi = txs@.skip(i as int).filter(pred);
                        let fi1 = txs@.skip(i as int - 1).filter(pred);
                        assert(fi1 == seq![txs@[i as int - 1]] + fi);
                        assert forall|k: int| 0 <= k < fi.len() implies #[trigger] fi1.reverse()[k]
                            == fi.reverse()[k] by {
                            assert(fi1.reverse()[k] == fi1[fi1.len() - 1 - k]);
                            assert(fi1[fi1.len() - 1 - k] == fi[fi.len() - 1 - k]);
                        }
                        assert(fi1.reverse()[fi.len() as int] == fi1[0]);
                        assert(fi1[0] == txs@[i as int - 1]);
                    }
                }
                if matched && out.len() < limit as usize {
                    out.push(tx_transaction_item(&txs[i - 1]));
                }
                i -= 1;
            }
            proof {
                lemma_tx_filter_skip_suffix(txs@, pred, i as int);
                assert(txs@.skip(0) =~= txs@);
                if i > 0 {
                    assert(out@.len() == limit);
                }
            }
        },
    }
    out
}

/// Selects the window's priority operations as page items: the first
/// `limit` in partition order for Newer, the last `limit`, newest first,
/// for Older.
fn select_pop_items(
    pops: &Vec<PriorityOpRecord>,
    fs: &Vec<FilterIndexEntry>,
    addr: &[u8],
    token: Option<i32>,
    limit: u32,
    time_from: i64,
    direction: SearchDirection,
) -> (out: Vec<TransactionItem>)
    ensures
        ({
            let sel = pop_window_sel(pops@, fs@, addr@, token, time_from as int, direction);
            let n = if (limit as int) <= sel.len() { limit as int } else { sel.len() as int };
            &&& out@.len() == n
            &&& direction is Newer ==> forall|k: int| 0 <= k < out@.len() ==> item_from_pop(
                #[trigger] out@[k],
                sel[k],
            )
            &&& direction is Older ==> forall|k: int| 0 <= k < out@.len() ==> item_from_pop(
                #[trigger] out@[k],
                sel.reverse()[k],
            )
        }),
{
    let ghost pred = |r: PriorityOpRecord| pop_window_matches(
        r,
        fs@,
        addr@,
        token,
        time_from as int,
        direction,
    );
    let n = pops.len();
    let mut out: Vec<TransactionItem> = Vec::new();
    match direction {
        SearchDirection::Newer => {
            let mut i: usize = 0;
            proof {
                assert(pops@.take(0) =~= Seq::<PriorityOpRecord>::empty());
                reveal(Seq::filter);
            }
            while i < n && out.len() < limit as usize
                invariant
                    direction is Newer,
                    n == pops@.len(),
                    0 <= i <= n,
                    out@.len() <= limit,
                    out@.len() == limit || out@.len() == pops@.take(i as int).filter(pred).len(),
                    out@.len() <= pops@.take(i as int).filter(pred).len(),
                    forall|k: int| 0 <= k < out@.len() ==> item_from_pop(
                        #[trigger] out@[k],
                        pops@.take(i as int).filter(pred)[k],
                    ),
                    pred == (|r: PriorityOpRecord| pop_window_matches(
                        r,
                        fs@,
                        addr@,
                        token,
                        time_from as int,
                        direction,
                    )),
                decreases n - i,
            {
                let r = &pops[i];
                let in_window = r.created_at >= time_from;
                let matched = in_window && crate::filter_index::matches_addr_hash(
                    fs,
                    addr,
                    token,
                    r.tx_hash.as_slice(),
                );
                proof {
                    reveal(Seq::filter);
                    assert(pops@.take(i as int + 1).drop_last() =~= pops@.take(i as int));
                    assert(pops@.take(i as int + 1).last() == pops@[i as int]);
                    assert(matched == pred(pops@[i as int]));
                }
                if matched {
                    out.push(pop_transaction_item(&pops[i]));
                }
                i += 1;
            }
            proof {
                lemma_pop_filter_take_prefix(pops@, pred, i as int);
                assert(pops@.take(n as int) =~= pops@);
            }
        },
        SearchDirection::Older => {
            let mut i: usize = n;
            proof {
                assert(pops@.skip(n as int) =~= Seq::<PriorityOpRecord>::empty());
                reveal(Seq::filter);
            }
            while i > 0 && out.len() < limit as usize
                invariant
                    direction is Older,
                    n == pops@.len(),
                    0 <= i <= n,
                    out@.len() <= limit,
                    out@.len() == limit || out@.len() == pops@.skip(i as int).filter(pred).len(),
                    out@.len() <= pops@.skip(i as int).filter(pred).len(),
                    forall|k: int| 0 <= k < out@.len() ==> item_from_pop(
                        #[trigger] out@[k],
                        pops@.skip(i as int).filter(pred).reverse()[k],
                    ),
                    pred == (|r: PriorityOpRecord| pop_window_matches(
                        r,
                        fs@,
                        addr@,
                        token,
                        time_from as int,
                        direction,
                    )),
                decreases i,
            {
                let r = &pops[i - 1];
                let in_window = r.created_at <= time_from;
                let matched = in_window && crate::filter_index::matches_addr_hash(
                    fs,
                    addr,
                    token,
                    r.tx_hash.as_slice(),
                );
                proof {
                    lemma_pop_filter_skip_step(pops@, pred, i as int - 1);
                    assert(matched == pred(pops@[i as int - 1]));
                    if matched {
                        let fi = pops@.skip(i as int).filter(pred);
                        let fi1 = pops@.skip(i as int - 1).filter(pred);
                        assert(fi1 == seq![pops@[i as int - 1]] + fi);
                        assert forall|k: int| 0 <= k < fi.len() implies #[trigger] fi1.reverse()[k]
                            == fi.reverse()[k] by {
                            assert(fi1.reverse()[k] == fi1[fi1.len() - 1 - k]);
                            assert(fi1[fi1.len() - 1 - k] == fi[fi.len() - 1 - k]);
                        }
                        assert(fi1.reverse()[fi.len() as int] == fi1[0]);
                        assert(fi1[0] == pops@[i as int - 1]);
                    }
                }
                if matched && out.len() < limit as usize {
                    out.push(pop_transaction_item(&pops[i - 1]));
                }
                i -= 1;
            }
            proof {
                lemma_pop_filter_skip_suffix(pops@, pred, i as int);
                assert(pops@.skip(0) =~= pops@);
            }
        },
    }
    out
}

impl crate::schema::OperationsExtSchema {
    /// Selects the account's ordinary transactions in the time window:
    /// indexed under the address (and token, when given), created at or
    /// after the cursor's time for Newer, at or before it for Older; up to
    /// `limit` of them, nearest the window's edge first.
    pub fn get_executed_txs_for_account(
        &self,
        address: &[u8],
        token: Option<i32>,
        limit: u32,
        time_from: i64,
        direction: SearchDirection,
    ) -> (out: Vec<TransactionItem>)
        ensures
            ({
                let sel = tx_window_sel(
                    self.0.executed_txs@,
                    self.0.tx_filters@,
                    address@,
                    None,
                    token,
                    time_from as int,
                    direction,
                );
                let n = if (limit as int) <= sel.len() { limit as int } else { sel.len() as int };
                &&& out@.len() == n
                &&& direction is Newer ==> forall|k: int| 0 <= k < out@.len() ==> item_from_tx(
                    #[trigger] out@[k],
                    sel[k],
                )
                &&& direction is Older ==> forall|k: int| 0 <= k < out@.len() ==> item_from_tx(
                    #[trigger] out@[k],
                    sel.reverse()[k],
                )
            }),
    {
        select_tx_items(
            &self.0.executed_txs,
            &self.0.tx_filters,
            address,
            None,
            token,
            limit,
            time_from,
            direction,
        )
    }

    /// Selects the transactions the index links to both addresses in the
    /// time window. Priority operations are excluded: their sender and
    /// receiver model admits no symmetric pairing of two accounts.
    pub fn get_executed_transactions_for_two_accounts(
        &self,
        address: &[u8],
        second_address: &[u8],
        token: Option<i32>,
        limit: u32,
        time_from: i64,
        direction: SearchDirection,
    ) -> (out: Vec<TransactionItem>)
        ensures
            ({
                let sel = tx_window_sel(
                    self.0.executed_txs@,
                    self.0.tx_filters@,
                    address@,
                    Some(second_address@),
                    token,
                    time_from as int,
                    direction,
                );
                let n = if (limit as int) <= sel.len() { limit as int } else { sel.len() as int };
                &&& out@.len() == n
                &&& direction is Newer ==> forall|k: int| 0 <= k < out@.len() ==> item_from_tx(
                    #[trigger] out@[k],
                    sel[k],
                )
                &&& direction is Older ==> forall|k: int| 0 <= k < out@.len() ==> item_from_tx(
                    #[trigger] out@[k],
                    sel.reverse()[k],
                )
            }),
    {
        select_tx_items(
            &self.0.executed_txs,
            &self.0.tx_filters,
            address,
            Some(second_address),
            token,
            limit,
            time_from,
            direction,
        )
    }

    /// Selects the account's priority operations in the time window:
    /// indexed under the address (and token, when given); up to `limit`,
    /// nearest the window's edge first.
    pub fn get_priority_operations_for_account(
        &self,
        address: &[u8],
        token: Option<i32>,
        limit: u32,
        time_from: i64,
        direction: SearchDirection,
    ) -> (out: Vec<TransactionItem>)
        ensures
            ({
                let sel = pop_window_sel(
                    self.0.priority_ops@,
                    self.0.tx_filters@,
                    address@,
                    token,
                    time_from as int,
                    direction,
                );
                let n = if (limit as int) <= sel.len() { limit as int } else { sel.len() as int };
                &&& out@.len() == n
                &&& direction is Newer ==> forall|k: int| 0 <= k < out@.len() ==> item_from_pop(
                    #[trigger] out@[k],
                    sel[k],
                )
                &&& direction is Older ==> forall|k: int| 0 <= k < out@.len() ==> item_from_pop(
                    #[trigger] out@[k],
                    sel.reverse()[k],
                )
            }),
    {
        select_pop_items(
            &self.0.priority_ops,
            &self.0.tx_filters,
            address,
            token,
            limit,
            time_from,
            direction,
        )
    }
}

/// The merge of two sequences ascending by creation time: the earlier head
/// first, the first sequence preferred on ties.
pub open spec fn merge_time_asc(a: Seq<LedgerEntry>, b: Seq<LedgerEntry>) -> Seq<LedgerEntry>
    decreases a.len() + b.len(),
{
    if a.len() == 0 {
        b
    } else if b.len() == 0 {
        a
    } else if entry_created(a[0]) <= entry_created(b[0]) {
        seq![a[0]] + merge_time_asc(a.drop_first(), b)
    } else {
        seq![b[0]] + merge_time_asc(a, b.drop_first())
    }
}

/// The merge of two sequences descending by creation time: the later head
/// first, the first sequence preferred on ties.
pub open spec fn merge_time_desc(a: Seq<LedgerEntry>, b: Seq<LedgerEntry>) -> Seq<LedgerEntry>
    decreases a.len() + b.len(),
{
    if a.len() == 0 {
        b
    } else if b.len() == 0 {
        a
    } else if entry_created(a[0]) >= entry_created(b[0]) {
        seq![a[0]] + merge_time_desc(a.drop_first(), b)
    } else {
        seq![b[0]] + merge_time_desc(a, b.drop_first())
    }
}

/// The smaller of two values.
pub open spec fn imin(a: int, b: int) -> int {
    if a <= b {
        a
    } else {
        b
    }
}

/// The time merge, in either direction.
pub open spec fn merge_time(a: Seq<LedgerEntry>, b: Seq<LedgerEntry>, asc: bool) -> Seq<
    LedgerEntry,
> {
    if asc {
        merge_time_asc(a, b)
    } else {
        merge_time_desc(a, b)
    }
}

/// A time merge is as long as both inputs together.
pub proof fn lemma_merge_time_len(a: Seq<LedgerEntry>, b: Seq<LedgerEntry>, asc: bool)
    ensures
        merge_time(a, b, asc).len() == a.len() + b.len(),
    decreases a.len() + b.len(),
{
    if a.len() > 0 && b.len() > 0 {
        lemma_merge_time_len(a.drop_first(), b, asc);
        lemma_merge_time_len(a, b.drop_first(), asc);
    }
}

/// A prefix of a time merge depends only on like-sized prefixes of its
/// inputs: merging per-partition pages of size `k` and cutting to `k`
/// gives the same page as merging whole selections.
pub proof fn lemma_merge_time_take(a: Seq<LedgerEntry>, b: Seq<LedgerEntry>, k: int, asc: bool)
    requires
        k >= 0,
    ensures
        merge_time(a, b, asc).take(imin(k, a.len() + b.len() as int)) == merge_time(
            a.take(imin(k, a.len() as int)),
            b.take(imin(k, b.len() as int)),
            asc,
        ).take(imin(k, a.len() + b.len() as int)),
    decreases k, a.len() + b.len(),
{
    let ka = imin(k, a.len() as int);
    let kb = imin(k, b.len() as int);
    let m = merge_time(a, b, asc);
    let km = imin(k, a.len() + b.len() as int);
    lemma_merge_time_len(a, b, asc);
    if k == 0 {
        assert(m.take(km) =~= merge_time(a.take(ka), b.take(kb), asc).take(km));
    } else if a.len() == 0 {
        assert(a.take(ka) =~= a);
        assert(m == b);
        assert(b.take(kb).take(km) =~= b.take(km));
    } else if b.len() == 0 {
        assert(b.take(kb) =~= b);
        assert(m == a);
        assert(a.take(ka).take(km) =~= a.take(km));
    } else {
        let a_first = if asc {
            entry_created(a[0]) <= entry_created(b[0])
        } else {
            entry_created(a[0]) >= entry_created(b[0])
        };
        if a_first {
            let at = a.drop_first();
            let ka1 = imin(k - 1, at.len() as int);
            let kb1 = imin(k - 1, b.len() as int);
            let km1 = imin(k - 1, at.len() + b.len() as int);
            assert(m == seq![a[0]] + merge_time(at, b, asc));
            lemma_merge_time_take(at, b, k - 1, asc);
            assert(m.take(km) =~= seq![a[0]] + merge_time(at, b, asc).take(km1)) by {
                lemma_merge_time_len(at, b, asc);
            }
            // unfold the merge of the prefixes, which picks the same head
            assert(a.take(ka)[0] == a[0]);
            assert(b.take(kb)[0] == b[0]);
            let rhs = merge_time(a.take(ka), b.take(kb), asc);
            assert(rhs == seq![a[0]] + merge_time(a.take(ka).drop_first(), b.take(kb), asc));
            assert(a.take(ka).drop_first() =~= at.take(ka1));
            lemma_merge_time_take(at.take(ka1), b.take(kb), k - 1, asc);
            assert(at.take(ka1).take(imin(k - 1, at.take(ka1).len() as int)) =~= at.take(ka1));
            assert(b.take(kb).take(imin(k - 1, b.take(kb).len() as int)) =~= b.take(kb1));
            assert(imin(k - 1, at.take(ka1).len() + b.take(kb).len() as int) == km1) by {
                assert(ka1 + kb >= km1);
            }
            assert(merge_time(at.take(ka1), b.take(kb), asc).take(km1) == merge_time(
                at.take(ka1),
                b.take(kb1),
                asc,
            ).take(km1));
            assert(merge_time(at, b, asc).take(km1) == merge_time(at.take(ka1), b.take(kb1), asc).take(
                km1,
            ));
            assert(rhs.take(km) =~= seq![a[0]] + merge_time(at.take(ka1), b.take(kb), asc).take(
                km1,
            )) by {
                lemma_merge_time_len(at.take(ka1), b.take(kb), asc);
            }
        } else {
            let bt = b.drop_first();
            let ka1 = imin(k - 1, a.len() as int);
            let kb1 = imin(k - 1, bt.len() as int);
            let km1 = imin(k - 1, a.len() + bt.len() as int);
            assert(m == seq![b[0]] + merge_time(a, bt, asc));
            lemma_merge_time_take(a, bt, k - 1, asc);
            assert(m.take(km) =~= seq![b[0]] + merge_time(a, bt, asc).take(km1)) by {
                lemma_merge_time_len(a, bt, asc);
            }
            assert(a.take(ka)[0] == a[0]);
            assert(b.take(kb)[0] == b[0]);
            let rhs = merge_time(a.take(ka), b.take(kb), asc);
            assert(rhs == seq![b[0]] + merge_time(a.take(ka), b.take(kb).drop_first(), asc));
            assert(b.take(kb).drop_first() =~= bt.take(kb1));
            lemma_merge_time_take(a.take(ka), bt.take(kb1), k - 1, asc);
            assert(a.take(ka).take(imin(k - 1, a.take(ka).len() as int)) =~= a.take(ka1));
            assert(bt.take(kb1).take(imin(k - 1, bt.take(kb1).len() as int)) =~= bt.take(kb1));
            assert(imin(k - 1, a.take(ka).len() + bt.take(kb1).len() as int) == km1) by {
                assert(ka + kb1 >= km1);
            }
            assert(merge_time(a.take(ka), bt.take(kb1), asc).take(km1) == merge_time(
                a.take(ka1),
                bt.take(kb1),
                asc,
            ).take(km1));
            assert(merge_time(a, bt, asc).take(km1) == merge_time(a.take(ka1), bt.take(kb1), asc).take(
                km1,
            ));
            assert(rhs.take(km) =~= seq![b[0]] + merge_time(a.take(ka), bt.take(kb1), asc).take(
                km1,
            )) by {
                lemma_merge_time_len(a.take(ka), bt.take(kb1), asc);
            }
        }
    }
}

/// The highest block covered by a confirmed execute operation among the
/// first `n`; zero when there is none.
pub open spec fn last_verified_block(ops: Seq<AggregatedOperation>, n: int) -> int
    decreases n,
{
    if n <= 0 {
        0
    } else {
        let rest = last_verified_block(ops, n - 1);
        if ops[n - 1].action == AggregatedActionType::ExecuteBlocks && ops[n - 1].confirmed
            && ops[n - 1].to_block > rest {
            ops[n - 1].to_block as int
        } else {
            rest
        }
    }
}

/// Whether an item matches a merged-stream entry.
pub open spec fn item_matches_entry(item: TransactionItem, e: LedgerEntry) -> bool {
    match e {
        LedgerEntry::Tx(r) => item_from_tx(item, r),
        LedgerEntry::Pop(p) => item_from_pop(item, p),
    }
}

/// The transaction handed out for a merged-stream entry: its stored fields
/// and its finality state — rejected on failure, finalized once its block
/// is at or below the highest verified block, committed otherwise.
pub open spec fn transaction_represents(
    t: Transaction,
    e: LedgerEntry,
    last_verified: int,
) -> bool {
    match e {
        LedgerEntry::Tx(r) => {
            &&& t.tx_hash@ == r.tx_hash@
            &&& t.block_number == r.block_number
            &&& t.block_index == r.block_index
            &&& t.payload == r.payload
            &&& t.created_at == r.created_at
            &&& t.status == crate::status::spec_tx_status(
                r.success,
                r.block_number as int <= last_verified,
            )
            &&& t.fail_reason == r.fail_reason
            &&& t.batch_id == r.batch_id
        },
        LedgerEntry::Pop(p) => {
            &&& t.tx_hash@ == p.tx_hash@
            &&& t.block_number == p.block_number
            &&& t.block_index == p.block_index
            &&& t.payload == p.payload
            &&& t.created_at == p.created_at
            &&& t.status == crate::status::spec_tx_status(
                true,
                p.block_number as int <= last_verified,
            )
            &&& t.fail_reason is None
            &&& t.batch_id is None
        },
    }
}

/// Builds the transaction handed out for a selected item.
fn transaction_of_item(item: &TransactionItem, last_verified: u32) -> (t: Transaction)
    ensures
        t.tx_hash@ == item.tx_hash@,
        t.block_number == item.block_number,
        t.block_index == item.block_index,
        t.payload == item.payload,
        t.created_at == item.created_at,
        t.status == crate::status::spec_tx_status(
            item.success,
            item.block_number <= last_verified,
        ),
        t.fail_reason == item.fail_reason,
        t.batch_id == item.batch_id,
{
    let status = if !item.success {
        TxInBlockStatus::Rejected
    } else if item.block_number <= last_verified {
        TxInBlockStatus::Finalized
    } else {
        TxInBlockStatus::Committed
    };
    Transaction {
        tx_hash: crate::records::clone_bytes(&item.tx_hash),
        block_number: item.block_number,
        block_index: item.block_index,
        payload: item.payload.clone(),
        created_at: item.created_at,
        status,
        fail_reason: crate::records::clone_opt_string(&item.fail_reason),
        batch_id: item.batch_id,
    }
}

/// Merges the two selected item lists by creation time — ties prefer the
/// ordinary transactions, as does the stable ordering of the original —
/// cutting to `limit`, and resolves each entry's finality state.
fn merge_item_pages(
    a: &Vec<TransactionItem>,
    b: &Vec<TransactionItem>,
    limit: usize,
    last_verified: u32,
    asc: bool,
    Ghost(ea): Ghost<Seq<LedgerEntry>>,
    Ghost(eb): Ghost<Seq<LedgerEntry>>,
) -> (out: Vec<Transaction>)
    requires
        a@.len() == ea.len(),
        forall|k: int| 0 <= k < ea.len() ==> item_matches_entry(#[trigger] a@[k], ea[k]),
        b@.len() == eb.len(),
        forall|k: int| 0 <= k < eb.len() ==> item_matches_entry(#[trigger] b@[k], eb[k]),
    ensures
        ({
            let m = merge_time(ea, eb, asc);
            &&& out@.len() == imin(limit as int, m.len() as int)
            &&& forall|k: int| 0 <= k < out@.len() ==> transaction_represents(
                #[trigger] out@[k],
                m[k],
                last_verified as int,
            )
        }),
{
    let ghost m = merge_time(ea, eb, asc);
    proof {
        lemma_merge_time_len(ea, eb, asc);
        assert(ea.skip(0) =~= ea);
        assert(eb.skip(0) =~= eb);
        assert(m.skip(0) =~= m);
    }
    let na = a.len();
    let nb = b.len();
    let mut ia: usize = 0;
    let mut ib: usize = 0;
    let mut out: Vec<Transaction> = Vec::new();
    while (ia < na || ib < nb) && out.len() < limit
        invariant
            na == a@.len(),
            nb == b@.len(),
            a@.len() == ea.len(),
            forall|k: int| 0 <= k < ea.len() ==> item_matches_entry(#[trigger] a@[k], ea[k]),
            b@.len() == eb.len(),
            forall|k: int| 0 <= k < eb.len() ==> item_matches_entry(#[trigger] b@[k], eb[k]),
            0 <= ia <= na,
            0 <= ib <= nb,
            m == merge_time(ea, eb, asc),
            m.len() == ea.len() + eb.len(),
            merge_time(ea.skip(ia as int), eb.skip(ib as int), asc) == m.skip(ia as int + ib as int),
            out@.len() == ia + ib,
            out@.len() <= limit,
            forall|k: int| 0 <= k < out@.len() ==> transaction_represents(
                #[trigger] out@[k],
                m[k],
                last_verified as int,
            ),
        decreases m.len() - (ia + ib),
    {
        let take_a: bool = if ib == nb {
            true
        } else if ia == na {
            false
        } else {
            if asc {
                a[ia].created_at <= b[ib].created_at
            } else {
                a[ia].created_at >= b[ib].created_at
            }
        };
        if take_a {
            proof {
                let a1 = ea.skip(ia as int);
                let b1 = eb.skip(ib as int);
                assert(a1[0] == ea[ia as int]);
                assert(item_matches_entry(a@[ia as int], ea[ia as int]));
                if ib < nb {
                    assert(b1[0] == eb[ib as int]);
                    assert(item_matches_entry(b@[ib as int], eb[ib as int]));
                    if asc {
                        assert(entry_created(a1[0]) <= entry_created(b1[0]));
                    } else {
                        assert(entry_created(a1[0]) >= entry_created(b1[0]));
                    }
                }
                assert(merge_time(a1, b1, asc) == seq![a1[0]] + merge_time(a1.drop_first(), b1, asc));
                assert(a1.drop_first() =~= ea.skip(ia as int + 1));
                assert(m.skip(ia as int + ib as int)[0] == m[ia as int + ib as int]);
                assert(m[ia as int + ib as int] == ea[ia as int]);
                assert(m.skip(ia as int + ib as int).drop_first() =~= m.skip(
                    ia as int + ib as int + 1,
                ));
                assert((seq![a1[0]] + merge_time(a1.drop_first(), b1, asc)).drop_first()
                    =~= merge_time(a1.drop_first(), b1, asc));
                assert(merge_time(ea.skip(ia as int + 1), eb.skip(ib as int), asc) == m.skip(
                    ia as int + ib as int + 1,
                ));
            }
            let t = transaction_of_item(&a[ia], last_verified);
            proof {
                assert(transaction_represents(t, ea[ia as int], last_verified as int));
            }
            out.push(t);
            ia += 1;
        } else {
            proof {
                assert(ib < nb);
                let a1 = ea.skip(ia as int);
                let b1 = eb.skip(ib as int);
                assert(b1[0] == eb[ib as int]);
                assert(item_matches_entry(b@[ib as int], eb[ib as int]));
                if ia < na {
                    assert(a1[0] == ea[ia as int]);
                    assert(item_matches_entry(a@[ia as int], ea[ia as int]));
                    if asc {
                        assert(entry_created(b1[0]) < entry_created(a1[0]));
                    } else {
                        assert(entry_created(b1[0]) > entry_created(a1[0]));
                    }
                } else {
                    assert(a1.len() == 0);
                }
                assert(merge_time(a1, b1, asc) == seq![b1[0]] + merge_time(a1, b1.drop_first(), asc));
                assert(b1.drop_first() =~= eb.skip(ib as int + 1));
                assert(m.skip(ia as int + ib as int)[0] == m[ia as int + ib as int]);
                assert(m[ia as int + ib as int] == eb[ib as int]);
                assert(m.skip(ia as int + ib as int).drop_first() =~= m.skip(
                    ia as int + ib as int + 1,
                ));
                assert((seq![b1[0]] + merge_time(a1, b1.drop_first(), asc)).drop_first()
                    =~= merge_time(a1, b1.drop_first(), asc));
                assert(merge_time(ea.skip(ia as int), eb.skip(ib as int + 1), asc) == m.skip(
                    ia as int + ib as int + 1,
                ));
            }
            let t = transaction_of_item(&b[ib], last_verified);
            proof {
                assert(transaction_represents(t, eb[ib as int], last_verified as int));
            }
            out.push(t);
            ib += 1;
        }
    }
    out
}

/// The transactions, as merged-stream entries.
pub open spec fn tx_entries_of(s: Seq<TxRecord>) -> Seq<LedgerEntry> {
    s.map_values(|r: TxRecord| LedgerEntry::Tx(r))
}

/// The priority operations, as merged-stream entries.
pub open spec fn pop_entries_of(s: Seq<PriorityOpRecord>) -> Seq<LedgerEntry> {
    s.map_values(|r: PriorityOpRecord| LedgerEntry::Pop(r))
}

/// The entries of a time-windowed page: both windows merged by creation
/// time (ordinary transactions preferred on ties), cut to the limit —
/// ascending for Newer, descending for Older. With a second address, only
/// transactions the index links to both take part.
pub open spec fn account_txs_entries(
    store: crate::schema::StorageModel,
    addr: Seq<u8>,
    second: Option<Seq<u8>>,
    token: Option<i32>,
    time_from: int,
    direction: SearchDirection,
    limit: int,
) -> Seq<LedgerEntry> {
    let selt = tx_window_sel(
        store.executed_txs@,
        store.tx_filters@,
        addr,
        second,
        token,
        time_from,
        direction,
    );
    let ta = tx_entries_of(selt);
    match second {
        Some(_) => match direction {
            SearchDirection::Newer => ta.take(imin(limit, ta.len() as int)),
            SearchDirection::Older => ta.reverse().take(imin(limit, ta.len() as int)),
        },
        None => {
            let selp = pop_window_sel(
                store.priority_ops@,
                store.tx_filters@,
                addr,
                token,
                time_from,
                direction,
            );
            let pa = pop_entries_of(selp);
            match direction {
                SearchDirection::Newer => merge_time(ta, pa, true).take(
                    imin(limit, ta.len() + pa.len() as int),
                ),
                SearchDirection::Older => merge_time(ta.reverse(), pa.reverse(), false).take(
                    imin(limit, ta.len() + pa.len() as int),
                ),
            }
        },
    }
}

/// The hash a time-windowed page starts from: the given one, or the
/// account's most recent when none is given.
pub open spec fn start_hash_of(
    store: crate::schema::StorageModel,
    cursor: Option<Seq<u8>>,
    addr: Seq<u8>,
) -> Option<Seq<u8>> {
    match cursor {
        Some(h) => Some(h),
        None => match crate::lookups::account_last_entry(store, addr) {
            Some(e) => Some(crate::lookups::entry_tx_hash(e)),
            None => None,
        },
    }
}

/// A returned time-windowed page: as many transactions as the page's
/// entries, each representing its entry with the finality state resolved
/// against the highest verified block.
pub open spec fn account_txs_page_ok(
    store: crate::schema::StorageModel,
    addr: Seq<u8>,
    second: Option<Seq<u8>>,
    token: Option<i32>,
    time_from: int,
    direction: SearchDirection,
    limit: int,
    v: Seq<Transaction>,
) -> bool {
    let entries = account_txs_entries(store, addr, second, token, time_from, direction, limit);
    &&& v.len() == entries.len()
    &&& forall|k: int| 0 <= k < v.len() ==> transaction_represents(
        #[trigger] v[k],
        entries[k],
        last_verified_block(store.aggregated_ops@, store.aggregated_ops@.len() as int),
    )
}

impl crate::schema::OperationsExtSchema {
    /// The highest block covered by a confirmed execute operation; zero
    /// when none is confirmed.
    pub fn get_last_verified_confirmed_block(&self) -> (r: u32)
        ensures
            r as int == last_verified_block(
                self.0.aggregated_ops@,
                self.0.aggregated_ops@.len() as int,
            ),
    {
        let ops = &self.0.aggregated_ops;
        let n = ops.len();
        let mut best: u32 = 0;
        let mut i: usize = 0;
        while i < n
            invariant
                n == ops@.len(),
                0 <= i <= n,
                ops == self.0.aggregated_ops,
                best as int == last_verified_block(ops@, i as int),
            decreases n - i,
        {
            let op = ops[i];
            if op.confirmed && op.action == AggregatedActionType::ExecuteBlocks && op.to_block
                > best {
                best = op.to_block;
            }
            i += 1;
        }
        best
    }

    /// Loads the account's transactions around a hash cursor: the cursor
    /// hash (or, when none is given, the account's most recent hash) is
    /// resolved to its creation time, both partitions are selected from
    /// that moment onward or backward, merged by creation time and cut to
    /// `limit`, and every entry carries its resolved finality state. An
    /// account with no history yields an empty page; an unresolvable
    /// cursor hash yields nothing.
    pub fn get_account_transactions(
        &self,
        address: &[u8],
        tx_hash_cursor: Option<&[u8]>,
        second_address: Option<&[u8]>,
        token: Option<i32>,
        direction: SearchDirection,
        limit: u32,
    ) -> (r: Option<Vec<Transaction>>)
        ensures
            ({
                let txs = self.0.executed_txs@;
                let pops = self.0.priority_ops@;
                match start_hash_of(self.0, opt_addr_view(tx_hash_cursor), address@) {
                    None => r matches Some(v) && v@.len() == 0,
                    Some(h) => {
                        ||| exists|i: int|
                            {
                                &&& #[trigger] crate::lookups::first_tx_with_hash(txs, h, i)
                                &&& r matches Some(v) && account_txs_page_ok(
                                    self.0,
                                    address@,
                                    opt_addr_view(second_address),
                                    token,
                                    txs[i].created_at as int,
                                    direction,
                                    limit as int,
                                    v@,
                                )
                            }
                        ||| exists|i: int|
                            {
                                &&& crate::lookups::no_tx_with_hash(txs, h)
                                &&& #[trigger] crate::lookups::first_pop_with_tx_hash(pops, h, i)
                                &&& r matches Some(v) && account_txs_page_ok(
                                    self.0,
                                    address@,
                                    opt_addr_view(second_address),
                                    token,
                                    pops[i].created_at as int,
                                    direction,
                                    limit as int,
                                    v@,
                                )
                            }
                        ||| ({
                            &&& crate::lookups::no_tx_with_hash(txs, h)
                            &&& crate::lookups::no_pop_with_tx_hash(pops, h)
                            &&& r is None
                        })
                    },
                }
            }),
    {
        let resolved: Vec<u8> = match tx_hash_cursor {
            Some(h) => vstd::slice::slice_to_vec(h),
            None => {
                match self.get_account_last_tx_hash(address) {
                    Some(v) => v,
                    None => {
                        return Some(Vec::new());
                    },
                }
            },
        };
        let (time_from, _block) = match self.get_tx_created_at_and_block_number(
            resolved.as_slice(),
        ) {
            Some(pair) => pair,
            None => {
                return None;
            },
        };
        let last_verified = self.get_last_verified_confirmed_block();
        let asc = match direction {
            SearchDirection::Newer => true,
            SearchDirection::Older => false,
        };
        match second_address {
            Some(a2) => {
                let items = self.get_executed_transactions_for_two_accounts(
                    address,
                    a2,
                    token,
                    limit,
                    time_from,
                    direction,
                );
                let ghost selt = tx_window_sel(
                    self.0.executed_txs@,
                    self.0.tx_filters@,
                    address@,
                    Some(a2@),
                    token,
                    time_from as int,
                    direction,
                );
                let ghost entries = account_txs_entries(
                    self.0,
                    address@,
                    Some(a2@),
                    token,
                    time_from as int,
                    direction,
                    limit as int,
                );
                let n = items.len();
                let mut out: Vec<Transaction> = Vec::new();
                let mut k: usize = 0;
                proof {
                    assert(entries.len() == imin(limit as int, selt.len() as int));
                    assert forall|q: int| 0 <= q < n implies item_matches_entry(
                        #[trigger] items@[q],
                        entries[q],
                    ) by {
                        match direction {
                            SearchDirection::Newer => {
                                assert(item_from_tx(items@[q], selt[q]));
                                assert(entries[q] == tx_entries_of(selt)[q]);
                            },
                            SearchDirection::Older => {
                                assert(item_from_tx(items@[q], selt.reverse()[q]));
                                assert(entries[q] == tx_entries_of(selt).reverse()[q]);
                                assert(tx_entries_of(selt).reverse()[q] == tx_entries_of(selt)[
                                selt.len() - 1 - q]);
                            },
                        }
                    }
                }
                while k < n
                    invariant
                        n == items@.len(),
                        0 <= k <= n,
                        n == entries.len(),
                        forall|q: int| 0 <= q < n ==> item_matches_entry(
                            #[trigger] items@[q],
                            entries[q],
                        ),
                        out@.len() == k,
                        last_verified as int == last_verified_block(
                            self.0.aggregated_ops@,
                            self.0.aggregated_ops@.len() as int,
                        ),
                        forall|q: int| 0 <= q < k ==> transaction_represents(
                            #[trigger] out@[q],
                            entries[q],
                            last_verified as int,
                        ),
                    decreases n - k,
                {
                    let t = transaction_of_item(&items[k], last_verified);
                    proof {
                        assert(item_matches_entry(items@[k as int], entries[k as int]));
                    }
                    out.push(t);
                    k += 1;
                }
                Some(out)
            },
            None => {
                let t_items = self.get_executed_txs_for_account(
                    address,
                    token,
                    limit,
                    time_from,
                    direction,
                );
                let p_items = self.get_priority_operations_for_account(
                    address,
                    token,
                    limit,
                    time_from,
                    direction,
                );
                let ghost selt = tx_window_sel(
                    self.0.executed_txs@,
                    self.0.tx_filters@,
                    address@,
                    None,
                    token,
                    time_from as int,
                    direction,
                );
                let ghost selp = pop_window_sel(
                    self.0.priority_ops@,
                    self.0.tx_filters@,
                    address@,
                    token,
                    time_from as int,
                    direction,
                );
                let ghost full_a = if asc {
                    tx_entries_of(selt)
                } else {
                    tx_entries_of(selt).reverse()
                };
                let ghost full_b = if asc {
                    pop_entries_of(selp)
                } else {
                    pop_entries_of(selp).reverse()
                };
                let ghost ea = full_a.take(imin(limit as int, full_a.len() as int));
                let ghost eb = full_b.take(imin(limit as int, full_b.len() as int));
                proof {
                    assert(t_items@.len() == ea.len());
                    assert(p_items@.len() == eb.len());
                    assert forall|q: int| 0 <= q < ea.len() implies item_matches_entry(
                        #[trigger] t_items@[q],
                        ea[q],
                    ) by {
                        if asc {
                            assert(item_from_tx(t_items@[q], selt[q]));
                            assert(ea[q] == tx_entries_of(selt)[q]);
                        } else {
                            assert(item_from_tx(t_items@[q], selt.reverse()[q]));
                            assert(ea[q] == tx_entries_of(selt).reverse()[q]);
                            assert(tx_entries_of(selt).reverse()[q] == tx_entries_of(selt)[
                            selt.len() - 1 - q]);
                        }
                    }
                    assert forall|q: int| 0 <= q < eb.len() implies item_matches_entry(
                        #[trigger] p_items@[q],
                        eb[q],
                    ) by {
                        if asc {
                            assert(item_from_pop(p_items@[q], selp[q]));
                            assert(eb[q] == pop_entries_of(selp)[q]);
                        } else {
                            assert(item_from_pop(p_items@[q], selp.reverse()[q]));
                            assert(eb[q] == pop_entries_of(selp).reverse()[q]);
                            assert(pop_entries_of(selp).reverse()[q] == pop_entries_of(selp)[
                            selp.len() - 1 - q]);
                        }
                    }
                }
                let out = merge_item_pages(
                    &t_items,
                    &p_items,
                    limit as usize,
                    last_verified,
                    asc,
                    Ghost(ea),
                    Ghost(eb),
                );
                proof {
                    lemma_merge_time_take(full_a, full_b, limit as int, asc);
                    lemma_merge_time_len(full_a, full_b, asc);
                    lemma_merge_time_len(ea, eb, asc);
                    let entries = account_txs_entries(
                        self.0,
                        address@,
                        None,
                        token,
                        time_from as int,
                        direction,
                        limit as int,
                    );
                    let mfull = merge_time(full_a, full_b, asc);
                    let mcap = merge_time(ea, eb, asc);
                    let km = imin(limit as int, full_a.len() + full_b.len() as int);
                    assert(entries == mfull.take(km));
                    assert(mfull.take(km) == mcap.take(km));
                    assert(out@.len() == imin(limit as int, mcap.len() as int));
                    assert(out@.len() == km);
                    assert forall|q: int| 0 <= q < out@.len() implies transaction_represents(
                        #[trigger] out@[q],
                        entries[q],
                        last_verified as int,
                    ) by {
                        assert(entries[q] == mcap.take(km)[q]);
                        assert(mcap.take(km)[q] == mcap[q]);
                    }
                }
                Some(out)
            },
        }
    }
}

} // verus!

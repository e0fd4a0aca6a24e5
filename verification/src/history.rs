//! Cursor-based account history pages.
//!
//! A page request names an address, a cursor (an order key), a direction and
//! a limit. Matching entries of both partitions are selected, merged by
//! order key, truncated to the limit, and handed out with their status and
//! token symbols resolved. Cursor pages are stable under concurrent
//! appends: new blocks only enlarge block numbers, so an existing cursor's
//! range is unaffected.

use vstd::prelude::*;

use crate::codec::{eth_hash_text, sync_tx_hash_text};
use crate::enrich::enriched_ok;
use crate::merge::{
    cross_distinct, entry_lt, merge_asc, sorted_asc, LedgerEntry,
};
use crate::records::{
    AggregatedOperation, FilterIndexEntry, PriorityOpRecord, TokenInfo, TxPayload, TxRecord,
};
use crate::schema::{key_lt, txs_strictly_ascending, pops_strictly_ascending};
use crate::SearchDirection;

verus! {

/// One entry of an account history page, as handed out.
#[derive(Debug)]
pub struct TransactionsHistoryItem {
    pub block_number: u32,
    pub block_index: u32,
    pub hash: Option<String>,
    pub pq_id: Option<i64>,
    pub eth_block: Option<i64>,
    pub tx: TxPayload,
    pub success: Option<bool>,
    pub fail_reason: Option<String>,
    pub committed: bool,
    pub verified: bool,
    pub created_at: i64,
    pub batch_id: Option<i64>,
}

/// The filter index holds the (address, transaction) membership, under any
/// token.
pub open spec fn tx_in_filter(
    filters: Seq<FilterIndexEntry>,
    addr: Seq<u8>,
    hash: Seq<u8>,
) -> bool {
    exists|i: int| 0 <= i < filters.len() && (#[trigger] filters[i]).address@ == addr
        && filters[i].tx_hash@ == hash
}

/// Decides filter-index membership of a transaction hash for an address.
pub fn address_has_hash(filters: &Vec<FilterIndexEntry>, addr: &[u8], hash: &[u8]) -> (r: bool)
    ensures
        r == tx_in_filter(filters@, addr@, hash@),
{
    let n = filters.len();
    let mut i: usize = 0;
    while i < n
        invariant
            n == filters@.len(),
            0 <= i <= n,
            forall|j: int| 0 <= j < i ==> !((#[trigger] filters@[j]).address@ == addr@
                && filters@[j].tx_hash@ == hash@),
        decreases n - i,
    {
        if crate::records::bytes_eq(filters[i].address.as_slice(), addr)
            && crate::records::bytes_eq(filters[i].tx_hash.as_slice(), hash) {
            return true;
        }
        i += 1;
    }
    false
}

/// Whether an order key falls on the requested side of the cursor: strictly
/// below it for Older, strictly above it for Newer.
pub open spec fn in_page_range(
    block: int,
    index: int,
    cursor_block: int,
    cursor_index: int,
    direction: SearchDirection,
) -> bool {
    match direction {
        SearchDirection::Older => key_lt(block, index, cursor_block, cursor_index),
        SearchDirection::Newer => key_lt(cursor_block, cursor_index, block, index),
    }
}

/// An ordinary transaction belongs to the page when the filter index links
/// it to the address and its order key falls on the requested side of the
/// cursor.
pub open spec fn tx_matches_page(
    r: TxRecord,
    filters: Seq<FilterIndexEntry>,
    addr: Seq<u8>,
    cursor_block: int,
    cursor_index: int,
    direction: SearchDirection,
) -> bool {
    tx_in_filter(filters, addr, r.tx_hash@) && in_page_range(
        r.block_number as int,
        r.block_index as int,
        cursor_block,
        cursor_index,
        direction,
    )
}

/// A priority operation belongs to the page when the address is its source
/// or target and its order key falls on the requested side of the cursor.
pub open spec fn pop_matches_page(
    r: PriorityOpRecord,
    addr: Seq<u8>,
    cursor_block: int,
    cursor_index: int,
    direction: SearchDirection,
) -> bool {
    (r.from_account@ == addr || r.to_account@ == addr) && in_page_range(
        r.block_number as int,
        r.block_index as int,
        cursor_block,
        cursor_index,
        direction,
    )
}

/// The selected ordinary transactions, in partition order.
pub open spec fn tx_page_sel(
    txs: Seq<TxRecord>,
    filters: Seq<FilterIndexEntry>,
    addr: Seq<u8>,
    cursor_block: int,
    cursor_index: int,
    direction: SearchDirection,
) -> Seq<TxRecord> {
    txs.filter(|r: TxRecord| tx_matches_page(r, filters, addr, cursor_block, cursor_index, direction))
}

/// The selected priority operations, in partition order.
pub open spec fn pop_page_sel(
    pops: Seq<PriorityOpRecord>,
    addr: Seq<u8>,
    cursor_block: int,
    cursor_index: int,
    direction: SearchDirection,
) -> Seq<PriorityOpRecord> {
    pops.filter(|r: PriorityOpRecord| pop_matches_page(r, addr, cursor_block, cursor_index, direction))
}

/// Selects the page's ordinary transactions, as indices into the partition.
fn tx_select(
    txs: &Vec<TxRecord>,
    filters: &Vec<FilterIndexEntry>,
    addr: &[u8],
    cursor_block: u64,
    cursor_index: u64,
    direction: SearchDirection,
) -> (sel: Vec<usize>)
    ensures
        ({
            let picked = tx_page_sel(
                txs@,
                filters@,
                addr@,
                cursor_block as int,
                cursor_index as int,
                direction,
            );
            &&& sel@.len() == picked.len()
            &&& forall|k: int| 0 <= k < sel@.len() ==> (#[trigger] sel@[k]) < txs@.len()
                && txs@[sel@[k] as int] == picked[k]
        }),
{
    let ghost pred = |r: TxRecord| tx_matches_page(
        r,
        filters@,
        addr@,
        cursor_block as int,
        cursor_index as int,
        direction,
    );
    let n = txs.len();
    let mut sel: Vec<usize> = Vec::new();
    let mut i: usize = 0;
    proof {
        assert(txs@.take(0) =~= Seq::<TxRecord>::empty());
        reveal(Seq::filter);
    }
    while i < n
        invariant
            n == txs@.len(),
            0 <= i <= n,
            sel@.len() == txs@.take(i as int).filter(pred).len(),
            forall|k: int| 0 <= k < sel@.len() ==> (#[trigger] sel@[k]) < txs@.len()
                && txs@[sel@[k] as int] == txs@.take(i as int).filter(pred)[k],
            pred == (|r: TxRecord| tx_matches_page(
                r,
                filters@,
                addr@,
                cursor_block as int,
                cursor_index as int,
                direction,
            )),
        decreases n - i,
    {
        let r = &txs[i];
        let in_range = match direction {
            SearchDirection::Older => (r.block_number as u64) < cursor_block || ((
            r.block_number as u64) == cursor_block && (r.block_index as u64) < cursor_index),
            SearchDirection::Newer => (r.block_number as u64) > cursor_block || ((
            r.block_number as u64) == cursor_block && (r.block_index as u64) > cursor_index),
        };
        let matched = in_range && address_has_hash(filters, addr, r.tx_hash.as_slice());
        proof {
            reveal(Seq::filter);
            assert(txs@.take(i as int + 1).drop_last() =~= txs@.take(i as int));
            assert(txs@.take(i as int + 1).last() == txs@[i as int]);
            assert(matched == pred(txs@[i as int]));
        }
        if matched {
            sel.push(i);
        }
        i += 1;
    }
    proof {
        assert(txs@.take(n as int) =~= txs@);
    }
    sel
}

/// Selects the page's priority operations, as indices into the partition.
fn pop_select(
    pops: &Vec<PriorityOpRecord>,
    addr: &[u8],
    cursor_block: u64,
    cursor_index: u64,
    direction: SearchDirection,
) -> (sel: Vec<usize>)
    ensures
        ({
            let picked = pop_page_sel(
                pops@,
                addr@,
                cursor_block as int,
                cursor_index as int,
                direction,
            );
            &&& sel@.len() == picked.len()
            &&& forall|k: int| 0 <= k < sel@.len() ==> (#[trigger] sel@[k]) < pops@.len()
                && pops@[sel@[k] as int] == picked[k]
        }),
{
    let ghost pred = |r: PriorityOpRecord| pop_matches_page(
        r,
        addr@,
        cursor_block as int,
        cursor_index as int,
        direction,
    );
    let n = pops.len();
    let mut sel: Vec<usize> = Vec::new();
    let mut i: usize = 0;
    proof {
        assert(pops@.take(0) =~= Seq::<PriorityOpRecord>::empty());
        reveal(Seq::filter);
    }
    while i < n
        invariant
            n == pops@.len(),
            0 <= i <= n,
            sel@.len() == pops@.take(i as int).filter(pred).len(),
            forall|k: int| 0 <= k < sel@.len() ==> (#[trigger] sel@[k]) < pops@.len()
                && pops@[sel@[k] as int] == pops@.take(i as int).filter(pred)[k],
            pred == (|r: PriorityOpRecord| pop_matches_page(
                r,
                addr@,
                cursor_block as int,
                cursor_index as int,
                direction,
            )),
        decreases n - i,
    {
        let r = &pops[i];
        let in_range = match direction {
            SearchDirection::Older => (r.block_number as u64) < cursor_block || ((
            r.block_number as u64) == cursor_block && (r.block_index as u64) < cursor_index),
            SearchDirection::Newer => (r.block_number as u64) > cursor_block || ((
            r.block_number as u64) == cursor_block && (r.block_index as u64) > cursor_index),
        };
        let matched = in_range && (crate::records::bytes_eq(r.from_account.as_slice(), addr)
            || crate::records::bytes_eq(r.to_account.as_slice(), addr));
        proof {
            reveal(Seq::filter);
            assert(pops@.take(i as int + 1).drop_last() =~= pops@.take(i as int));
            assert(pops@.take(i as int + 1).last() == pops@[i as int]);
            assert(matched == pred(pops@[i as int]));
        }
        if matched {
            sel.push(i);
        }
        i += 1;
    }
    proof {
        assert(pops@.take(n as int) =~= pops@);
    }
    sel
}

/// The transactions, as merged-stream entries.
pub open spec fn tx_entries(s: Seq<TxRecord>) -> Seq<LedgerEntry> {
    s.map_values(|r: TxRecord| LedgerEntry::Tx(r))
}

/// The priority operations, as merged-stream entries.
pub open spec fn pop_entries(s: Seq<PriorityOpRecord>) -> Seq<LedgerEntry> {
    s.map_values(|r: PriorityOpRecord| LedgerEntry::Pop(r))
}

/// The page's merged event stream, ascending by order key: the two
/// selections merged.
pub open spec fn page_merged(
    txs: Seq<TxRecord>,
    pops: Seq<PriorityOpRecord>,
    filters: Seq<FilterIndexEntry>,
    addr: Seq<u8>,
    cursor_block: int,
    cursor_index: int,
    direction: SearchDirection,
) -> Seq<LedgerEntry> {
    merge_asc(
        tx_entries(tx_page_sel(txs, filters, addr, cursor_block, cursor_index, direction)),
        pop_entries(pop_page_sel(pops, addr, cursor_block, cursor_index, direction)),
    )
}

/// The page item derived from an ordinary transaction: its order key and
/// stored fields, the `sync-tx:`-prefixed hex hash, the finality flag
/// resolved against the confirmed execute ranges, and the payload with its
/// token field enriched.
pub open spec fn item_represents_tx(
    item: TransactionsHistoryItem,
    r: TxRecord,
    ops: Seq<AggregatedOperation>,
    tokens: Seq<TokenInfo>,
) -> bool {
    &&& item.block_number == r.block_number
    &&& item.block_index == r.block_index
    &&& item.hash matches Some(h) && h@ == sync_tx_hash_text(r.tx_hash@)
    &&& item.pq_id is None
    &&& item.eth_block is None
    &&& item.success == Some(r.success)
    &&& item.fail_reason == r.fail_reason
    &&& item.committed == true
    &&& item.verified == crate::status::spec_block_finalized(ops, r.block_number)
    &&& item.created_at == r.created_at
    &&& item.batch_id == r.batch_id
    &&& enriched_ok(r.payload, item.tx, tokens)
}

/// The page item derived from a priority operation: its order key and
/// stored fields, the `0x`-prefixed hex hash of its L1 hash, always
/// successful, the finality flag resolved against the confirmed execute
/// ranges, and the payload with its token field enriched.
pub open spec fn item_represents_pop(
    item: TransactionsHistoryItem,
    r: PriorityOpRecord,
    ops: Seq<AggregatedOperation>,
    tokens: Seq<TokenInfo>,
) -> bool {
    &&& item.block_number == r.block_number
    &&& item.block_index == r.block_index
    &&& item.hash matches Some(h) && h@ == eth_hash_text(r.eth_hash@)
    &&& item.pq_id == Some(r.serial_id)
    &&& item.eth_block == Some(r.eth_block)
    &&& item.success == Some(true)
    &&& item.fail_reason is None
    &&& item.committed == true
    &&& item.verified == crate::status::spec_block_finalized(ops, r.block_number)
    &&& item.created_at == r.created_at
    &&& item.batch_id is None
    &&& enriched_ok(r.payload, item.tx, tokens)
}

/// The page item derived from a merged-stream entry.
pub open spec fn item_represents(
    item: TransactionsHistoryItem,
    e: LedgerEntry,
    ops: Seq<AggregatedOperation>,
    tokens: Seq<TokenInfo>,
) -> bool {
    match e {
        LedgerEntry::Tx(r) => item_represents_tx(item, r, ops, tokens),
        LedgerEntry::Pop(r) => item_represents_pop(item, r, ops, tokens),
    }
}

/// Builds the page item for an ordinary transaction.
fn tx_history_item(
    r: &TxRecord,
    ops: &Vec<AggregatedOperation>,
    tokens: &Vec<TokenInfo>,
) -> (item: TransactionsHistoryItem)
    ensures
        item_represents_tx(item, *r, ops@, tokens@),
{
    TransactionsHistoryItem {
        block_number: r.block_number,
        block_index: r.block_index,
        hash: Some(crate::codec::sync_tx_hash_string(r.tx_hash.as_slice())),
        pq_id: None,
        eth_block: None,
        tx: crate::enrich::enrich_payload(&r.payload, tokens),
        success: Some(r.success),
        fail_reason: crate::records::clone_opt_string(&r.fail_reason),
        committed: true,
        verified: crate::status::is_block_finalized(ops, r.block_number),
        created_at: r.created_at,
        batch_id: r.batch_id,
    }
}

/// Builds the page item for a priority operation.
fn pop_history_item(
    r: &PriorityOpRecord,
    ops: &Vec<AggregatedOperation>,
    tokens: &Vec<TokenInfo>,
) -> (item: TransactionsHistoryItem)
    ensures
        item_represents_pop(item, *r, ops@, tokens@),
{
    TransactionsHistoryItem {
        block_number: r.block_number,
        block_index: r.block_index,
        hash: Some(crate::codec::eth_hash_string(r.eth_hash.as_slice())),
        pq_id: Some(r.serial_id),
        eth_block: Some(r.eth_block),
        tx: crate::enrich::enrich_payload(&r.payload, tokens),
        success: Some(true),
        fail_reason: None,
        committed: true,
        verified: crate::status::is_block_finalized(ops, r.block_number),
        created_at: r.created_at,
        batch_id: None,
    }
}

/// Filtering keeps the ordinary-transaction partition strictly ascending.
pub proof fn lemma_tx_filter_sorted(txs: Seq<TxRecord>, pred: spec_fn(TxRecord) -> bool)
    requires
        txs_strictly_ascending(txs),
    ensures
        txs_strictly_ascending(txs.filter(pred)),
    decreases txs.len(),
{
    reveal(Seq::filter);
    if txs.len() > 0 {
        let d = txs.drop_last();
        assert(txs_strictly_ascending(d));
        lemma_tx_filter_sorted(d, pred);
        let f = txs.filter(pred);
        let fd = d.filter(pred);
        if pred(txs.last()) {
            assert(f == fd.push(txs.last()));
            assert forall|i: int, j: int| 0 <= i < j < f.len() implies key_lt(
                (#[trigger] f[i]).block_number as int,
                f[i].block_index as int,
                (#[trigger] f[j]).block_number as int,
                f[j].block_index as int,
            ) by {
                if j < f.len() - 1 {
                    assert(f[i] == fd[i] && f[j] == fd[j]);
                } else {
                    assert(f[i] == fd[i]);
                    assert(fd.contains(fd[i]));
                    d.lemma_filter_contains_rev(pred, fd[i]);
                    assert(d.contains(fd[i]));
                    let k = choose|k: int| 0 <= k < d.len() && d[k] == fd[i];
                    assert(txs[k] == fd[i]);
                    assert(key_lt(
                        txs[k].block_number as int,
                        txs[k].block_index as int,
                        txs[txs.len() - 1].block_number as int,
                        txs[txs.len() - 1].block_index as int,
                    ));
                }
            }
        }
    }
}

/// Filtering keeps the priority-operation partition strictly ascending.
pub proof fn lemma_pop_filter_sorted(
    pops: Seq<PriorityOpRecord>,
    pred: spec_fn(PriorityOpRecord) -> bool,
)
    requires
        pops_strictly_ascending(pops),
    ensures
        pops_strictly_ascending(pops.filter(pred)),
    decreases pops.len(),
{
    reveal(Seq::filter);
    if pops.len() > 0 {
        let d = pops.drop_last();
        assert(pops_strictly_ascending(d));
        lemma_pop_filter_sorted(d, pred);
        let f = pops.filter(pred);
        let fd = d.filter(pred);
        if pred(pops.last()) {
            assert(f == fd.push(pops.last()));
            assert forall|i: int, j: int| 0 <= i < j < f.len() implies key_lt(
                (#[trigger] f[i]).block_number as int,
                f[i].block_index as int,
                (#[trigger] f[j]).block_number as int,
                f[j].block_index as int,
            ) by {
                if j < f.len() - 1 {
                    assert(f[i] == fd[i] && f[j] == fd[j]);
                } else {
                    assert(f[i] == fd[i]);
                    assert(fd.contains(fd[i]));
                    d.lemma_filter_contains_rev(pred, fd[i]);
                    assert(d.contains(fd[i]));
                    let k = choose|k: int| 0 <= k < d.len() && d[k] == fd[i];
                    assert(pops[k] == fd[i]);
                    assert(key_lt(
                        pops[k].block_number as int,
                        pops[k].block_index as int,
                        pops[pops.len() - 1].block_number as int,
                        pops[pops.len() - 1].block_index as int,
                    ));
                }
            }
        }
    }
}

/// The two page selections, as entry sequences, are each strictly
/// ascending and share no order key.
pub proof fn lemma_page_sel_wf(
    txs: Seq<TxRecord>,
    pops: Seq<PriorityOpRecord>,
    filters: Seq<FilterIndexEntry>,
    addr: Seq<u8>,
    cursor_block: int,
    cursor_index: int,
    direction: SearchDirection,
)
    requires
        txs_strictly_ascending(txs),
        pops_strictly_ascending(pops),
        crate::schema::keys_disjoint(txs, pops),
    ensures
        sorted_asc(tx_entries(tx_page_sel(txs, filters, addr, cursor_block, cursor_index, direction))),
        sorted_asc(pop_entries(pop_page_sel(pops, addr, cursor_block, cursor_index, direction))),
        cross_distinct(
            tx_entries(tx_page_sel(txs, filters, addr, cursor_block, cursor_index, direction)),
            pop_entries(pop_page_sel(pops, addr, cursor_block, cursor_index, direction)),
        ),
{
    let st = tx_page_sel(txs, filters, addr, cursor_block, cursor_index, direction);
    let sp = pop_page_sel(pops, addr, cursor_block, cursor_index, direction);
    let ea = tx_entries(st);
    let eb = pop_entries(sp);
    lemma_tx_filter_sorted(
        txs,
        |r: TxRecord| tx_matches_page(r, filters, addr, cursor_block, cursor_index, direction),
    );
    lemma_pop_filter_sorted(
        pops,
        |r: PriorityOpRecord| pop_matches_page(r, addr, cursor_block, cursor_index, direction),
    );
    assert forall|i: int, j: int| #![trigger ea[i], ea[j]] 0 <= i < j < ea.len() implies entry_lt(
        ea[i],
        ea[j],
    ) by {
        assert(ea[i] == LedgerEntry::Tx(st[i]));
        assert(ea[j] == LedgerEntry::Tx(st[j]));
    }
    assert forall|i: int, j: int| #![trigger eb[i], eb[j]] 0 <= i < j < eb.len() implies entry_lt(
        eb[i],
        eb[j],
    ) by {
        assert(eb[i] == LedgerEntry::Pop(sp[i]));
        assert(eb[j] == LedgerEntry::Pop(sp[j]));
    }
    assert forall|i: int, j: int| 0 <= i < ea.len() && 0 <= j < eb.len()
        implies !crate::merge::entry_key_eq(#[trigger] ea[i], #[trigger] eb[j]) by {
        assert(ea[i] == LedgerEntry::Tx(st[i]));
        assert(eb[j] == LedgerEntry::Pop(sp[j]));
        assert(st.contains(st[i]));
        txs.lemma_filter_contains_rev(
            |r: TxRecord| tx_matches_page(r, filters, addr, cursor_block, cursor_index, direction),
            st[i],
        );
        assert(txs.contains(st[i]));
        assert(sp.contains(sp[j]));
        pops.lemma_filter_contains_rev(
            |r: PriorityOpRecord| pop_matches_page(r, addr, cursor_block, cursor_index, direction),
            sp[j],
        );
        assert(pops.contains(sp[j]));
        let k1 = choose|k: int| 0 <= k < txs.len() && txs[k] == st[i];
        let k2 = choose|k: int| 0 <= k < pops.len() && pops[k] == sp[j];
        assert(!(txs[k1].block_number == pops[k2].block_number && txs[k1].block_index
            == pops[k2].block_index));
    }
}

/// Prefixes of sorted, key-disjoint sequences are sorted and key-disjoint.
proof fn lemma_take_wf(a: Seq<LedgerEntry>, b: Seq<LedgerEntry>, i: int, j: int)
    requires
        sorted_asc(a),
        sorted_asc(b),
        cross_distinct(a, b),
        0 <= i <= a.len(),
        0 <= j <= b.len(),
    ensures
        sorted_asc(a.take(i)),
        sorted_asc(b.take(j)),
        cross_distinct(a.take(i), b.take(j)),
{
    assert forall|p: int, q: int| #![trigger a.take(i)[p], a.take(i)[q]] 0 <= p < q < i implies entry_lt(
        a.take(i)[p],
        a.take(i)[q],
    ) by {
        assert(a.take(i)[p] == a[p] && a.take(i)[q] == a[q]);
    }
    assert forall|p: int, q: int| #![trigger b.take(j)[p], b.take(j)[q]] 0 <= p < q < j implies entry_lt(
        b.take(j)[p],
        b.take(j)[q],
    ) by {
        assert(b.take(j)[p] == b[p] && b.take(j)[q] == b[q]);
    }
    assert forall|p: int, q: int| 0 <= p < i && 0 <= q < j
        implies !crate::merge::entry_key_eq(#[trigger] a.take(i)[p], #[trigger] b.take(j)[q]) by {
        assert(a.take(i)[p] == a[p] && b.take(j)[q] == b[q]);
        assert(!crate::merge::entry_key_eq(a[p], b[q]));
    }
}

/// The descending window of a merged stream: what an Older page shows
/// after skipping `skip` entries from the newest end and taking up to
/// `limit`.
pub open spec fn desc_window(m: Seq<LedgerEntry>, skip: int, limit: int) -> Seq<LedgerEntry> {
    let lo = if skip <= m.len() { skip } else { m.len() as int };
    let hi = if skip + limit <= m.len() { skip + limit } else { m.len() as int };
    m.reverse().subrange(lo, hi)
}

/// Walks the two selections from the newest end, skipping `skip` entries
/// and collecting up to `limit` page items in descending order.
fn collect_desc(
    txs: &Vec<TxRecord>,
    pops: &Vec<PriorityOpRecord>,
    ops: &Vec<AggregatedOperation>,
    tokens: &Vec<TokenInfo>,
    sel_t: &Vec<usize>,
    sel_p: &Vec<usize>,
    skip: usize,
    limit: usize,
    Ghost(ta): Ghost<Seq<TxRecord>>,
    Ghost(pa): Ghost<Seq<PriorityOpRecord>>,
) -> (out: Vec<TransactionsHistoryItem>)
    requires
        sel_t@.len() == ta.len(),
        forall|k: int| 0 <= k < sel_t@.len() ==> (#[trigger] sel_t@[k]) < txs@.len()
            && txs@[sel_t@[k] as int] == ta[k],
        sel_p@.len() == pa.len(),
        forall|k: int| 0 <= k < sel_p@.len() ==> (#[trigger] sel_p@[k]) < pops@.len()
            && pops@[sel_p@[k] as int] == pa[k],
        sorted_asc(tx_entries(ta)),
        sorted_asc(pop_entries(pa)),
        cross_distinct(tx_entries(ta), pop_entries(pa)),
    ensures
        ({
            let m = merge_asc(tx_entries(ta), pop_entries(pa));
            let w = desc_window(m, skip as int, limit as int);
            &&& out@.len() == w.len()
            &&& forall|k: int| 0 <= k < out@.len() ==> item_represents(
                #[trigger] out@[k],
                w[k],
                ops@,
                tokens@,
            )
        }),
{
    let ghost ea = tx_entries(ta);
    let ghost eb = pop_entries(pa);
    let ghost m = merge_asc(ea, eb);
    proof {
        crate::merge::lemma_merge_asc_props(ea, eb);
    }
    let mut it: usize = sel_t.len();
    let mut ip: usize = sel_p.len();
    let mut skipped: usize = 0;
    let mut out: Vec<TransactionsHistoryItem> = Vec::new();
    proof {
        assert(ea.take(it as int) =~= ea);
        assert(eb.take(ip as int) =~= eb);
        assert(m.take(it as int + ip as int) =~= m);
    }
    while (it > 0 || ip > 0) && (skipped < skip || out.len() < limit)
        invariant
            it <= ta.len(),
            ip <= pa.len(),
            sel_t@.len() == ta.len(),
            forall|k: int| 0 <= k < sel_t@.len() ==> (#[trigger] sel_t@[k]) < txs@.len()
                && txs@[sel_t@[k] as int] == ta[k],
            sel_p@.len() == pa.len(),
            forall|k: int| 0 <= k < sel_p@.len() ==> (#[trigger] sel_p@[k]) < pops@.len()
                && pops@[sel_p@[k] as int] == pa[k],
            ea == tx_entries(ta),
            eb == pop_entries(pa),
            m == merge_asc(ea, eb),
            sorted_asc(ea),
            sorted_asc(eb),
            cross_distinct(ea, eb),
            m.len() == ta.len() + pa.len(),
            merge_asc(ea.take(it as int), eb.take(ip as int)) == m.take(it as int + ip as int),
            skipped <= skip,
            out@.len() <= limit,
            skipped + out@.len() + it + ip == m.len(),
            out@.len() > 0 ==> skipped == skip,
            forall|k: int| 0 <= k < out@.len() ==> item_represents(
                #[trigger] out@[k],
                m[m.len() - 1 - skipped - k],
                ops@,
                tokens@,
            ),
        decreases it + ip,
    {
        let take_tx: bool = if ip == 0 {
            true
        } else if it == 0 {
            false
        } else {
            let rt = &txs[sel_t[it - 1]];
            let rp = &pops[sel_p[ip - 1]];
            rt.block_number > rp.block_number || (rt.block_number == rp.block_number
                && rt.block_index > rp.block_index)
        };
        proof {
            lemma_take_wf(ea, eb, it as int, ip as int);
            if it > 0 && ip > 0 {
                assert(!crate::merge::entry_key_eq(ea[it - 1], eb[ip - 1]));
                assert(ea[it - 1] == LedgerEntry::Tx(ta[it - 1]));
                assert(eb[ip - 1] == LedgerEntry::Pop(pa[ip - 1]));
            }
        }
        if take_tx {
            proof {
                assert(it > 0) by {
                    if it == 0 {
                        assert(ip == 0);
                    }
                }
                let a1 = ea.take(it as int);
                let b1 = eb.take(ip as int);
                assert(a1.last() == ea[it - 1]);
                if ip > 0 {
                    assert(b1.last() == eb[ip - 1]);
                    assert(entry_lt(b1.last(), a1.last()));
                }
                crate::merge::lemma_merge_asc_peel(a1, b1);
                assert(a1.drop_last() =~= ea.take(it as int - 1));
                assert(m.take(it as int + ip as int) == merge_asc(
                    ea.take(it as int - 1),
                    b1,
                ).push(ea[it - 1]));
                assert(m.take(it as int + ip as int).last() == m[it as int + ip as int - 1]);
                assert(m[it as int + ip as int - 1] == ea[it - 1]);
                assert(m.take(it as int + ip as int).drop_last() =~= m.take(
                    it as int + ip as int - 1,
                ));
                assert(merge_asc(ea.take(it as int - 1), eb.take(ip as int)) == m.take(
                    it as int + ip as int - 1,
                ));
            }
            let r = &txs[sel_t[it - 1]];
            it -= 1;
            if skipped < skip {
                skipped += 1;
            } else {
                let item = tx_history_item(r, ops, tokens);
                proof {
                    assert(item_represents(item, LedgerEntry::Tx(ta[it as int]), ops@, tokens@));
                }
                out.push(item);
            }
        } else {
            proof {
                assert(ip > 0);
                let a1 = ea.take(it as int);
                let b1 = eb.take(ip as int);
                assert(b1.last() == eb[ip - 1]);
                if it > 0 {
                    assert(a1.last() == ea[it - 1]);
                    assert(entry_lt(a1.last(), b1.last()));
                }
                crate::merge::lemma_merge_asc_peel_second(a1, b1);
                assert(b1.drop_last() =~= eb.take(ip as int - 1));
                assert(m.take(it as int + ip as int) == merge_asc(
                    a1,
                    eb.take(ip as int - 1),
                ).push(eb[ip - 1]));
                assert(m.take(it as int + ip as int).last() == m[it as int + ip as int - 1]);
                assert(m[it as int + ip as int - 1] == eb[ip - 1]);
                assert(m.take(it as int + ip as int).drop_last() =~= m.take(
                    it as int + ip as int - 1,
                ));
                assert(merge_asc(ea.take(it as int), eb.take(ip as int - 1)) == m.take(
                    it as int + ip as int - 1,
                ));
            }
            let r = &pops[sel_p[ip - 1]];
            ip -= 1;
            if skipped < skip {
                skipped += 1;
            } else {
                let item = pop_history_item(r, ops, tokens);
                proof {
                    assert(item_represents(item, LedgerEntry::Pop(pa[ip as int]), ops@, tokens@));
                }
                out.push(item);
            }
        }
    }
    proof {
        let w = desc_window(m, skip as int, limit as int);
        if it == 0 && ip == 0 {
            if m.len() <= skip {
                assert(out@.len() == 0);
                assert(w.len() == 0);
            } else {
                assert(out@.len() > 0 || m.len() == skipped);
                assert(skipped == skip);
                assert(out@.len() == m.len() - skip);
                assert(w =~= m.reverse().subrange(
                    skip as int,
                    if skip + limit <= m.len() { skip as int + limit as int } else { m.len() as int },
                ));
            }
        } else {
            assert(skipped == skip && out@.len() == limit);
        }
        assert forall|k: int| 0 <= k < out@.len() implies item_represents(
            #[trigger] out@[k],
            w[k],
            ops@,
            tokens@,
        ) by {
            assert(skipped == skip);
            assert(w[k] == m.reverse()[skip + k]);
            assert(m.reverse()[skip + k] == m[m.len() - 1 - skip - k]);
        }
    }
    out
}

/// Walks the two selections from the oldest end, collecting up to `limit`
/// page items in ascending order.
fn collect_asc(
    txs: &Vec<TxRecord>,
    pops: &Vec<PriorityOpRecord>,
    ops: &Vec<AggregatedOperation>,
    tokens: &Vec<TokenInfo>,
    sel_t: &Vec<usize>,
    sel_p: &Vec<usize>,
    limit: usize,
    Ghost(ta): Ghost<Seq<TxRecord>>,
    Ghost(pa): Ghost<Seq<PriorityOpRecord>>,
) -> (out: Vec<TransactionsHistoryItem>)
    requires
        sel_t@.len() == ta.len(),
        forall|k: int| 0 <= k < sel_t@.len() ==> (#[trigger] sel_t@[k]) < txs@.len()
            && txs@[sel_t@[k] as int] == ta[k],
        sel_p@.len() == pa.len(),
        forall|k: int| 0 <= k < sel_p@.len() ==> (#[trigger] sel_p@[k]) < pops@.len()
            && pops@[sel_p@[k] as int] == pa[k],
        sorted_asc(tx_entries(ta)),
        sorted_asc(pop_entries(pa)),
        cross_distinct(tx_entries(ta), pop_entries(pa)),
    ensures
        ({
            let m = merge_asc(tx_entries(ta), pop_entries(pa));
            let n = if limit <= m.len() { limit as int } else { m.len() as int };
            &&& out@.len() == n
            &&& forall|k: int| 0 <= k < out@.len() ==> item_represents(
                #[trigger] out@[k],
                m[k],
                ops@,
                tokens@,
            )
        }),
{
    let ghost ea = tx_entries(ta);
    let ghost eb = pop_entries(pa);
    let ghost m = merge_asc(ea, eb);
    proof {
        crate::merge::lemma_merge_asc_props(ea, eb);
    }
    let nt = sel_t.len();
    let np = sel_p.len();
    let mut it: usize = 0;
    let mut ip: usize = 0;
    let mut out: Vec<TransactionsHistoryItem> = Vec::new();
    proof {
        assert(ea.skip(0) =~= ea);
        assert(eb.skip(0) =~= eb);
        assert(m.skip(0) =~= m);
    }
    while (it < nt || ip < np) && out.len() < limit
        invariant
            it <= nt,
            ip <= np,
            nt == ta.len(),
            np == pa.len(),
            sel_t@.len() == ta.len(),
            forall|k: int| 0 <= k < sel_t@.len() ==> (#[trigger] sel_t@[k]) < txs@.len()
                && txs@[sel_t@[k] as int] == ta[k],
            sel_p@.len() == pa.len(),
            forall|k: int| 0 <= k < sel_p@.len() ==> (#[trigger] sel_p@[k]) < pops@.len()
                && pops@[sel_p@[k] as int] == pa[k],
            ea == tx_entries(ta),
            eb == pop_entries(pa),
            m == merge_asc(ea, eb),
            sorted_asc(ea),
            sorted_asc(eb),
            cross_distinct(ea, eb),
            m.len() == ta.len() + pa.len(),
            merge_asc(ea.skip(it as int), eb.skip(ip as int)) == m.skip(it as int + ip as int),
            out@.len() == it + ip,
            out@.len() <= limit,
            forall|k: int| 0 <= k < out@.len() ==> item_represents(
                #[trigger] out@[k],
                m[k],
                ops@,
                tokens@,
            ),
        decreases m.len() - (it + ip),
    {
        let take_tx: bool = if ip == np {
            true
        } else if it == nt {
            false
        } else {
            let rt = &txs[sel_t[it]];
            let rp = &pops[sel_p[ip]];
            rt.block_number < rp.block_number || (rt.block_number == rp.block_number
                && rt.block_index < rp.block_index)
        };
        proof {
            if it < nt && ip < np {
                assert(!crate::merge::entry_key_eq(ea[it as int], eb[ip as int]));
                assert(ea[it as int] == LedgerEntry::Tx(ta[it as int]));
                assert(eb[ip as int] == LedgerEntry::Pop(pa[ip as int]));
            }
        }
        if take_tx {
            proof {
                let a1 = ea.skip(it as int);
                let b1 = eb.skip(ip as int);
                assert(a1[0] == ea[it as int]);
                if ip < np {
                    assert(b1[0] == eb[ip as int]);
                    assert(entry_lt(a1[0], b1[0]));
                    assert(!entry_lt(b1[0], a1[0]));
                }
                assert(merge_asc(a1, b1) == seq![a1[0]] + merge_asc(a1.drop_first(), b1));
                assert(a1.drop_first() =~= ea.skip(it as int + 1));
                assert(m.skip(it as int + ip as int)[0] == m[it as int + ip as int]);
                assert(m[it as int + ip as int] == ea[it as int]);
                assert(m.skip(it as int + ip as int).drop_first() =~= m.skip(
                    it as int + ip as int + 1,
                ));
                assert((seq![a1[0]] + merge_asc(a1.drop_first(), b1)).drop_first()
                    =~= merge_asc(a1.drop_first(), b1));
                assert(merge_asc(ea.skip(it as int + 1), eb.skip(ip as int)) == m.skip(
                    it as int + ip as int + 1,
                ));
            }
            let item = tx_history_item(&txs[sel_t[it]], ops, tokens);
            proof {
                assert(item_represents(item, LedgerEntry::Tx(ta[it as int]), ops@, tokens@));
            }
            out.push(item);
            it += 1;
        } else {
            proof {
                assert(ip < np);
                let a1 = ea.skip(it as int);
                let b1 = eb.skip(ip as int);
                assert(b1[0] == eb[ip as int]);
                if it < nt {
                    assert(a1[0] == ea[it as int]);
                    assert(entry_lt(b1[0], a1[0]));
                } else {
                    assert(a1.len() == 0);
                }
                assert(merge_asc(a1, b1) == seq![b1[0]] + merge_asc(a1, b1.drop_first()));
                assert(b1.drop_first() =~= eb.skip(ip as int + 1));
                assert(m.skip(it as int + ip as int)[0] == m[it as int + ip as int]);
                assert(m[it as int + ip as int] == eb[ip as int]);
                assert(m.skip(it as int + ip as int).drop_first() =~= m.skip(
                    it as int + ip as int + 1,
                ));
                assert((seq![b1[0]] + merge_asc(a1, b1.drop_first())).drop_first()
                    =~= merge_asc(a1, b1.drop_first()));
                assert(merge_asc(ea.skip(it as int), eb.skip(ip as int + 1)) == m.skip(
                    it as int + ip as int + 1,
                ));
            }
            let item = pop_history_item(&pops[sel_p[ip]], ops, tokens);
            proof {
                assert(item_represents(item, LedgerEntry::Pop(pa[ip as int]), ops@, tokens@));
            }
            out.push(item);
            ip += 1;
        }
    }
    out
}

/// The entries of a cursor page: the merged selection, cut to the limit
/// from the cursor outward — descending for Older, ascending for Newer.
pub open spec fn history_from_entries(
    store: crate::schema::StorageModel,
    addr: Seq<u8>,
    cursor_block: int,
    cursor_index: int,
    direction: SearchDirection,
    limit: int,
) -> Seq<LedgerEntry> {
    let m = page_merged(
        store.executed_txs@,
        store.priority_ops@,
        store.tx_filters@,
        addr,
        cursor_block,
        cursor_index,
        direction,
    );
    match direction {
        SearchDirection::Older => desc_window(m, 0, limit),
        SearchDirection::Newer => m.take(if limit <= m.len() { limit } else { m.len() as int }),
    }
}

/// The entries of a legacy offset page: the merged full history of the
/// address, descending, with `offset` entries skipped and up to `limit`
/// taken. Offset pages are not stable under concurrent appends; cursor
/// pages are.
pub open spec fn history_offset_entries(
    store: crate::schema::StorageModel,
    addr: Seq<u8>,
    offset: int,
    limit: int,
) -> Seq<LedgerEntry> {
    let m = page_merged(
        store.executed_txs@,
        store.priority_ops@,
        store.tx_filters@,
        addr,
        u64::MAX as int,
        u64::MAX as int,
        SearchDirection::Older,
    );
    desc_window(m, offset, limit)
}

impl crate::schema::OperationsExtSchema {
    /// Loads the page of the account's history adjacent to the given
    /// transaction position: entries strictly older or strictly newer than
    /// the (block number, intra-block position) cursor, at most `limit` of
    /// them, nearest the cursor first. Entries carry resolved finality
    /// flags and enriched token symbols. Unlike the offset page, this page
    /// is stable when new blocks arrive between calls.
    pub fn get_account_transactions_history_from(
        &self,
        address: &[u8],
        tx_id: (u64, u64),
        direction: SearchDirection,
        limit: u64,
    ) -> (r: Vec<TransactionsHistoryItem>)
        requires
            self.0.wf(),
            limit <= usize::MAX,
        ensures
            ({
                let entries = history_from_entries(
                    self.0,
                    address@,
                    tx_id.0 as int,
                    tx_id.1 as int,
                    direction,
                    limit as int,
                );
                &&& r@.len() == entries.len()
                &&& forall|k: int| 0 <= k < r@.len() ==> item_represents(
                    #[trigger] r@[k],
                    entries[k],
                    self.0.aggregated_ops@,
                    self.0.tokens@,
                )
            }),
    {
        let (cursor_block, cursor_index) = tx_id;
        let store = &self.0;
        let sel_t = tx_select(
            &store.executed_txs,
            &store.tx_filters,
            address,
            cursor_block,
            cursor_index,
            direction,
        );
        let sel_p = pop_select(
            &store.priority_ops,
            address,
            cursor_block,
            cursor_index,
            direction,
        );
        let ghost ta = tx_page_sel(
            store.executed_txs@,
            store.tx_filters@,
            address@,
            cursor_block as int,
            cursor_index as int,
            direction,
        );
        let ghost pa = pop_page_sel(
            store.priority_ops@,
            address@,
            cursor_block as int,
            cursor_index as int,
            direction,
        );
        proof {
            lemma_page_sel_wf(
                store.executed_txs@,
                store.priority_ops@,
                store.tx_filters@,
                address@,
                cursor_block as int,
                cursor_index as int,
                direction,
            );
        }
        match direction {
            SearchDirection::Older => collect_desc(
                &store.executed_txs,
                &store.priority_ops,
                &store.aggregated_ops,
                &store.tokens,
                &sel_t,
                &sel_p,
                0,
                limit as usize,
                Ghost(ta),
                Ghost(pa),
            ),
            SearchDirection::Newer => collect_asc(
                &store.executed_txs,
                &store.priority_ops,
                &store.aggregated_ops,
                &store.tokens,
                &sel_t,
                &sel_p,
                limit as usize,
                Ghost(ta),
                Ghost(pa),
            ),
        }
    }

    /// Loads the legacy offset page of the account's history: the full
    /// descending history with `offset` entries skipped and up to `limit`
    /// taken. Deliberately kept: pages may duplicate or skip entries when
    /// new blocks arrive between calls.
    pub fn get_account_transactions_history(
        &self,
        address: &[u8],
        offset: u64,
        limit: u64,
    ) -> (r: Vec<TransactionsHistoryItem>)
        requires
            self.0.wf(),
            offset <= usize::MAX,
            limit <= usize::MAX,
        ensures
            ({
                let entries = history_offset_entries(
                    self.0,
                    address@,
                    offset as int,
                    limit as int,
                );
                &&& r@.len() == entries.len()
                &&& forall|k: int| 0 <= k < r@.len() ==> item_represents(
                    #[trigger] r@[k],
                    entries[k],
                    self.0.aggregated_ops@,
                    self.0.tokens@,
                )
            }),
    {
        let store = &self.0;
        let sel_t = tx_select(
            &store.executed_txs,
            &store.tx_filters,
            address,
            u64::MAX,
            u64::MAX,
            SearchDirection::Older,
        );
        let sel_p = pop_select(
            &store.priority_ops,
            address,
            u64::MAX,
            u64::MAX,
            SearchDirection::Older,
        );
        let ghost ta = tx_page_sel(
            store.executed_txs@,
            store.tx_filters@,
            address@,
            u64::MAX as int,
            u64::MAX as int,
            SearchDirection::Older,
        );
        let ghost pa = pop_page_sel(
            store.priority_ops@,
            address@,
            u64::MAX as int,
            u64::MAX as int,
            SearchDirection::Older,
        );
        proof {
            lemma_page_sel_wf(
                store.executed_txs@,
                store.priority_ops@,
                store.tx_filters@,
                address@,
                u64::MAX as int,
                u64::MAX as int,
                SearchDirection::Older,
            );
        }
        collect_desc(
            &store.executed_txs,
            &store.priority_ops,
            &store.aggregated_ops,
            &store.tokens,
            &sel_t,
            &sel_p,
            offset as usize,
            limit as usize,
            Ghost(ta),
            Ghost(pa),
        )
    }
}

/// Order invariant of a page: in an Older page adjacent entries descend
/// strictly by order key; in a Newer page they ascend strictly.
pub proof fn lemma_history_page_order(
    store: crate::schema::StorageModel,
    addr: Seq<u8>,
    cursor_block: int,
    cursor_index: int,
    direction: SearchDirection,
    limit: int,
)
    requires
        store.wf(),
        limit >= 0,
    ensures
        direction is Older ==> crate::merge::sorted_desc(
            history_from_entries(store, addr, cursor_block, cursor_index, direction, limit),
        ),
        direction is Newer ==> sorted_asc(
            history_from_entries(store, addr, cursor_block, cursor_index, direction, limit),
        ),
{
    let ta = tx_page_sel(
        store.executed_txs@,
        store.tx_filters@,
        addr,
        cursor_block,
        cursor_index,
        direction,
    );
    let pa = pop_page_sel(store.priority_ops@, addr, cursor_block, cursor_index, direction);
    lemma_page_sel_wf(
        store.executed_txs@,
        store.priority_ops@,
        store.tx_filters@,
        addr,
        cursor_block,
        cursor_index,
        direction,
    );
    crate::merge::lemma_merge_asc_props(tx_entries(ta), pop_entries(pa));
    let m = page_merged(
        store.executed_txs@,
        store.priority_ops@,
        store.tx_filters@,
        addr,
        cursor_block,
        cursor_index,
        direction,
    );
    let page = history_from_entries(store, addr, cursor_block, cursor_index, direction, limit);
    match direction {
        SearchDirection::Older => {
            assert forall|i: int, j: int| #![trigger page[i], page[j]] 0 <= i < j < page.len()
                implies entry_lt(page[j], page[i]) by {
                assert(page[i] == m.reverse()[i]);
                assert(page[j] == m.reverse()[j]);
                assert(m.reverse()[i] == m[m.len() - 1 - i]);
                assert(m.reverse()[j] == m[m.len() - 1 - j]);
            }
        },
        SearchDirection::Newer => {
            assert forall|i: int, j: int| #![trigger page[i], page[j]] 0 <= i < j < page.len()
                implies entry_lt(page[i], page[j]) by {
                assert(page[i] == m[i]);
                assert(page[j] == m[j]);
            }
        },
    }
}

/// Membership in a filtered sequence is membership plus the predicate.
proof fn lemma_entry_filter_membership(
    s: Seq<LedgerEntry>,
    p: spec_fn(LedgerEntry) -> bool,
    x: LedgerEntry,
)
    ensures
        s.filter(p).contains(x) <==> (s.contains(x) && p(x)),
{
    if s.filter(p).contains(x) {
        let i = choose|i: int| 0 <= i < s.filter(p).len() && s.filter(p)[i] == x;
        s.lemma_filter_pred(p, i);
        s.lemma_filter_contains_rev(p, x);
    }
    if s.contains(x) && p(x) {
        let i = choose|i: int| 0 <= i < s.len() && s[i] == x;
        s.lemma_filter_contains(p, i);
    }
}

/// Filtering keeps an entry sequence strictly ascending.
proof fn lemma_entry_filter_sorted(s: Seq<LedgerEntry>, p: spec_fn(LedgerEntry) -> bool)
    requires
        sorted_asc(s),
    ensures
        sorted_asc(s.filter(p)),
    decreases s.len(),
{
    reveal(Seq::filter);
    if s.len() > 0 {
        let d = s.drop_last();
        assert(sorted_asc(d));
        lemma_entry_filter_sorted(d, p);
        let f = s.filter(p);
        let fd = d.filter(p);
        if p(s.last()) {
            assert(f == fd.push(s.last()));
            assert forall|i: int, j: int| #![trigger f[i], f[j]] 0 <= i < j < f.len() implies entry_lt(
                f[i],
                f[j],
            ) by {
                if j < f.len() - 1 {
                    assert(f[i] == fd[i] && f[j] == fd[j]);
                } else {
                    assert(f[i] == fd[i]);
                    assert(fd.contains(fd[i]));
                    d.lemma_filter_contains_rev(p, fd[i]);
                    let k = choose|k: int| 0 <= k < d.len() && d[k] == fd[i];
                    assert(s[k] == fd[i]);
                    assert(entry_lt(s[k], s[s.len() - 1]));
                }
            }
        }
    }
}

/// Membership in the transaction-entry lifting.
proof fn lemma_tx_entries_contains(s: Seq<TxRecord>, x: LedgerEntry)
    ensures
        tx_entries(s).contains(x) <==> exists|i: int| 0 <= i < s.len() && x == LedgerEntry::Tx(
            s[i],
        ),
{
    if tx_entries(s).contains(x) {
        let i = choose|i: int| 0 <= i < tx_entries(s).len() && tx_entries(s)[i] == x;
        assert(x == LedgerEntry::Tx(s[i]));
    }
    if exists|i: int| 0 <= i < s.len() && x == LedgerEntry::Tx(s[i]) {
        let i = choose|i: int| 0 <= i < s.len() && x == LedgerEntry::Tx(s[i]);
        assert(tx_entries(s)[i] == x);
        assert(tx_entries(s).contains(x));
    }
}

/// Membership in the priority-operation-entry lifting.
proof fn lemma_pop_entries_contains(s: Seq<PriorityOpRecord>, x: LedgerEntry)
    ensures
        pop_entries(s).contains(x) <==> exists|i: int| 0 <= i < s.len() && x == LedgerEntry::Pop(
            s[i],
        ),
{
    if pop_entries(s).contains(x) {
        let i = choose|i: int| 0 <= i < pop_entries(s).len() && pop_entries(s)[i] == x;
        assert(x == LedgerEntry::Pop(s[i]));
    }
    if exists|i: int| 0 <= i < s.len() && x == LedgerEntry::Pop(s[i]) {
        let i = choose|i: int| 0 <= i < s.len() && x == LedgerEntry::Pop(s[i]);
        assert(pop_entries(s)[i] == x);
        assert(pop_entries(s).contains(x));
    }
}

/// Record-level filter membership, for ordinary transactions.
proof fn lemma_tx_filter_membership(s: Seq<TxRecord>, p: spec_fn(TxRecord) -> bool, x: TxRecord)
    ensures
        s.filter(p).contains(x) <==> (s.contains(x) && p(x)),
{
    if s.filter(p).contains(x) {
        let i = choose|i: int| 0 <= i < s.filter(p).len() && s.filter(p)[i] == x;
        s.lemma_filter_pred(p, i);
        s.lemma_filter_contains_rev(p, x);
    }
    if s.contains(x) && p(x) {
        let i = choose|i: int| 0 <= i < s.len() && s[i] == x;
        s.lemma_filter_contains(p, i);
    }
}

/// Record-level filter membership, for priority operations.
proof fn lemma_pop_filter_membership(
    s: Seq<PriorityOpRecord>,
    p: spec_fn(PriorityOpRecord) -> bool,
    x: PriorityOpRecord,
)
    ensures
        s.filter(p).contains(x) <==> (s.contains(x) && p(x)),
{
    if s.filter(p).contains(x) {
        let i = choose|i: int| 0 <= i < s.filter(p).len() && s.filter(p)[i] == x;
        s.lemma_filter_pred(p, i);
        s.lemma_filter_contains_rev(p, x);
    }
    if s.contains(x) && p(x) {
        let i = choose|i: int| 0 <= i < s.len() && s[i] == x;
        s.lemma_filter_contains(p, i);
    }
}

/// The full merged history of an address, ascending by order key: every
/// indexed transaction and every priority operation touching the address.
pub open spec fn account_history(
    store: crate::schema::StorageModel,
    addr: Seq<u8>,
) -> Seq<LedgerEntry> {
    page_merged(
        store.executed_txs@,
        store.priority_ops@,
        store.tx_filters@,
        addr,
        u64::MAX as int,
        u64::MAX as int,
        SearchDirection::Older,
    )
}

/// Whether an entry's order key lies strictly below the cursor.
pub open spec fn entry_below(e: LedgerEntry, cursor_block: int, cursor_index: int) -> bool {
    key_lt(
        crate::merge::entry_block(e),
        crate::merge::entry_index(e),
        cursor_block,
        cursor_index,
    )
}

/// The merged selection of an Older page is the full history filtered to
/// the entries below the cursor.
pub proof fn lemma_older_merged_is_filtered_history(
    store: crate::schema::StorageModel,
    addr: Seq<u8>,
    cursor_block: int,
    cursor_index: int,
)
    requires
        store.wf(),
    ensures
        page_merged(
            store.executed_txs@,
            store.priority_ops@,
            store.tx_filters@,
            addr,
            cursor_block,
            cursor_index,
            SearchDirection::Older,
        ) == account_history(store, addr).filter(
            |e: LedgerEntry| entry_below(e, cursor_block, cursor_index),
        ),
{
    let txs = store.executed_txs@;
    let pops = store.priority_ops@;
    let filters = store.tx_filters@;
    let below = |e: LedgerEntry| entry_below(e, cursor_block, cursor_index);
    let mx = u64::MAX as int;
    let ta_c = tx_page_sel(txs, filters, addr, cursor_block, cursor_index, SearchDirection::Older);
    let pa_c = pop_page_sel(pops, addr, cursor_block, cursor_index, SearchDirection::Older);
    let ta_all = tx_page_sel(txs, filters, addr, mx, mx, SearchDirection::Older);
    let pa_all = pop_page_sel(pops, addr, mx, mx, SearchDirection::Older);
    let ea_c = tx_entries(ta_c);
    let eb_c = pop_entries(pa_c);
    let ea_all = tx_entries(ta_all);
    let eb_all = pop_entries(pa_all);
    let h = account_history(store, addr);
    lemma_page_sel_wf(txs, pops, filters, addr, cursor_block, cursor_index, SearchDirection::Older);
    lemma_page_sel_wf(txs, pops, filters, addr, mx, mx, SearchDirection::Older);
    crate::merge::lemma_merge_asc_props(ea_c, eb_c);
    crate::merge::lemma_merge_asc_props(ea_all, eb_all);
    lemma_entry_filter_sorted(h, below);
    // the cursor-restricted selections equal the unrestricted ones filtered
    assert forall|x: LedgerEntry| #[trigger] merge_asc(ea_c, eb_c).contains(x)
        <==> #[trigger] h.filter(below).contains(x) by {
        lemma_entry_filter_membership(h, below, x);
        lemma_tx_entries_contains(ta_c, x);
        lemma_pop_entries_contains(pa_c, x);
        lemma_tx_entries_contains(ta_all, x);
        lemma_pop_entries_contains(pa_all, x);
        match x {
            LedgerEntry::Tx(r) => {
                lemma_tx_filter_membership(
                    txs,
                    |q: TxRecord| tx_matches_page(
                        q,
                        filters,
                        addr,
                        cursor_block,
                        cursor_index,
                        SearchDirection::Older,
                    ),
                    r,
                );
                lemma_tx_filter_membership(
                    txs,
                    |q: TxRecord| tx_matches_page(q, filters, addr, mx, mx, SearchDirection::Older),
                    r,
                );
                if ta_c.contains(r) {
                    assert(tx_entries(ta_c).contains(x)) by {
                        let i = choose|i: int| 0 <= i < ta_c.len() && ta_c[i] == r;
                        assert(tx_entries(ta_c)[i] == x);
                    }
                }
                if ta_all.contains(r) {
                    assert(tx_entries(ta_all).contains(x)) by {
                        let i = choose|i: int| 0 <= i < ta_all.len() && ta_all[i] == r;
                        assert(tx_entries(ta_all)[i] == x);
                    }
                }
            },
            LedgerEntry::Pop(r) => {
                lemma_pop_filter_membership(
                    pops,
                    |q: PriorityOpRecord| pop_matches_page(
                        q,
                        addr,
                        cursor_block,
                        cursor_index,
                        SearchDirection::Older,
                    ),
                    r,
                );
                lemma_pop_filter_membership(
                    pops,
                    |q: PriorityOpRecord| pop_matches_page(q, addr, mx, mx, SearchDirection::Older),
                    r,
                );
                if pa_c.contains(r) {
                    assert(pop_entries(pa_c).contains(x)) by {
                        let i = choose|i: int| 0 <= i < pa_c.len() && pa_c[i] == r;
                        assert(pop_entries(pa_c)[i] == x);
                    }
                }
                if pa_all.contains(r) {
                    assert(pop_entries(pa_all).contains(x)) by {
                        let i = choose|i: int| 0 <= i < pa_all.len() && pa_all[i] == r;
                        assert(pop_entries(pa_all)[i] == x);
                    }
                }
            },
        }
    }
    crate::merge::lemma_sorted_asc_unique(merge_asc(ea_c, eb_c), h.filter(below));
}

/// A strictly sorted history filtered below the key at a split point is
/// the prefix up to that point.
pub proof fn lemma_filter_below_is_prefix(
    h: Seq<LedgerEntry>,
    cursor_block: int,
    cursor_index: int,
    i: int,
)
    requires
        sorted_asc(h),
        0 <= i <= h.len(),
        forall|k: int| 0 <= k < h.len() ==> (entry_below(#[trigger] h[k], cursor_block, cursor_index)
            <==> k < i),
    ensures
        h.filter(|e: LedgerEntry| entry_below(e, cursor_block, cursor_index)) == h.take(i),
{
    let below = |e: LedgerEntry| entry_below(e, cursor_block, cursor_index);
    lemma_entry_filter_sorted(h, below);
    assert(sorted_asc(h.take(i))) by {
        assert forall|p: int, q: int| #![trigger h.take(i)[p], h.take(i)[q]] 0 <= p < q < i implies entry_lt(
            h.take(i)[p],
            h.take(i)[q],
        ) by {
            assert(h.take(i)[p] == h[p] && h.take(i)[q] == h[q]);
        }
    }
    assert forall|x: LedgerEntry| #[trigger] h.filter(below).contains(x) <==> #[trigger] h.take(
        i,
    ).contains(x) by {
        lemma_entry_filter_membership(h, below, x);
        if h.take(i).contains(x) {
            let k = choose|k: int| 0 <= k < i && h.take(i)[k] == x;
            assert(h[k] == x);
            assert(h.contains(x));
            assert(below(x));
        }
        if h.contains(x) && below(x) {
            let k = choose|k: int| 0 <= k < h.len() && h[k] == x;
            assert(k < i);
            assert(h.take(i)[k] == x);
            assert(h.take(i).contains(x));
        }
    }
    crate::merge::lemma_sorted_asc_unique(h.filter(below), h.take(i));
}

/// Partition property, single page: when the cursor splits the full
/// history at position `i` (everything below it is exactly the first `i`
/// entries), the Older page is the slice of the history just below the
/// split, newest first.
pub proof fn lemma_older_page_is_slice(
    store: crate::schema::StorageModel,
    addr: Seq<u8>,
    cursor_block: int,
    cursor_index: int,
    limit: int,
    i: int,
)
    requires
        store.wf(),
        limit >= 0,
        0 <= i <= account_history(store, addr).len(),
        forall|k: int| 0 <= k < account_history(store, addr).len() ==> (entry_below(
            #[trigger] account_history(store, addr)[k],
            cursor_block,
            cursor_index,
        ) <==> k < i),
    ensures
        history_from_entries(store, addr, cursor_block, cursor_index, SearchDirection::Older, limit)
            == account_history(store, addr).subrange(
            if i - limit > 0 { i - limit } else { 0 },
            i,
        ).reverse(),
{
    let h = account_history(store, addr);
    let ta_all = tx_page_sel(
        store.executed_txs@,
        store.tx_filters@,
        addr,
        u64::MAX as int,
        u64::MAX as int,
        SearchDirection::Older,
    );
    let pa_all = pop_page_sel(
        store.priority_ops@,
        addr,
        u64::MAX as int,
        u64::MAX as int,
        SearchDirection::Older,
    );
    lemma_page_sel_wf(
        store.executed_txs@,
        store.priority_ops@,
        store.tx_filters@,
        addr,
        u64::MAX as int,
        u64::MAX as int,
        SearchDirection::Older,
    );
    crate::merge::lemma_merge_asc_props(tx_entries(ta_all), pop_entries(pa_all));
    lemma_older_merged_is_filtered_history(store, addr, cursor_block, cursor_index);
    lemma_filter_below_is_prefix(h, cursor_block, cursor_index, i);
    let m = h.take(i);
    let lo = if i - limit > 0 { i - limit } else { 0 };
    let page = history_from_entries(
        store,
        addr,
        cursor_block,
        cursor_index,
        SearchDirection::Older,
        limit,
    );
    assert(page == desc_window(m, 0, limit));
    assert(page =~= h.subrange(lo, i).reverse()) by {
        let hi = if limit <= m.len() { limit } else { m.len() as int };
        assert(page == m.reverse().subrange(0, hi));
        assert(page.len() == hi);
        assert(h.subrange(lo, i).reverse().len() == i - lo);
        assert(i - lo == hi);
        assert forall|k: int| 0 <= k < hi implies page[k] == h.subrange(lo, i).reverse()[k] by {
            assert(page[k] == m.reverse()[k]);
            assert(m.reverse()[k] == m[m.len() - 1 - k]);
            assert(m[i - 1 - k] == h[i - 1 - k]);
            assert(h.subrange(lo, i).reverse()[k] == h.subrange(lo, i)[i - lo - 1 - k]);
            assert(h.subrange(lo, i)[i - lo - 1 - k] == h[i - 1 - k]);
        }
    }
}

/// Partition property, at an entry: the Older page whose cursor is the
/// order key of the history entry at position `i` is the slice just below
/// `i`, newest first.
pub proof fn lemma_older_page_at_entry(
    store: crate::schema::StorageModel,
    addr: Seq<u8>,
    limit: int,
    i: int,
)
    requires
        store.wf(),
        limit >= 0,
        0 <= i < account_history(store, addr).len(),
    ensures
        history_from_entries(
            store,
            addr,
            crate::merge::entry_block(account_history(store, addr)[i]),
            crate::merge::entry_index(account_history(store, addr)[i]),
            SearchDirection::Older,
            limit,
        ) == account_history(store, addr).subrange(
            if i - limit > 0 { i - limit } else { 0 },
            i,
        ).reverse(),
{
    let h = account_history(store, addr);
    let ta_all = tx_page_sel(
        store.executed_txs@,
        store.tx_filters@,
        addr,
        u64::MAX as int,
        u64::MAX as int,
        SearchDirection::Older,
    );
    let pa_all = pop_page_sel(
        store.priority_ops@,
        addr,
        u64::MAX as int,
        u64::MAX as int,
        SearchDirection::Older,
    );
    lemma_page_sel_wf(
        store.executed_txs@,
        store.priority_ops@,
        store.tx_filters@,
        addr,
        u64::MAX as int,
        u64::MAX as int,
        SearchDirection::Older,
    );
    crate::merge::lemma_merge_asc_props(tx_entries(ta_all), pop_entries(pa_all));
    let cb = crate::merge::entry_block(h[i]);
    let ci = crate::merge::entry_index(h[i]);
    assert forall|k: int| 0 <= k < h.len() implies (entry_below(#[trigger] h[k], cb, ci) <==> k
        < i) by {
        if k < i {
            assert(entry_lt(h[k], h[i]));
        } else if k > i {
            assert(entry_lt(h[i], h[k]));
        }
    }
    lemma_older_page_is_slice(store, addr, cb, ci, limit, i);
}

/// Two page items carrying the same data (strings compared by their
/// text).
pub open spec fn item_equivalent(a: TransactionsHistoryItem, b: TransactionsHistoryItem) -> bool {
    &&& a.block_number == b.block_number
    &&& a.block_index == b.block_index
    &&& crate::enrich::opt_string_equivalent(a.hash, b.hash)
    &&& a.pq_id == b.pq_id
    &&& a.eth_block == b.eth_block
    &&& crate::enrich::payload_equivalent(a.tx, b.tx)
    &&& a.success == b.success
    &&& crate::enrich::opt_string_equivalent(a.fail_reason, b.fail_reason)
    &&& a.committed == b.committed
    &&& a.verified == b.verified
    &&& a.created_at == b.created_at
    &&& a.batch_id == b.batch_id
}

/// An entry's page item is determined: two items both derived from the
/// same entry against the same state carry the same data.
pub proof fn lemma_item_deterministic(
    a: TransactionsHistoryItem,
    b: TransactionsHistoryItem,
    e: LedgerEntry,
    ops: Seq<AggregatedOperation>,
    tokens: Seq<TokenInfo>,
)
    requires
        item_represents(a, e, ops, tokens),
        item_represents(b, e, ops, tokens),
    ensures
        item_equivalent(a, b),
{
    match e {
        LedgerEntry::Tx(r) => {
            crate::enrich::lemma_enriched_deterministic(r.payload, a.tx, b.tx, tokens);
        },
        LedgerEntry::Pop(r) => {
            crate::enrich::lemma_enriched_deterministic(r.payload, a.tx, b.tx, tokens);
        },
    }
}

/// Determinism of a page: for a fixed stored state and fixed arguments,
/// any two results meeting the page contract carry the same data, item by
/// item.
pub proof fn lemma_page_deterministic(
    r1: Seq<TransactionsHistoryItem>,
    r2: Seq<TransactionsHistoryItem>,
    entries: Seq<LedgerEntry>,
    ops: Seq<AggregatedOperation>,
    tokens: Seq<TokenInfo>,
)
    requires
        r1.len() == entries.len(),
        r2.len() == entries.len(),
        forall|k: int| 0 <= k < entries.len() ==> item_represents(
            #[trigger] r1[k],
            entries[k],
            ops,
            tokens,
        ),
        forall|k: int| 0 <= k < entries.len() ==> item_represents(
            #[trigger] r2[k],
            entries[k],
            ops,
            tokens,
        ),
    ensures
        r1.len() == r2.len(),
        forall|k: int| 0 <= k < r1.len() ==> item_equivalent(#[trigger] r1[k], r2[k]),
{
    assert forall|k: int| 0 <= k < r1.len() implies item_equivalent(#[trigger] r1[k], r2[k]) by {
        lemma_item_deterministic(r1[k], r2[k], entries[k], ops, tokens);
    }
}

/// Concatenating the Older-page slices from position `i` down to the
/// origin, page by page.
pub open spec fn older_traversal(h: Seq<LedgerEntry>, i: int, limit: int) -> Seq<LedgerEntry>
    decreases i,
    when limit >= 1
{
    if i <= 0 {
        Seq::empty()
    } else {
        let j = if i - limit > 0 { i - limit } else { 0 };
        h.subrange(j, i).reverse() + older_traversal(h, j, limit)
    }
}

/// Partition property, whole traversal: concatenating successive Older
/// pages from the most recent entry down to the origin reconstructs the
/// full history, newest first — no entry repeated, none missing.
pub proof fn lemma_older_traversal_reconstructs(h: Seq<LedgerEntry>, i: int, limit: int)
    requires
        limit >= 1,
        0 <= i <= h.len(),
    ensures
        older_traversal(h, i, limit) == h.take(i).reverse(),
    decreases i,
{
    if i <= 0 {
        assert(older_traversal(h, i, limit) =~= h.take(i).reverse());
    } else {
        let j = if i - limit > 0 { i - limit } else { 0 };
        lemma_older_traversal_reconstructs(h, j, limit);
        assert(h.subrange(j, i).reverse() + h.take(j).reverse() =~= h.take(i).reverse());
    }
}

} // verus!

//! The stored state and the read schema over it.
//!
//! `StorageModel` holds the backing store's tables as in-memory collections;
//! `OperationsExtSchema` is the read layer over them. Records are created by
//! an external ingestion collaborator; this layer only reads and derives
//! (the one write is the idempotent filter-index upsert).

use vstd::prelude::*;

use crate::batch::ApiTxBatch;
use crate::records::{
    AggregatedOperation, BatchRecord, BlockRecord, FilterIndexEntry, MempoolTxRecord,
    PriorityOpRecord, TokenInfo, TxRecord, WithdrawalTxRecord, MAX_TIMESTAMP_MICROS,
};

verus! {

/// Strict lexicographic order on the (block number, intra-block position)
/// order key.
pub open spec fn key_lt(b1: int, i1: int, b2: int, i2: int) -> bool {
    b1 < b2 || (b1 == b2 && i1 < i2)
}

/// The ordinary-transaction partition is strictly ascending by order key.
pub open spec fn txs_strictly_ascending(txs: Seq<TxRecord>) -> bool {
    forall|i: int, j: int| 0 <= i < j < txs.len() ==> key_lt(
        (#[trigger] txs[i]).block_number as int,
        txs[i].block_index as int,
        (#[trigger] txs[j]).block_number as int,
        txs[j].block_index as int,
    )
}

/// The priority-operation partition is strictly ascending by order key.
pub open spec fn pops_strictly_ascending(pops: Seq<PriorityOpRecord>) -> bool {
    forall|i: int, j: int| 0 <= i < j < pops.len() ==> key_lt(
        (#[trigger] pops[i]).block_number as int,
        pops[i].block_index as int,
        (#[trigger] pops[j]).block_number as int,
        pops[j].block_index as int,
    )
}

/// No order key occurs in both partitions.
pub open spec fn keys_disjoint(txs: Seq<TxRecord>, pops: Seq<PriorityOpRecord>) -> bool {
    forall|i: int, j: int| 0 <= i < txs.len() && 0 <= j < pops.len() ==> !((#[trigger] txs[i]).block_number
        == (#[trigger] pops[j]).block_number && txs[i].block_index == pops[j].block_index)
}

/// Creation timestamps never decrease along the order key: blocks are only
/// appended, later entries carry later (or equal) timestamps.
pub open spec fn txs_time_monotone(txs: Seq<TxRecord>) -> bool {
    forall|i: int, j: int| 0 <= i < j < txs.len() ==> (#[trigger] txs[i]).created_at
        <= (#[trigger] txs[j]).created_at
}

/// Creation timestamps never decrease along the priority-operation
/// partition.
pub open spec fn pops_time_monotone(pops: Seq<PriorityOpRecord>) -> bool {
    forall|i: int, j: int| 0 <= i < j < pops.len() ==> (#[trigger] pops[i]).created_at
        <= (#[trigger] pops[j]).created_at
}

/// A stored creation timestamp: non-negative and inside the range that
/// calendar formatting accepts.
pub open spec fn ts_ok(t: i64) -> bool {
    0 <= t < MAX_TIMESTAMP_MICROS
}

/// No filter-index triple occurs twice.
pub open spec fn filters_unique(fs: Seq<FilterIndexEntry>) -> bool {
    forall|i: int, j: int| 0 <= i < j < fs.len() ==> !((#[trigger] fs[i]).address@
        == (#[trigger] fs[j]).address@ && fs[i].token == fs[j].token && fs[i].tx_hash@
        == fs[j].tx_hash@)
}

/// The stored state: the tables of the backing store, modeled as in-memory
/// collections.
pub struct StorageModel {
    /// Executed ordinary transactions, ascending by order key.
    pub executed_txs: Vec<TxRecord>,
    /// Executed priority operations, ascending by order key.
    pub priority_ops: Vec<PriorityOpRecord>,
    /// Transactions still queued in the mempool.
    pub mempool_txs: Vec<MempoolTxRecord>,
    /// L1 settlement operations over block ranges.
    pub aggregated_ops: Vec<AggregatedOperation>,
    /// The address-to-transaction filter index.
    pub tx_filters: Vec<FilterIndexEntry>,
    /// External batch hash to internal batch id.
    pub batches: Vec<BatchRecord>,
    /// Batches still queued, maintained by the external mempool collaborator.
    pub pending_batches: Vec<ApiTxBatch>,
    /// Sealed blocks with their root hashes.
    pub blocks: Vec<BlockRecord>,
    /// The token metadata table.
    pub tokens: Vec<TokenInfo>,
    /// L1 transaction hashes of completed withdrawals.
    pub withdrawal_txs: Vec<WithdrawalTxRecord>,
}

impl StorageModel {
    /// Well-formedness of the stored state: each partition is strictly
    /// ascending by order key, order keys are unique across the two
    /// partitions, timestamps are monotone along each partition and in
    /// formatting range, and the filter index holds no duplicate triple.
    pub open spec fn wf(&self) -> bool {
        &&& txs_strictly_ascending(self.executed_txs@)
        &&& pops_strictly_ascending(self.priority_ops@)
        &&& keys_disjoint(self.executed_txs@, self.priority_ops@)
        &&& txs_time_monotone(self.executed_txs@)
        &&& pops_time_monotone(self.priority_ops@)
        &&& forall|i: int| 0 <= i < self.executed_txs@.len() ==> ts_ok(
            (#[trigger] self.executed_txs@[i]).created_at,
        )
        &&& forall|i: int| 0 <= i < self.priority_ops@.len() ==> ts_ok(
            (#[trigger] self.priority_ops@[i]).created_at,
        )
        &&& forall|i: int| 0 <= i < self.mempool_txs@.len() ==> ts_ok(
            (#[trigger] self.mempool_txs@[i]).created_at,
        )
        &&& forall|i: int| 0 <= i < self.priority_ops@.len() ==> crate::records::is_priority_payload(
            (#[trigger] self.priority_ops@[i]).payload,
        )
        &&& filters_unique(self.tx_filters@)
    }

    /// Decides well-formedness, so an unverified caller can test a state
    /// before handing it to the schema.
    pub fn wf_check(&self) -> (r: bool)
        ensures
            r == self.wf(),
    {
        check_txs_order(&self.executed_txs) && check_pops_order(&self.priority_ops)
            && check_keys_disjoint(&self.executed_txs, &self.priority_ops) && check_tx_ts(
            &self.executed_txs,
        ) && check_pop_payloads(&self.priority_ops) && check_mempool_ts(&self.mempool_txs)
            && check_filters_unique(&self.tx_filters)
    }
}

/// Decides strict key ascent and timestamp monotonicity of the
/// ordinary-transaction partition.
fn check_txs_order(txs: &Vec<TxRecord>) -> (r: bool)
    ensures
        r == (txs_strictly_ascending(txs@) && txs_time_monotone(txs@)),
{
    let nt = txs.len();
    let mut k: usize = 1;
    while k < nt
        invariant
            nt == txs@.len(),
            1 <= k <= nt || nt == 0,
            forall|j: int| 0 <= j < k - 1 ==> key_lt(
                (#[trigger] txs@[j]).block_number as int,
                txs@[j].block_index as int,
                txs@[j + 1].block_number as int,
                txs@[j + 1].block_index as int,
            ) && txs@[j].created_at <= txs@[j + 1].created_at,
        decreases nt - k,
    {
        let a = &txs[k - 1];
        let b = &txs[k];
        let key_ok = a.block_number < b.block_number || (a.block_number == b.block_number
            && a.block_index < b.block_index);
        if !key_ok || a.created_at > b.created_at {
            return false;
        }
        k += 1;
    }
    proof {
        assert(txs_adjacent_sorted(txs@));
        assert(txs_adjacent_time(txs@));
        lemma_txs_adjacent_sorted(txs@);
        lemma_txs_adjacent_time(txs@);
    }
    true
}

/// Decides strict key ascent and timestamp monotonicity of the
/// priority-operation partition.
fn check_pops_order(pops: &Vec<PriorityOpRecord>) -> (r: bool)
    ensures
        r == (pops_strictly_ascending(pops@) && pops_time_monotone(pops@)),
{
    let np = pops.len();
    let mut k: usize = 1;
    while k < np
        invariant
            np == pops@.len(),
            1 <= k <= np || np == 0,
            forall|j: int| 0 <= j < k - 1 ==> key_lt(
                (#[trigger] pops@[j]).block_number as int,
                pops@[j].block_index as int,
                pops@[j + 1].block_number as int,
                pops@[j + 1].block_index as int,
            ) && pops@[j].created_at <= pops@[j + 1].created_at,
        decreases np - k,
    {
        let a = &pops[k - 1];
        let b = &pops[k];
        let key_ok = a.block_number < b.block_number || (a.block_number == b.block_number
            && a.block_index < b.block_index);
        if !key_ok || a.created_at > b.created_at {
            return false;
        }
        k += 1;
    }
    proof {
        assert(pops_adjacent_sorted(pops@));
        assert(pops_adjacent_time(pops@));
        lemma_pops_adjacent_sorted(pops@);
        lemma_pops_adjacent_time(pops@);
    }
    true
}

/// Decides that no order key occurs in both partitions.
fn check_keys_disjoint(txs: &Vec<TxRecord>, pops: &Vec<PriorityOpRecord>) -> (r: bool)
    ensures
        r == keys_disjoint(txs@, pops@),
{
    let nt = txs.len();
    let np = pops.len();
    let mut i: usize = 0;
    while i < nt
        invariant
            nt == txs@.len(),
            np == pops@.len(),
            0 <= i <= nt,
            forall|p: int, q: int| 0 <= p < i && 0 <= q < np ==> !((#[trigger] txs@[p]).block_number
                == (#[trigger] pops@[q]).block_number && txs@[p].block_index
                == pops@[q].block_index),
        decreases nt - i,
    {
        let mut j: usize = 0;
        while j < np
            invariant
                nt == txs@.len(),
                np == pops@.len(),
                0 <= i < nt,
                0 <= j <= np,
                forall|q: int| 0 <= q < j ==> !((#[trigger] pops@[q]).block_number
                    == txs@[i as int].block_number && pops@[q].block_index
                    == txs@[i as int].block_index),
            decreases np - j,
        {
            if txs[i].block_number == pops[j].block_number && txs[i].block_index
                == pops[j].block_index {
                return false;
            }
            j += 1;
        }
        i += 1;
    }
    true
}

/// Decides that every transaction timestamp is in formatting range.
fn check_tx_ts(txs: &Vec<TxRecord>) -> (r: bool)
    ensures
        r == forall|i: int| 0 <= i < txs@.len() ==> ts_ok((#[trigger] txs@[i]).created_at),
{
    let nt = txs.len();
    let mut i: usize = 0;
    while i < nt
        invariant
            nt == txs@.len(),
            0 <= i <= nt,
            forall|k: int| 0 <= k < i ==> ts_ok((#[trigger] txs@[k]).created_at),
        decreases nt - i,
    {
        if txs[i].created_at < 0 || txs[i].created_at >= MAX_TIMESTAMP_MICROS {
            return false;
        }
        i += 1;
    }
    true
}

/// Decides that every priority operation has an in-range timestamp and a
/// priority payload.
fn check_pop_payloads(pops: &Vec<PriorityOpRecord>) -> (r: bool)
    ensures
        r == ((forall|i: int| 0 <= i < pops@.len() ==> ts_ok((#[trigger] pops@[i]).created_at))
            && (forall|i: int| 0 <= i < pops@.len() ==> crate::records::is_priority_payload(
            (#[trigger] pops@[i]).payload,
        ))),
{
    let np = pops.len();
    let mut i: usize = 0;
    while i < np
        invariant
            np == pops@.len(),
            0 <= i <= np,
            forall|k: int| 0 <= k < i ==> ts_ok((#[trigger] pops@[k]).created_at)
                && crate::records::is_priority_payload(pops@[k].payload),
        decreases np - i,
    {
        if pops[i].created_at < 0 || pops[i].created_at >= MAX_TIMESTAMP_MICROS {
            return false;
        }
        let ok = match &pops[i].payload {
            crate::records::TxPayload::Deposit { .. } => true,
            crate::records::TxPayload::FullExit { .. } => true,
            _ => false,
        };
        if !ok {
            return false;
        }
        i += 1;
    }
    true
}

/// Decides that every mempool timestamp is in formatting range.
fn check_mempool_ts(ms: &Vec<MempoolTxRecord>) -> (r: bool)
    ensures
        r == forall|i: int| 0 <= i < ms@.len() ==> ts_ok((#[trigger] ms@[i]).created_at),
{
    let nm = ms.len();
    let mut i: usize = 0;
    while i < nm
        invariant
            nm == ms@.len(),
            0 <= i <= nm,
            forall|k: int| 0 <= k < i ==> ts_ok((#[trigger] ms@[k]).created_at),
        decreases nm - i,
    {
        if ms[i].created_at < 0 || ms[i].created_at >= MAX_TIMESTAMP_MICROS {
            return false;
        }
        i += 1;
    }
    true
}

/// Decides that the filter index holds no duplicate triple.
fn check_filters_unique(fs: &Vec<FilterIndexEntry>) -> (r: bool)
    ensures
        r == filters_unique(fs@),
{
    let nf = fs.len();
    let mut i: usize = 0;
    while i < nf
        invariant
            nf == fs@.len(),
            0 <= i <= nf,
            forall|p: int, q: int| 0 <= p < q < nf && p < i ==> !((#[trigger] fs@[p]).address@
                == (#[trigger] fs@[q]).address@ && fs@[p].token == fs@[q].token && fs@[p].tx_hash@
                == fs@[q].tx_hash@),
        decreases nf - i,
    {
        let mut j: usize = i + 1;
        while j < nf
            invariant
                nf == fs@.len(),
                0 <= i < nf,
                i < j <= nf,
                forall|q: int| i < q < j ==> !((#[trigger] fs@[q]).address@
                    == fs@[i as int].address@ && fs@[q].token == fs@[i as int].token
                    && fs@[q].tx_hash@ == fs@[i as int].tx_hash@),
            decreases nf - j,
        {
            if fs[i].token == fs[j].token && crate::records::bytes_eq(
                fs[i].address.as_slice(),
                fs[j].address.as_slice(),
            ) && crate::records::bytes_eq(fs[i].tx_hash.as_slice(), fs[j].tx_hash.as_slice()) {
                return false;
            }
            j += 1;
        }
        i += 1;
    }
    true
}

/// Adjacent order keys ascend strictly along the ordinary-transaction
/// partition.
pub open spec fn txs_adjacent_sorted(txs: Seq<TxRecord>) -> bool {
    forall|k: int| 0 <= k < txs.len() - 1 ==> key_lt(
        (#[trigger] txs[k]).block_number as int,
        txs[k].block_index as int,
        txs[k + 1].block_number as int,
        txs[k + 1].block_index as int,
    )
}

/// Adjacent order keys ascend strictly along the priority-operation
/// partition.
pub open spec fn pops_adjacent_sorted(pops: Seq<PriorityOpRecord>) -> bool {
    forall|k: int| 0 <= k < pops.len() - 1 ==> key_lt(
        (#[trigger] pops[k]).block_number as int,
        pops[k].block_index as int,
        pops[k + 1].block_number as int,
        pops[k + 1].block_index as int,
    )
}

/// Adjacent timestamps never decrease along the ordinary-transaction
/// partition.
pub open spec fn txs_adjacent_time(txs: Seq<TxRecord>) -> bool {
    forall|k: int| 0 <= k < txs.len() - 1 ==> (#[trigger] txs[k]).created_at <= txs[k
        + 1].created_at
}

/// Adjacent timestamps never decrease along the priority-operation
/// partition.
pub open spec fn pops_adjacent_time(pops: Seq<PriorityOpRecord>) -> bool {
    forall|k: int| 0 <= k < pops.len() - 1 ==> (#[trigger] pops[k]).created_at <= pops[k
        + 1].created_at
}

/// Strict ascent of adjacent keys orders every pair.
pub proof fn lemma_txs_adjacent_sorted(txs: Seq<TxRecord>)
    requires
        txs_adjacent_sorted(txs),
    ensures
        txs_strictly_ascending(txs),
{
    assert forall|i: int, j: int| 0 <= i < j < txs.len() implies key_lt(
        (#[trigger] txs[i]).block_number as int,
        txs[i].block_index as int,
        (#[trigger] txs[j]).block_number as int,
        txs[j].block_index as int,
    ) by {
        lemma_txs_pair(txs, i, j);
    }
}

proof fn lemma_txs_pair(txs: Seq<TxRecord>, i: int, j: int)
    requires
        txs_adjacent_sorted(txs),
        0 <= i < j < txs.len(),
    ensures
        key_lt(
            txs[i].block_number as int,
            txs[i].block_index as int,
            txs[j].block_number as int,
            txs[j].block_index as int,
        ),
    decreases j - i,
{
    if j > i + 1 {
        lemma_txs_pair(txs, i, j - 1);
        assert(key_lt(
            txs[j - 1].block_number as int,
            txs[j - 1].block_index as int,
            txs[j].block_number as int,
            txs[j].block_index as int,
        ));
    }
}

/// Strict ascent of adjacent keys orders every pair, for priority
/// operations.
pub proof fn lemma_pops_adjacent_sorted(pops: Seq<PriorityOpRecord>)
    requires
        pops_adjacent_sorted(pops),
    ensures
        pops_strictly_ascending(pops),
{
    assert forall|i: int, j: int| 0 <= i < j < pops.len() implies key_lt(
        (#[trigger] pops[i]).block_number as int,
        pops[i].block_index as int,
        (#[trigger] pops[j]).block_number as int,
        pops[j].block_index as int,
    ) by {
        lemma_pops_pair(pops, i, j);
    }
}

proof fn lemma_pops_pair(pops: Seq<PriorityOpRecord>, i: int, j: int)
    requires
        pops_adjacent_sorted(pops),
        0 <= i < j < pops.len(),
    ensures
        key_lt(
            pops[i].block_number as int,
            pops[i].block_index as int,
            pops[j].block_number as int,
            pops[j].block_index as int,
        ),
    decreases j - i,
{
    if j > i + 1 {
        lemma_pops_pair(pops, i, j - 1);
        assert(key_lt(
            pops[j - 1].block_number as int,
            pops[j - 1].block_index as int,
            pops[j].block_number as int,
            pops[j].block_index as int,
        ));
    }
}

/// Monotone adjacent timestamps order every pair.
pub proof fn lemma_txs_adjacent_time(txs: Seq<TxRecord>)
    requires
        txs_adjacent_time(txs),
    ensures
        txs_time_monotone(txs),
{
    assert forall|i: int, j: int| 0 <= i < j < txs.len() implies (#[trigger] txs[i]).created_at
        <= (#[trigger] txs[j]).created_at by {
        lemma_txs_time_pair(txs, i, j);
    }
}

proof fn lemma_txs_time_pair(txs: Seq<TxRecord>, i: int, j: int)
    requires
        txs_adjacent_time(txs),
        0 <= i < j < txs.len(),
    ensures
        txs[i].created_at <= txs[j].created_at,
    decreases j - i,
{
    if j > i + 1 {
        lemma_txs_time_pair(txs, i, j - 1);
        assert(txs[j - 1].created_at <= txs[j].created_at);
    }
}

/// Monotone adjacent timestamps order every pair, for priority operations.
pub proof fn lemma_pops_adjacent_time(pops: Seq<PriorityOpRecord>)
    requires
        pops_adjacent_time(pops),
    ensures
        pops_time_monotone(pops),
{
    assert forall|i: int, j: int| 0 <= i < j < pops.len() implies (#[trigger] pops[i]).created_at
        <= (#[trigger] pops[j]).created_at by {
        lemma_pops_time_pair(pops, i, j);
    }
}

proof fn lemma_pops_time_pair(pops: Seq<PriorityOpRecord>, i: int, j: int)
    requires
        pops_adjacent_time(pops),
        0 <= i < j < pops.len(),
    ensures
        pops[i].created_at <= pops[j].created_at,
    decreases j - i,
{
    if j > i + 1 {
        lemma_pops_time_pair(pops, i, j - 1);
        assert(pops[j - 1].created_at <= pops[j].created_at);
    }
}

/// The two states agree on every table except the filter index.
pub open spec fn same_but_filters(a: StorageModel, b: StorageModel) -> bool {
    &&& a.executed_txs == b.executed_txs
    &&& a.priority_ops == b.priority_ops
    &&& a.mempool_txs == b.mempool_txs
    &&& a.aggregated_ops == b.aggregated_ops
    &&& a.batches == b.batches
    &&& a.pending_batches == b.pending_batches
    &&& a.blocks == b.blocks
    &&& a.tokens == b.tokens
    &&& a.withdrawal_txs == b.withdrawal_txs
}

/// The read layer over the stored state: getters for transactions,
/// receipts, history pages, batches and the filter index.
pub struct OperationsExtSchema(pub StorageModel);

} // verus!

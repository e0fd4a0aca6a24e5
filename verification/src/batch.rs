//! Atomically submitted transaction batches.
//!
//! A batch's status is derived from its member transactions: any failed
//! member rejects the whole batch; otherwise the batch is finalized exactly
//! when its shared enclosing block is covered by a confirmed execute range,
//! and committed until then.

use vstd::prelude::*;

use crate::records::{AggregatedActionType, AggregatedOperation, BatchRecord, TxRecord};
use crate::status::{first_confirmed_covering, TxInBlockStatus};

verus! {

/// The derived status of a batch, with the time it last changed: the
/// confirming operation's timestamp once finalized, the batch's creation
/// timestamp otherwise.
#[derive(Debug, Clone, Copy, PartialEq, Eq, Structural)]
pub struct BatchStatus {
    pub updated_at: i64,
    pub last_state: TxInBlockStatus,
}

/// A batch as handed out: its external hash, its member transaction hashes
/// in order, its creation time, and its derived status.
#[derive(Debug)]
pub struct ApiTxBatch {
    pub batch_hash: Vec<u8>,
    pub transaction_hashes: Vec<Vec<u8>>,
    pub created_at: i64,
    pub batch_status: BatchStatus,
}

/// True when the two batch values carry the same data.
pub open spec fn batch_equivalent(a: ApiTxBatch, b: ApiTxBatch) -> bool {
    &&& a.batch_hash@ == b.batch_hash@
    &&& a.transaction_hashes@.len() == b.transaction_hashes@.len()
    &&& forall|i: int| 0 <= i < a.transaction_hashes@.len()
        ==> (#[trigger] a.transaction_hashes@[i])@ == b.transaction_hashes@[i]@
    &&& a.created_at == b.created_at
    &&& a.batch_status == b.batch_status
}

impl ApiTxBatch {
    /// Clones the batch, preserving its data.
    pub fn duplicate(&self) -> (r: ApiTxBatch)
        ensures
            batch_equivalent(*self, r),
    {
        let n = self.transaction_hashes.len();
        let mut hashes: Vec<Vec<u8>> = Vec::new();
        let mut i: usize = 0;
        while i < n
            invariant
                n == self.transaction_hashes@.len(),
                0 <= i <= n,
                hashes@.len() == i,
                forall|j: int| 0 <= j < i ==> (#[trigger] hashes@[j])@
                    == self.transaction_hashes@[j]@,
            decreases n - i,
        {
            hashes.push(crate::records::clone_bytes(&self.transaction_hashes[i]));
            i += 1;
        }
        ApiTxBatch {
            batch_hash: crate::records::clone_bytes(&self.batch_hash),
            transaction_hashes: hashes,
            created_at: self.created_at,
            batch_status: self.batch_status,
        }
    }
}

/// Position `i` holds the first batch record with the hash.
pub open spec fn first_batch_with_hash(bs: Seq<BatchRecord>, h: Seq<u8>, i: int) -> bool {
    &&& 0 <= i < bs.len()
    &&& bs[i].batch_hash@ == h
    &&& forall|j: int| 0 <= j < i ==> (#[trigger] bs[j]).batch_hash@ != h
}

/// No batch record has the hash.
pub open spec fn no_batch_with_hash(bs: Seq<BatchRecord>, h: Seq<u8>) -> bool {
    forall|j: int| 0 <= j < bs.len() ==> (#[trigger] bs[j]).batch_hash@ != h
}

/// The member transactions of a batch, in partition order.
pub open spec fn batch_members(txs: Seq<TxRecord>, batch_id: i64) -> Seq<TxRecord> {
    txs.filter(|r: TxRecord| r.batch_id == Some(batch_id))
}

/// Some member transaction failed.
pub open spec fn any_member_failed(members: Seq<TxRecord>) -> bool {
    exists|k: int| 0 <= k < members.len() && !(#[trigger] members[k]).success
}

/// The status derived for an included batch: any failed member rejects the
/// whole batch, regardless of finalization; otherwise the batch is
/// finalized exactly when a confirmed execute range covers its block, and
/// committed until then. The status timestamp is the confirming
/// operation's when finalized, the batch's creation time otherwise.
pub open spec fn spec_batch_status(
    ops: Seq<AggregatedOperation>,
    members: Seq<TxRecord>,
) -> BatchStatus
    recommends
        members.len() > 0,
{
    if any_member_failed(members) {
        BatchStatus { updated_at: members[0].created_at, last_state: TxInBlockStatus::Rejected }
    } else {
        match first_confirmed_covering(
            ops,
            AggregatedActionType::ExecuteBlocks,
            members[0].block_number,
        ) {
            Some(op) => BatchStatus {
                updated_at: op.created_at,
                last_state: TxInBlockStatus::Finalized,
            },
            None => BatchStatus {
                updated_at: members[0].created_at,
                last_state: TxInBlockStatus::Committed,
            },
        }
    }
}

/// Batch policy: a batch with any failed member is rejected, whatever the
/// finalization state of its block.
pub proof fn lemma_batch_policy(ops: Seq<AggregatedOperation>, members: Seq<TxRecord>)
    requires
        exists|k: int| 0 <= k < members.len() && !(#[trigger] members[k]).success,
    ensures
        spec_batch_status(ops, members).last_state == TxInBlockStatus::Rejected,
{
}

/// A batch of successful members is finalized exactly when a confirmed
/// execute range covers its block — the same range membership that
/// finalizes a single transaction.
pub proof fn lemma_batch_finalized_iff_covered(
    ops: Seq<AggregatedOperation>,
    members: Seq<TxRecord>,
)
    requires
        members.len() > 0,
        !any_member_failed(members),
    ensures
        spec_batch_status(ops, members).last_state == TxInBlockStatus::Finalized
            <==> crate::status::spec_block_finalized(ops, members[0].block_number),
{
    crate::status::lemma_first_confirmed_covering(
        ops,
        AggregatedActionType::ExecuteBlocks,
        members[0].block_number,
    );
}

/// The batch handed out for an included batch: its hash, its members'
/// hashes in order, its creation time (the first member's), and its
/// derived status.
pub open spec fn in_block_batch_ok(
    store: crate::schema::StorageModel,
    batch_hash: Seq<u8>,
    ab: ApiTxBatch,
) -> bool {
    exists|i: int|
        {
            let members = batch_members(store.executed_txs@, store.batches@[i].batch_id);
            &&& #[trigger] first_batch_with_hash(store.batches@, batch_hash, i)
            &&& members.len() > 0
            &&& ab.batch_hash@ == batch_hash
            &&& ab.transaction_hashes@.len() == members.len()
            &&& forall|k: int| 0 <= k < members.len() ==> (#[trigger] ab.transaction_hashes@[k])@
                == members[k].tx_hash@
            &&& ab.created_at == members[0].created_at
            &&& ab.batch_status == spec_batch_status(store.aggregated_ops@, members)
        }
}

/// No included batch answers to the hash: no batch record, or one without
/// included members.
pub open spec fn no_in_block_batch(store: crate::schema::StorageModel, batch_hash: Seq<u8>) -> bool {
    ||| no_batch_with_hash(store.batches@, batch_hash)
    ||| exists|i: int| #[trigger] first_batch_with_hash(store.batches@, batch_hash, i)
        && batch_members(store.executed_txs@, store.batches@[i].batch_id).len() == 0
}

/// Position `i` holds the first pending batch with the hash.
pub open spec fn first_pending_with_hash(bs: Seq<ApiTxBatch>, h: Seq<u8>, i: int) -> bool {
    &&& 0 <= i < bs.len()
    &&& bs[i].batch_hash@ == h
    &&& forall|j: int| 0 <= j < i ==> (#[trigger] bs[j]).batch_hash@ != h
}

/// No pending batch has the hash.
pub open spec fn no_pending_with_hash(bs: Seq<ApiTxBatch>, h: Seq<u8>) -> bool {
    forall|j: int| 0 <= j < bs.len() ==> (#[trigger] bs[j]).batch_hash@ != h
}

/// Finds the first batch record with the hash.
fn find_batch_index(bs: &Vec<BatchRecord>, hash: &[u8]) -> (r: Option<usize>)
    ensures
        match r {
            Some(i) => first_batch_with_hash(bs@, hash@, i as int),
            None => no_batch_with_hash(bs@, hash@),
        },
{
    let n = bs.len();
    let mut i: usize = 0;
    while i < n
        invariant
            n == bs@.len(),
            0 <= i <= n,
            forall|j: int| 0 <= j < i ==> (#[trigger] bs@[j]).batch_hash@ != hash@,
        decreases n - i,
    {
        if crate::records::bytes_eq(bs[i].batch_hash.as_slice(), hash) {
            return Some(i);
        }
        i += 1;
    }
    None
}

impl crate::schema::OperationsExtSchema {
    /// Loads the batch with the hash among included batches: its members'
    /// hashes in order and its derived status — rejected on any failed
    /// member, else finalized exactly when a confirmed execute range
    /// covers the shared block, else committed. A batch without included
    /// members yields nothing.
    pub fn get_in_block_batch_info(&self, batch_hash: &[u8]) -> (r: Option<ApiTxBatch>)
        ensures
            match r {
                Some(ab) => in_block_batch_ok(self.0, batch_hash@, ab),
                None => no_in_block_batch(self.0, batch_hash@),
            },
    {
        let bs = &self.0.batches;
        let idx = match find_batch_index(bs, batch_hash) {
            Some(i) => i,
            None => {
                return None;
            },
        };
        let batch_id = bs[idx].batch_id;
        proof {
            assert(first_batch_with_hash(bs@, batch_hash@, idx as int));
        }
        let ghost members = batch_members(self.0.executed_txs@, batch_id);
        let ghost pred = |r: TxRecord| r.batch_id == Some(batch_id);
        let txs = &self.0.executed_txs;
        let nt = txs.len();
        let mut sel: Vec<usize> = Vec::new();
        let mut i: usize = 0;
        proof {
            assert(txs@.take(0) =~= Seq::<TxRecord>::empty());
            reveal(Seq::filter);
        }
        while i < nt
            invariant
                nt == txs@.len(),
                0 <= i <= nt,
                txs == self.0.executed_txs,
                sel@.len() == txs@.take(i as int).filter(pred).len(),
                forall|k: int| 0 <= k < sel@.len() ==> (#[trigger] sel@[k]) < txs@.len()
                    && txs@[sel@[k] as int] == txs@.take(i as int).filter(pred)[k],
                pred == (|r: TxRecord| r.batch_id == Some(batch_id)),
            decreases nt - i,
        {
            let matched = match txs[i].batch_id {
                Some(b) => b == batch_id,
                None => false,
            };
            proof {
                reveal(Seq::filter);
                assert(txs@.take(i as int + 1).drop_last() =~= txs@.take(i as int));
                assert(txs@.take(i as int + 1).last() == txs@[i as int]);
                assert(matched == pred(txs@[i as int]));
            }
            if matched {
                sel.push(i);
            }
            i += 1;
        }
        proof {
            assert(txs@.take(nt as int) =~= txs@);
            assert(members == txs@.filter(pred));
        }
        if sel.len() == 0 {
            return None;
        }
        let first_member = sel[0];
        let created_at = txs[first_member].created_at;
        let block_number = txs[first_member].block_number;
        let mut hashes: Vec<Vec<u8>> = Vec::new();
        let mut failed = false;
        let m = sel.len();
        let mut k: usize = 0;
        while k < m
            invariant
                m == sel@.len(),
                m == members.len(),
                0 <= k <= m,
                txs == self.0.executed_txs,
                forall|q: int| 0 <= q < sel@.len() ==> (#[trigger] sel@[q]) < txs@.len()
                    && txs@[sel@[q] as int] == members[q],
                hashes@.len() == k,
                forall|q: int| 0 <= q < k ==> (#[trigger] hashes@[q])@ == members[q].tx_hash@,
                failed == exists|q: int| 0 <= q < k && !(#[trigger] members[q]).success,
            decreases m - k,
        {
            let t = &txs[sel[k]];
            hashes.push(crate::records::clone_bytes(&t.tx_hash));
            if !t.success {
                failed = true;
            }
            proof {
                if failed && !(exists|q: int| 0 <= q < k && !(#[trigger] members[q]).success) {
                    assert(!members[k as int].success);
                }
            }
            k += 1;
        }
        let batch_status = if failed {
            BatchStatus { updated_at: created_at, last_state: TxInBlockStatus::Rejected }
        } else {
            match crate::status::find_confirmed_covering(
                &self.0.aggregated_ops,
                AggregatedActionType::ExecuteBlocks,
                block_number,
            ) {
                Some(op) => BatchStatus {
                    updated_at: op.created_at,
                    last_state: TxInBlockStatus::Finalized,
                },
                None => BatchStatus {
                    updated_at: created_at,
                    last_state: TxInBlockStatus::Committed,
                },
            }
        };
        Some(
            ApiTxBatch {
                batch_hash: crate::records::clone_bytes(&bs[idx].batch_hash),
                transaction_hashes: hashes,
                created_at,
                batch_status,
            },
        )
    }

    /// Loads the batch with the hash: an included batch first; otherwise
    /// the pending-batch store, maintained by the external mempool
    /// collaborator, whose record is handed back unchanged.
    pub fn get_batch_info(&self, batch_hash: &[u8]) -> (r: Option<ApiTxBatch>)
        ensures
            match r {
                Some(ab) => {
                    ||| in_block_batch_ok(self.0, batch_hash@, ab)
                    ||| ({
                        &&& no_in_block_batch(self.0, batch_hash@)
                        &&& exists|j: int| #[trigger] first_pending_with_hash(
                            self.0.pending_batches@,
                            batch_hash@,
                            j,
                        ) && batch_equivalent(self.0.pending_batches@[j], ab)
                    })
                },
                None => {
                    &&& no_in_block_batch(self.0, batch_hash@)
                    &&& no_pending_with_hash(self.0.pending_batches@, batch_hash@)
                },
            },
    {
        if let Some(ab) = self.get_in_block_batch_info(batch_hash) {
            return Some(ab);
        }
        let ps = &self.0.pending_batches;
        let n = ps.len();
        let mut i: usize = 0;
        while i < n
            invariant
                n == ps@.len(),
                0 <= i <= n,
                ps == self.0.pending_batches,
                no_in_block_batch(self.0, batch_hash@),
                forall|j: int| 0 <= j < i ==> (#[trigger] ps@[j]).batch_hash@ != batch_hash@,
            decreases n - i,
        {
            if crate::records::bytes_eq(ps[i].batch_hash.as_slice(), batch_hash) {
                let dup = ps[i].duplicate();
                proof {
                    assert(first_pending_with_hash(self.0.pending_batches@, batch_hash@, i as int)
                        && batch_equivalent(self.0.pending_batches@[i as int], dup));
                }
                return Some(dup);
            }
            i += 1;
        }
        None
    }
}

} // verus!

//! Block-scoped views over committed history.
//!
//! These views join each entry with its sealed block's root hash and only
//! show entries whose block is covered by a confirmed commit range. A
//! missing block record is a store fault: the whole request fails and no
//! partial page is returned.

use vstd::prelude::*;

use crate::records::{AggregatedActionType, AggregatedOperation, BlockRecord, PriorityOpRecord,
    TxPayload, TxRecord};
use crate::status::covered_by_confirmed;

verus! {

/// A fault of the backing store's own data.
#[derive(Debug, Clone, Copy, PartialEq, Eq, Structural)]
pub enum StoreError {
    /// An entry references a block with no stored record.
    MissingBlock,
}

/// A transaction's position data joined with its block's root hash.
#[derive(Debug)]
pub struct Web3TxData {
    pub tx_hash: Vec<u8>,
    pub block_number: u32,
    pub nonce: i64,
    pub block_index: Option<u32>,
    pub from_account: Vec<u8>,
    pub to_account: Option<Vec<u8>>,
    pub block_hash: Vec<u8>,
}

/// A receipt joined with its block's root hash, shown only once the block
/// is covered by a confirmed commit range.
#[derive(Debug)]
pub struct Web3TxReceipt {
    pub tx_hash: Vec<u8>,
    pub block_number: u32,
    pub payload: TxPayload,
    pub block_index: Option<u32>,
    pub from_account: Vec<u8>,
    pub to_account: Option<Vec<u8>>,
    pub success: bool,
    pub block_hash: Vec<u8>,
}

/// Position `i` holds the first block record with the number.
pub open spec fn first_block_with_number(bs: Seq<BlockRecord>, n: u32, i: int) -> bool {
    &&& 0 <= i < bs.len()
    &&& bs[i].number == n
    &&& forall|j: int| 0 <= j < i ==> (#[trigger] bs[j]).number != n
}

/// No block record has the number.
pub open spec fn no_block_with_number(bs: Seq<BlockRecord>, n: u32) -> bool {
    forall|j: int| 0 <= j < bs.len() ==> (#[trigger] bs[j]).number != n
}

/// Finds the first block record with the number.
fn find_block_index(bs: &Vec<BlockRecord>, n: u32) -> (r: Option<usize>)
    ensures
        match r {
            Some(i) => first_block_with_number(bs@, n, i as int),
            None => no_block_with_number(bs@, n),
        },
{
    let len = bs.len();
    let mut i: usize = 0;
    while i < len
        invariant
            len == bs@.len(),
            0 <= i <= len,
            forall|j: int| 0 <= j < i ==> (#[trigger] bs@[j]).number != n,
        decreases len - i,
    {
        if bs[i].number == n {
            return Some(i);
        }
        i += 1;
    }
    None
}

/// The root hash of the named entry's block.
pub open spec fn block_hash_ok(bs: Seq<BlockRecord>, n: u32, h: Seq<u8>) -> bool {
    exists|i: int| #[trigger] first_block_with_number(bs, n, i) && h == bs[i].root_hash@
}

/// The position view derived from an ordinary transaction.
pub open spec fn web3_data_from_tx(d: Web3TxData, t: TxRecord, bs: Seq<BlockRecord>) -> bool {
    &&& d.tx_hash@ == t.tx_hash@
    &&& d.block_number == t.block_number
    &&& d.nonce == t.nonce
    &&& d.block_index == Some(t.block_index)
    &&& d.from_account@ == t.from_account@
    &&& d.to_account matches Some(a) && a@ == t.to_account@
    &&& block_hash_ok(bs, t.block_number, d.block_hash@)
}

/// The position view derived from a priority operation: its serial id
/// stands in for the nonce.
pub open spec fn web3_data_from_pop(d: Web3TxData, p: PriorityOpRecord, bs: Seq<BlockRecord>) -> bool {
    &&& d.tx_hash@ == p.tx_hash@
    &&& d.block_number == p.block_number
    &&& d.nonce == p.serial_id
    &&& d.block_index == Some(p.block_index)
    &&& d.from_account@ == p.from_account@
    &&& d.to_account matches Some(a) && a@ == p.to_account@
    &&& block_hash_ok(bs, p.block_number, d.block_hash@)
}

/// The receipt derived from an ordinary transaction.
pub open spec fn web3_receipt_from_tx(d: Web3TxReceipt, t: TxRecord, bs: Seq<BlockRecord>) -> bool {
    &&& d.tx_hash@ == t.tx_hash@
    &&& d.block_number == t.block_number
    &&& d.payload == t.payload
    &&& d.block_index == Some(t.block_index)
    &&& d.from_account@ == t.from_account@
    &&& d.to_account matches Some(a) && a@ == t.to_account@
    &&& d.success == t.success
    &&& block_hash_ok(bs, t.block_number, d.block_hash@)
}

/// The receipt derived from a priority operation.
pub open spec fn web3_receipt_from_pop(
    d: Web3TxReceipt,
    p: PriorityOpRecord,
    bs: Seq<BlockRecord>,
) -> bool {
    &&& d.tx_hash@ == p.tx_hash@
    &&& d.block_number == p.block_number
    &&& d.payload == p.payload
    &&& d.block_index == Some(p.block_index)
    &&& d.from_account@ == p.from_account@
    &&& d.to_account matches Some(a) && a@ == p.to_account@
    &&& d.success == true
    &&& block_hash_ok(bs, p.block_number, d.block_hash@)
}

/// The block is covered by a confirmed commit range.
pub open spec fn block_committed(ops: Seq<AggregatedOperation>, block: u32) -> bool {
    covered_by_confirmed(ops, AggregatedActionType::CommitBlocks, block)
}

/// An ordinary transaction shown by the range view: in the range, in a
/// committed block.
pub open spec fn web3_tx_selected(
    t: TxRecord,
    from_block: u32,
    to_block: u32,
    ops: Seq<AggregatedOperation>,
) -> bool {
    from_block <= t.block_number && t.block_number <= to_block && block_committed(
        ops,
        t.block_number,
    )
}

/// A priority operation shown by the range view.
pub open spec fn web3_pop_selected(
    p: PriorityOpRecord,
    from_block: u32,
    to_block: u32,
    ops: Seq<AggregatedOperation>,
) -> bool {
    from_block <= p.block_number && p.block_number <= to_block && block_committed(
        ops,
        p.block_number,
    )
}

impl crate::schema::OperationsExtSchema {
    /// Loads the position data for any hash: an executed transaction
    /// first, then a priority operation by its own or its L1 hash, joined
    /// with the block's root hash. An entry whose block record is missing
    /// is a store fault.
    pub fn tx_data_for_web3(&self, hash: &[u8]) -> (r: Result<Option<Web3TxData>, StoreError>)
        ensures
            match r {
                Ok(Some(d)) => {
                    ||| exists|i: int| #[trigger] crate::lookups::first_tx_with_hash(
                        self.0.executed_txs@,
                        hash@,
                        i,
                    ) && web3_data_from_tx(d, self.0.executed_txs@[i], self.0.blocks@)
                    ||| exists|i: int|
                        {
                            &&& crate::lookups::no_tx_with_hash(self.0.executed_txs@, hash@)
                            &&& #[trigger] crate::lookups::first_pop_with_any_hash(
                                self.0.priority_ops@,
                                hash@,
                                i,
                            )
                            &&& web3_data_from_pop(d, self.0.priority_ops@[i], self.0.blocks@)
                        }
                },
                Ok(None) => {
                    &&& crate::lookups::no_tx_with_hash(self.0.executed_txs@, hash@)
                    &&& crate::lookups::no_pop_with_any_hash(self.0.priority_ops@, hash@)
                },
                Err(e) => {
                    &&& e == StoreError::MissingBlock
                    &&& {
                        ||| exists|i: int| #[trigger] crate::lookups::first_tx_with_hash(
                            self.0.executed_txs@,
                            hash@,
                            i,
                        ) && no_block_with_number(
                            self.0.blocks@,
                            self.0.executed_txs@[i].block_number,
                        )
                        ||| exists|i: int|
                            {
                                &&& crate::lookups::no_tx_with_hash(self.0.executed_txs@, hash@)
                                &&& #[trigger] crate::lookups::first_pop_with_any_hash(
                                    self.0.priority_ops@,
                                    hash@,
                                    i,
                                )
                                &&& no_block_with_number(
                                    self.0.blocks@,
                                    self.0.priority_ops@[i].block_number,
                                )
                            }
                    }
                },
            },
    {
        if let Some(i) = crate::lookups::find_tx_index(&self.0.executed_txs, hash) {
            let t = &self.0.executed_txs[i];
            let bi = match find_block_index(&self.0.blocks, t.block_number) {
                Some(bi) => bi,
                None => {
                    return Err(StoreError::MissingBlock);
                },
            };
            return Ok(
                Some(
                    Web3TxData {
                        tx_hash: crate::records::clone_bytes(&t.tx_hash),
                        block_number: t.block_number,
                        nonce: t.nonce,
                        block_index: Some(t.block_index),
                        from_account: crate::records::clone_bytes(&t.from_account),
                        to_account: Some(crate::records::clone_bytes(&t.to_account)),
                        block_hash: crate::records::clone_bytes(&self.0.blocks[bi].root_hash),
                    },
                ),
            );
        }
        if let Some(i) = crate::lookups::find_pop_index_by_any_hash(&self.0.priority_ops, hash) {
            let p = &self.0.priority_ops[i];
            let bi = match find_block_index(&self.0.blocks, p.block_number) {
                Some(bi) => bi,
                None => {
                    return Err(StoreError::MissingBlock);
                },
            };
            return Ok(
                Some(
                    Web3TxData {
                        tx_hash: crate::records::clone_bytes(&p.tx_hash),
                        block_number: p.block_number,
                        nonce: p.serial_id,
                        block_index: Some(p.block_index),
                        from_account: crate::records::clone_bytes(&p.from_account),
                        to_account: Some(crate::records::clone_bytes(&p.to_account)),
                        block_hash: crate::records::clone_bytes(&self.0.blocks[bi].root_hash),
                    },
                ),
            );
        }
        Ok(None)
    }

    /// Loads the receipt for any hash, shown only once the entry's block
    /// is covered by a confirmed commit range. An entry whose block record
    /// is missing is a store fault.
    pub fn web3_receipt_by_hash(&self, hash: &[u8]) -> (r: Result<
        Option<Web3TxReceipt>,
        StoreError,
    >)
        ensures
            match r {
                Ok(Some(d)) => {
                    ||| exists|i: int|
                        {
                            &&& #[trigger] crate::lookups::first_tx_with_hash(
                                self.0.executed_txs@,
                                hash@,
                                i,
                            )
                            &&& block_committed(
                                self.0.aggregated_ops@,
                                self.0.executed_txs@[i].block_number,
                            )
                            &&& web3_receipt_from_tx(d, self.0.executed_txs@[i], self.0.blocks@)
                        }
                    ||| exists|i: int|
                        {
                            &&& crate::lookups::no_tx_with_hash(self.0.executed_txs@, hash@)
                            &&& #[trigger] crate::lookups::first_pop_with_any_hash(
                                self.0.priority_ops@,
                                hash@,
                                i,
                            )
                            &&& block_committed(
                                self.0.aggregated_ops@,
                                self.0.priority_ops@[i].block_number,
                            )
                            &&& web3_receipt_from_pop(d, self.0.priority_ops@[i], self.0.blocks@)
                        }
                },
                Ok(None) => {
                    ||| ({
                        &&& crate::lookups::no_tx_with_hash(self.0.executed_txs@, hash@)
                        &&& crate::lookups::no_pop_with_any_hash(self.0.priority_ops@, hash@)
                    })
                    ||| exists|i: int| #[trigger] crate::lookups::first_tx_with_hash(
                        self.0.executed_txs@,
                        hash@,
                        i,
                    ) && !block_committed(
                        self.0.aggregated_ops@,
                        self.0.executed_txs@[i].block_number,
                    )
                    ||| exists|i: int|
                        {
                            &&& crate::lookups::no_tx_with_hash(self.0.executed_txs@, hash@)
                            &&& #[trigger] crate::lookups::first_pop_with_any_hash(
                                self.0.priority_ops@,
                                hash@,
                                i,
                            )
                            &&& !block_committed(
                                self.0.aggregated_ops@,
                                self.0.priority_ops@[i].block_number,
                            )
                        }
                },
                Err(e) => e == StoreError::MissingBlock,
            },
    {
        if let Some(i) = crate::lookups::find_tx_index(&self.0.executed_txs, hash) {
            let t = &self.0.executed_txs[i];
            if !crate::status::is_block_covered(
                &self.0.aggregated_ops,
                AggregatedActionType::CommitBlocks,
                t.block_number,
            ) {
                return Ok(None);
            }
            let bi = match find_block_index(&self.0.blocks, t.block_number) {
                Some(bi) => bi,
                None => {
                    return Err(StoreError::MissingBlock);
                },
            };
            return Ok(
                Some(
                    Web3TxReceipt {
                        tx_hash: crate::records::clone_bytes(&t.tx_hash),
                        block_number: t.block_number,
                        payload: t.payload.clone(),
                        block_index: Some(t.block_index),
                        from_account: crate::records::clone_bytes(&t.from_account),
                        to_account: Some(crate::records::clone_bytes(&t.to_account)),
                        success: t.success,
                        block_hash: crate::records::clone_bytes(&self.0.blocks[bi].root_hash),
                    },
                ),
            );
        }
        if let Some(i) = crate::lookups::find_pop_index_by_any_hash(&self.0.priority_ops, hash) {
            let p = &self.0.priority_ops[i];
            if !crate::status::is_block_covered(
                &self.0.aggregated_ops,
                AggregatedActionType::CommitBlocks,
                p.block_number,
            ) {
                return Ok(None);
            }
            let bi = match find_block_index(&self.0.blocks, p.block_number) {
                Some(bi) => bi,
                None => {
                    return Err(StoreError::MissingBlock);
                },
            };
            return Ok(
                Some(
                    Web3TxReceipt {
                        tx_hash: crate::records::clone_bytes(&p.tx_hash),
                        block_number: p.block_number,
                        payload: p.payload.clone(),
                        block_index: Some(p.block_index),
                        from_account: crate::records::clone_bytes(&p.from_account),
                        to_account: Some(crate::records::clone_bytes(&p.to_account)),
                        success: true,
                        block_hash: crate::records::clone_bytes(&self.0.blocks[bi].root_hash),
                    },
                ),
            );
        }
        Ok(None)
    }

    /// Loads the receipts of every committed entry in the inclusive block
    /// range: the ordinary transactions in partition order, then the
    /// priority operations. Any entry whose block record is missing fails
    /// the whole request; no partial page is returned.
    pub fn web3_receipts(&self, from_block: u32, to_block: u32) -> (r: Result<
        Vec<Web3TxReceipt>,
        StoreError,
    >)
        ensures
            ({
                let selt = self.0.executed_txs@.filter(
                    |t: TxRecord| web3_tx_selected(t, from_block, to_block, self.0.aggregated_ops@),
                );
                let selp = self.0.priority_ops@.filter(
                    |p: PriorityOpRecord| web3_pop_selected(
                        p,
                        from_block,
                        to_block,
                        self.0.aggregated_ops@,
                    ),
                );
                match r {
                    Ok(v) => {
                        &&& v@.len() == selt.len() + selp.len()
                        &&& forall|k: int| 0 <= k < selt.len() ==> web3_receipt_from_tx(
                            #[trigger] v@[k],
                            selt[k],
                            self.0.blocks@,
                        )
                        &&& forall|k: int| 0 <= k < selp.len() ==> web3_receipt_from_pop(
                            #[trigger] v@[selt.len() + k],
                            selp[k],
                            self.0.blocks@,
                        )
                    },
                    Err(e) => {
                        &&& e == StoreError::MissingBlock
                        &&& {
                            ||| exists|i: int|
                                0 <= i < self.0.executed_txs@.len() && web3_tx_selected(
                                    #[trigger] self.0.executed_txs@[i],
                                    from_block,
                                    to_block,
                                    self.0.aggregated_ops@,
                                ) && no_block_with_number(
                                    self.0.blocks@,
                                    self.0.executed_txs@[i].block_number,
                                )
                            ||| exists|i: int|
                                0 <= i < self.0.priority_ops@.len() && web3_pop_selected(
                                    #[trigger] self.0.priority_ops@[i],
                                    from_block,
                                    to_block,
                                    self.0.aggregated_ops@,
                                ) && no_block_with_number(
                                    self.0.blocks@,
                                    self.0.priority_ops@[i].block_number,
                                )
                        }
                    },
                }
            }),
    {
        let ghost tpred = |t: TxRecord| web3_tx_selected(
            t,
            from_block,
            to_block,
            self.0.aggregated_ops@,
        );
        let ghost ppred = |p: PriorityOpRecord| web3_pop_selected(
            p,
            from_block,
            to_block,
            self.0.aggregated_ops@,
        );
        let txs = &self.0.executed_txs;
        let pops = &self.0.priority_ops;
        let mut out: Vec<Web3TxReceipt> = Vec::new();
        let nt = txs.len();
        let mut i: usize = 0;
        proof {
            assert(txs@.take(0) =~= Seq::<TxRecord>::empty());
            reveal(Seq::filter);
        }
        while i < nt
            invariant
                nt == txs@.len(),
                0 <= i <= nt,
                txs == self.0.executed_txs,
                tpred == (|t: TxRecord| web3_tx_selected(
                    t,
                    from_block,
                    to_block,
                    self.0.aggregated_ops@,
                )),
                out@.len() == txs@.take(i as int).filter(tpred).len(),
                forall|k: int| 0 <= k < out@.len() ==> web3_receipt_from_tx(
                    #[trigger] out@[k],
                    txs@.take(i as int).filter(tpred)[k],
                    self.0.blocks@,
                ),
            decreases nt - i,
        {
            let t = &txs[i];
            let selected = from_block <= t.block_number && t.block_number <= to_block
                && crate::status::is_block_covered(
                &self.0.aggregated_ops,
                AggregatedActionType::CommitBlocks,
                t.block_number,
            );
            proof {
                reveal(Seq::filter);
                assert(txs@.take(i as int + 1).drop_last() =~= txs@.take(i as int));
                assert(txs@.take(i as int + 1).last() == txs@[i as int]);
                assert(selected == tpred(txs@[i as int]));
            }
            if selected {
                let bi = match find_block_index(&self.0.blocks, t.block_number) {
                    Some(bi) => bi,
                    None => {
                        return Err(StoreError::MissingBlock);
                    },
                };
                out.push(
                    Web3TxReceipt {
                        tx_hash: crate::records::clone_bytes(&t.tx_hash),
                        block_number: t.block_number,
                        payload: t.payload.clone(),
                        block_index: Some(t.block_index),
                        from_account: crate::records::clone_bytes(&t.from_account),
                        to_account: Some(crate::records::clone_bytes(&t.to_account)),
                        success: t.success,
                        block_hash: crate::records::clone_bytes(&self.0.blocks[bi].root_hash),
                    },
                );
            }
            i += 1;
        }
        proof {
            assert(txs@.take(nt as int) =~= txs@);
        }
        let ghost n_tx_sel = txs@.filter(tpred).len();
        let np = pops.len();
        let mut j: usize = 0;
        proof {
            assert(pops@.take(0) =~= Seq::<PriorityOpRecord>::empty());
        }
        while j < np
            invariant
                np == pops@.len(),
                0 <= j <= np,
                txs == self.0.executed_txs,
                pops == self.0.priority_ops,
                tpred == (|t: TxRecord| web3_tx_selected(
                    t,
                    from_block,
                    to_block,
                    self.0.aggregated_ops@,
                )),
                ppred == (|p: PriorityOpRecord| web3_pop_selected(
                    p,
                    from_block,
                    to_block,
                    self.0.aggregated_ops@,
                )),
                n_tx_sel == txs@.filter(tpred).len(),
                out@.len() == n_tx_sel + pops@.take(j as int).filter(ppred).len(),
                forall|k: int| 0 <= k < n_tx_sel ==> web3_receipt_from_tx(
                    #[trigger] out@[k],
                    txs@.filter(tpred)[k],
                    self.0.blocks@,
                ),
                forall|k: int| 0 <= k < pops@.take(j as int).filter(ppred).len()
                    ==> web3_receipt_from_pop(
                    #[trigger] out@[n_tx_sel + k],
                    pops@.take(j as int).filter(ppred)[k],
                    self.0.blocks@,
                ),
            decreases np - j,
        {
            let p = &pops[j];
            let selected = from_block <= p.block_number && p.block_number <= to_block
                && crate::status::is_block_covered(
                &self.0.aggregated_ops,
                AggregatedActionType::CommitBlocks,
                p.block_number,
            );
            proof {
                reveal(Seq::filter);
                assert(pops@.take(j as int + 1).drop_last() =~= pops@.take(j as int));
                assert(pops@.take(j as int + 1).last() == pops@[j as int]);
                assert(selected == ppred(pops@[j as int]));
            }
            if selected {
                let bi = match find_block_index(&self.0.blocks, p.block_number) {
                    Some(bi) => bi,
                    None => {
                        return Err(StoreError::MissingBlock);
                    },
                };
                out.push(
                    Web3TxReceipt {
                        tx_hash: crate::records::clone_bytes(&p.tx_hash),
                        block_number: p.block_number,
                        payload: p.payload.clone(),
                        block_index: Some(p.block_index),
                        from_account: crate::records::clone_bytes(&p.from_account),
                        to_account: Some(crate::records::clone_bytes(&p.to_account)),
                        success: true,
                        block_hash: crate::records::clone_bytes(&self.0.blocks[bi].root_hash),
                    },
                );
            }
            j += 1;
        }
        proof {
            assert(pops@.take(np as int) =~= pops@);
        }
        Ok(out)
    }

    /// Loads the hash and payload of every executed ordinary transaction
    /// in the inclusive block range, in partition order.
    pub fn load_executed_txs_in_block_range(&self, from_block: u32, to_block: u32) -> (r: Vec<
        (Vec<u8>, TxPayload),
    >)
        ensures
            ({
                let sel = self.0.executed_txs@.filter(
                    |t: TxRecord| from_block <= t.block_number && t.block_number <= to_block,
                );
                &&& r@.len() == sel.len()
                &&& forall|k: int| 0 <= k < sel.len() ==> (#[trigger] r@[k]).0@ == sel[k].tx_hash@
                    && r@[k].1 == sel[k].payload
            }),
    {
        let ghost pred = |t: TxRecord| from_block <= t.block_number && t.block_number <= to_block;
        let txs = &self.0.executed_txs;
        let n = txs.len();
        let mut out: Vec<(Vec<u8>, TxPayload)> = Vec::new();
        let mut i: usize = 0;
        proof {
            assert(txs@.take(0) =~= Seq::<TxRecord>::empty());
            reveal(Seq::filter);
        }
        while i < n
            invariant
                n == txs@.len(),
                0 <= i <= n,
                txs == self.0.executed_txs,
                pred == (|t: TxRecord| from_block <= t.block_number && t.block_number <= to_block),
                out@.len() == txs@.take(i as int).filter(pred).len(),
                forall|k: int| 0 <= k < out@.len() ==> (#[trigger] out@[k]).0@ == txs@.take(
                    i as int,
                ).filter(pred)[k].tx_hash@ && out@[k].1 == txs@.take(i as int).filter(pred)[k].payload,
            decreases n - i,
        {
            let t = &txs[i];
            let selected = from_block <= t.block_number && t.block_number <= to_block;
            proof {
                reveal(Seq::filter);
                assert(txs@.take(i as int + 1).drop_last() =~= txs@.take(i as int));
                assert(txs@.take(i as int + 1).last() == txs@[i as int]);
                assert(selected == pred(txs@[i as int]));
            }
            if selected {
                out.push((crate::records::clone_bytes(&t.tx_hash), t.payload.clone()));
            }
            i += 1;
        }
        proof {
            assert(txs@.take(n as int) =~= txs@);
        }
        out
    }

    /// Loads the hash and payload of every executed priority operation in
    /// the inclusive block range, in partition order.
    pub fn load_executed_priority_ops_in_block_range(&self, from_block: u32, to_block: u32) -> (r:
        Vec<(Vec<u8>, TxPayload)>)
        ensures
            ({
                let sel = self.0.priority_ops@.filter(
                    |p: PriorityOpRecord| from_block <= p.block_number && p.block_number
                        <= to_block,
                );
                &&& r@.len() == sel.len()
                &&& forall|k: int| 0 <= k < sel.len() ==> (#[trigger] r@[k]).0@ == sel[k].tx_hash@
                    && r@[k].1 == sel[k].payload
            }),
    {
        let ghost pred = |p: PriorityOpRecord| from_block <= p.block_number && p.block_number
            <= to_block;
        let pops = &self.0.priority_ops;
        let n = pops.len();
        let mut out: Vec<(Vec<u8>, TxPayload)> = Vec::new();
        let mut i: usize = 0;
        proof {
            assert(pops@.take(0) =~= Seq::<PriorityOpRecord>::empty());
            reveal(Seq::filter);
        }
        while i < n
            invariant
                n == pops@.len(),
                0 <= i <= n,
                pops == self.0.priority_ops,
                pred == (|p: PriorityOpRecord| from_block <= p.block_number && p.block_number
                    <= to_block),
                out@.len() == pops@.take(i as int).filter(pred).len(),
                forall|k: int| 0 <= k < out@.len() ==> (#[trigger] out@[k]).0@ == pops@.take(
                    i as int,
                ).filter(pred)[k].tx_hash@ && out@[k].1 == pops@.take(i as int).filter(
                    pred,
                )[k].payload,
            decreases n - i,
        {
            let p = &pops[i];
            let selected = from_block <= p.block_number && p.block_number <= to_block;
            proof {
                reveal(Seq::filter);
                assert(pops@.take(i as int + 1).drop_last() =~= pops@.take(i as int));
                assert(pops@.take(i as int + 1).last() == pops@[i as int]);
                assert(selected == pred(pops@[i as int]));
            }
            if selected {
                out.push((crate::records::clone_bytes(&p.tx_hash), p.payload.clone()));
            }
            i += 1;
        }
        proof {
            assert(pops@.take(n as int) =~= pops@);
        }
        out
    }
}

} // verus!

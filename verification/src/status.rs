//! Lazy status resolution.
//!
//! A transaction's finality state is not stored: it is derived at read time
//! from its execution outcome and from whether its block number falls inside
//! a confirmed settlement range of the relevant kind. Confirming one range
//! atomically promotes every transaction it covers.

use vstd::prelude::*;

use crate::records::{AggregatedActionType, AggregatedOperation};

verus! {

/// The finality state of a transaction as observed by a reader.
#[derive(Debug, Clone, Copy, PartialEq, Eq, Structural)]
pub enum TxInBlockStatus {
    /// Not yet included in any block (still in the mempool).
    Queued,
    /// Included in a block; the block is not yet covered by a confirmed
    /// execute range.
    Committed,
    /// The enclosing block is covered by a confirmed execute range.
    Finalized,
    /// Executed with success flag false; terminal.
    Rejected,
}

/// True when the operation is of the given kind and its inclusive block
/// range contains the block.
pub open spec fn op_covers(op: AggregatedOperation, action: AggregatedActionType, block: u32) -> bool {
    op.action == action && op.from_block <= block && block <= op.to_block
}

/// True when some confirmed operation of the given kind covers the block.
pub open spec fn covered_by_confirmed(
    ops: Seq<AggregatedOperation>,
    action: AggregatedActionType,
    block: u32,
) -> bool {
    exists|i: int| 0 <= i < ops.len() && op_covers(ops[i], action, block) && ops[i].confirmed
}

/// True when the block is covered by a confirmed execute range, i.e. every
/// transaction it holds is observably finalized.
pub open spec fn spec_block_finalized(ops: Seq<AggregatedOperation>, block: u32) -> bool {
    covered_by_confirmed(ops, AggregatedActionType::ExecuteBlocks, block)
}

/// The status derived for an included transaction: rejection takes
/// precedence over finality; otherwise finality of the enclosing block
/// decides between finalized and committed.
pub open spec fn spec_tx_status(success: bool, finalized: bool) -> TxInBlockStatus {
    if !success {
        TxInBlockStatus::Rejected
    } else if finalized {
        TxInBlockStatus::Finalized
    } else {
        TxInBlockStatus::Committed
    }
}

/// Decides whether some confirmed operation of the given kind covers the
/// block.
pub fn is_block_covered(
    ops: &Vec<AggregatedOperation>,
    action: AggregatedActionType,
    block: u32,
) -> (r: bool)
    ensures
        r == covered_by_confirmed(ops@, action, block),
{
    let n = ops.len();
    let mut i: usize = 0;
    while i < n
        invariant
            n == ops@.len(),
            0 <= i <= n,
            forall|j: int| 0 <= j < i ==> !(op_covers(ops@[j], action, block) && ops@[j].confirmed),
        decreases n - i,
    {
        let op = ops[i];
        if op.confirmed && op.action == action && op.from_block <= block && block <= op.to_block {
            return true;
        }
        i += 1;
    }
    false
}

/// Decides whether the block is finalized.
pub fn is_block_finalized(ops: &Vec<AggregatedOperation>, block: u32) -> (r: bool)
    ensures
        r == spec_block_finalized(ops@, block),
{
    is_block_covered(ops, AggregatedActionType::ExecuteBlocks, block)
}

/// Resolves the status of an included transaction from its success flag and
/// the confirmed settlement ranges.
pub fn resolve_tx_status(
    ops: &Vec<AggregatedOperation>,
    success: bool,
    block: u32,
) -> (r: TxInBlockStatus)
    ensures
        r == spec_tx_status(success, spec_block_finalized(ops@, block)),
{
    if !success {
        TxInBlockStatus::Rejected
    } else if is_block_finalized(ops, block) {
        TxInBlockStatus::Finalized
    } else {
        TxInBlockStatus::Committed
    }
}

/// The full finality ladder of an included transaction: executed at
/// inclusion, committed once a confirmed commit range covers its block,
/// finalized once a confirmed execute range does; rejected, terminally, on
/// failure.
#[derive(Debug, Clone, Copy, PartialEq, Eq, Structural)]
pub enum TxFinalityState {
    Executed,
    Committed,
    Finalized,
    Rejected,
}

/// The finality ladder derived for an included transaction: rejection
/// first, then finalization, then commitment, else bare execution.
pub open spec fn spec_full_status(success: bool, committed: bool, finalized: bool) -> TxFinalityState {
    if !success {
        TxFinalityState::Rejected
    } else if finalized {
        TxFinalityState::Finalized
    } else if committed {
        TxFinalityState::Committed
    } else {
        TxFinalityState::Executed
    }
}

/// Resolves the full finality ladder of an included transaction from its
/// success flag and the confirmed settlement ranges of both kinds.
pub fn resolve_full_status(
    ops: &Vec<AggregatedOperation>,
    success: bool,
    block: u32,
) -> (r: TxFinalityState)
    ensures
        r == spec_full_status(
            success,
            covered_by_confirmed(ops@, AggregatedActionType::CommitBlocks, block),
            covered_by_confirmed(ops@, AggregatedActionType::ExecuteBlocks, block),
        ),
{
    if !success {
        TxFinalityState::Rejected
    } else if is_block_covered(ops, AggregatedActionType::ExecuteBlocks, block) {
        TxFinalityState::Finalized
    } else if is_block_covered(ops, AggregatedActionType::CommitBlocks, block) {
        TxFinalityState::Committed
    } else {
        TxFinalityState::Executed
    }
}

/// Status monotonicity on the full ladder: under a later view of the
/// append-only confirmation store, a finalized transaction stays
/// finalized and a rejected one stays rejected.
pub proof fn lemma_full_status_monotonic(
    lower: Seq<AggregatedOperation>,
    upper: Seq<AggregatedOperation>,
    success: bool,
    block: u32,
)
    requires
        ops_extend(lower, upper),
    ensures
        spec_full_status(
            success,
            covered_by_confirmed(lower, AggregatedActionType::CommitBlocks, block),
            covered_by_confirmed(lower, AggregatedActionType::ExecuteBlocks, block),
        ) == TxFinalityState::Finalized ==> spec_full_status(
            success,
            covered_by_confirmed(upper, AggregatedActionType::CommitBlocks, block),
            covered_by_confirmed(upper, AggregatedActionType::ExecuteBlocks, block),
        ) == TxFinalityState::Finalized,
        spec_full_status(
            success,
            covered_by_confirmed(lower, AggregatedActionType::CommitBlocks, block),
            covered_by_confirmed(lower, AggregatedActionType::ExecuteBlocks, block),
        ) == TxFinalityState::Rejected ==> spec_full_status(
            success,
            covered_by_confirmed(upper, AggregatedActionType::CommitBlocks, block),
            covered_by_confirmed(upper, AggregatedActionType::ExecuteBlocks, block),
        ) == TxFinalityState::Rejected,
{
    if success && covered_by_confirmed(lower, AggregatedActionType::ExecuteBlocks, block) {
        let i = choose|i: int|
            0 <= i < lower.len() && op_covers(lower[i], AggregatedActionType::ExecuteBlocks, block)
                && lower[i].confirmed;
        assert(op_covers(upper[i], AggregatedActionType::ExecuteBlocks, block)
            && upper[i].confirmed);
    }
}

/// The first confirmed operation of the given kind covering the block, in
/// store order.
pub open spec fn first_confirmed_covering(
    ops: Seq<AggregatedOperation>,
    action: AggregatedActionType,
    block: u32,
) -> Option<AggregatedOperation>
    decreases ops.len(),
{
    if ops.len() == 0 {
        None
    } else if op_covers(ops[0], action, block) && ops[0].confirmed {
        Some(ops[0])
    } else {
        first_confirmed_covering(ops.drop_first(), action, block)
    }
}

/// A first confirmed covering operation exists exactly when the block is
/// covered by a confirmed operation of the kind.
pub proof fn lemma_first_confirmed_covering(
    ops: Seq<AggregatedOperation>,
    action: AggregatedActionType,
    block: u32,
)
    ensures
        first_confirmed_covering(ops, action, block) is Some <==> covered_by_confirmed(
            ops,
            action,
            block,
        ),
        first_confirmed_covering(ops, action, block) matches Some(op) ==> op_covers(
            op,
            action,
            block,
        ) && op.confirmed,
    decreases ops.len(),
{
    if ops.len() > 0 {
        lemma_first_confirmed_covering(ops.drop_first(), action, block);
        if !(op_covers(ops[0], action, block) && ops[0].confirmed) {
            assert(covered_by_confirmed(ops.drop_first(), action, block)
                ==> covered_by_confirmed(ops, action, block)) by {
                if covered_by_confirmed(ops.drop_first(), action, block) {
                    let i = choose|i: int|
                        0 <= i < ops.drop_first().len() && op_covers(
                            ops.drop_first()[i],
                            action,
                            block,
                        ) && ops.drop_first()[i].confirmed;
                    assert(ops[i + 1] == ops.drop_first()[i]);
                }
            }
            assert(covered_by_confirmed(ops, action, block) ==> covered_by_confirmed(
                ops.drop_first(),
                action,
                block,
            )) by {
                if covered_by_confirmed(ops, action, block) {
                    let i = choose|i: int|
                        0 <= i < ops.len() && op_covers(ops[i], action, block)
                            && ops[i].confirmed;
                    assert(i >= 1);
                    assert(ops.drop_first()[i - 1] == ops[i]);
                }
            }
        }
    }
}

/// Finds the first confirmed operation of the given kind covering the block.
pub fn find_confirmed_covering(
    ops: &Vec<AggregatedOperation>,
    action: AggregatedActionType,
    block: u32,
) -> (r: Option<AggregatedOperation>)
    ensures
        r == first_confirmed_covering(ops@, action, block),
{
    let n = ops.len();
    let mut i: usize = 0;
    proof {
        assert(ops@.skip(0) =~= ops@);
    }
    while i < n
        invariant
            n == ops@.len(),
            0 <= i <= n,
            first_confirmed_covering(ops@, action, block) == first_confirmed_covering(
                ops@.skip(i as int),
                action,
                block,
            ),
            forall|j: int| 0 <= j < i ==> !(op_covers(ops@[j], action, block)
                && ops@[j].confirmed),
        decreases n - i,
    {
        let op = ops[i];
        proof {
            assert(ops@.skip(i as int)[0] == ops@[i as int]);
        }
        if op.confirmed && op.action == action && op.from_block <= block && block <= op.to_block {
            return Some(op);
        }
        proof {
            assert(ops@.skip(i as int).drop_first() =~= ops@.skip(i as int + 1));
        }
        i += 1;
    }
    assert(ops@.skip(n as int) =~= Seq::<AggregatedOperation>::empty());
    None
}

/// True when `upper` is a later view of the same append-only confirmation
/// store as `lower`: existing operations keep their kind, range and
/// timestamp, a confirmed flag is never revoked, and operations are only
/// appended.
pub open spec fn ops_extend(lower: Seq<AggregatedOperation>, upper: Seq<AggregatedOperation>) -> bool {
    &&& lower.len() <= upper.len()
    &&& forall|i: int| 0 <= i < lower.len() ==> {
        &&& (#[trigger] upper[i]).action == lower[i].action
        &&& upper[i].from_block == lower[i].from_block
        &&& upper[i].to_block == lower[i].to_block
        &&& (lower[i].confirmed ==> upper[i].confirmed)
    }
}

/// Status monotonicity: once a transaction is observed finalized, any later
/// view of the append-only confirmation store still observes it finalized;
/// a rejected transaction stays rejected.
pub proof fn lemma_status_monotonic(
    lower: Seq<AggregatedOperation>,
    upper: Seq<AggregatedOperation>,
    success: bool,
    block: u32,
)
    requires
        ops_extend(lower, upper),
    ensures
        spec_tx_status(success, spec_block_finalized(lower, block)) == TxInBlockStatus::Finalized
            ==> spec_tx_status(success, spec_block_finalized(upper, block))
            == TxInBlockStatus::Finalized,
        spec_tx_status(success, spec_block_finalized(lower, block)) == TxInBlockStatus::Rejected
            ==> spec_tx_status(success, spec_block_finalized(upper, block))
            == TxInBlockStatus::Rejected,
{
    if success && spec_block_finalized(lower, block) {
        let i = choose|i: int|
            0 <= i < lower.len() && op_covers(lower[i], AggregatedActionType::ExecuteBlocks, block)
                && lower[i].confirmed;
        assert(op_covers(upper[i], AggregatedActionType::ExecuteBlocks, block)
            && upper[i].confirmed);
    }
}

} // verus!

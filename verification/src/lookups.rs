//! Point lookups and receipts.
//!
//! Lookups by hash search the executed-transaction partition first, then the
//! priority operations, then the mempool; an unknown hash is an absent
//! result, never an error. Receipts carry the status resolved at read time
//! from the confirmed settlement ranges.

use vstd::prelude::*;

use vstd::string::StringExecFns;

use crate::records::{
    MempoolTxRecord, PriorityOpRecord, TokenRef, TxPayload, TxRecord,
};
use crate::status::{spec_block_finalized, TxInBlockStatus};

verus! {

/// The kind tag of an executed transaction's payload, with the sentinel the
/// by-hash lookup reports for an unrecognized kind.
pub open spec fn l2_type_text(p: TxPayload) -> Seq<char> {
    match p {
        TxPayload::Transfer { .. } => "Transfer"@,
        TxPayload::TransferToNew { .. } => "TransferToNew"@,
        TxPayload::Withdraw { .. } => "Withdraw"@,
        TxPayload::ChangePubKey { .. } => "ChangePubKey"@,
        TxPayload::ChangePubKeyOffchain { .. } => "ChangePubKeyOffchain"@,
        TxPayload::MintNFT { .. } => "MintNFT"@,
        TxPayload::WithdrawNFT { .. } => "WithdrawNFT"@,
        TxPayload::ForcedExit { .. } => "ForcedExit"@,
        TxPayload::Swap { .. } => "Swap"@,
        TxPayload::Deposit { .. } => "Deposit"@,
        TxPayload::FullExit { .. } => "FullExit"@,
        TxPayload::Unknown => "unknown tx_type"@,
    }
}

/// The kind tag shown to callers: a transfer to a fresh account reads as an
/// ordinary transfer.
pub open spec fn user_type_text(p: TxPayload) -> Seq<char> {
    if p matches TxPayload::TransferToNew { .. } {
        "Transfer"@
    } else {
        l2_type_text(p)
    }
}

/// The kind tag of a priority operation's payload, with its own sentinel.
pub open spec fn priority_type_text(p: TxPayload) -> Seq<char> {
    match p {
        TxPayload::Deposit { .. } => "Deposit"@,
        TxPayload::FullExit { .. } => "FullExit"@,
        _ => "unknown type"@,
    }
}

/// The source field of a payload, with the documented sentinel where the
/// kind carries none.
pub open spec fn from_text(p: TxPayload) -> Seq<char> {
    match p {
        TxPayload::Transfer { from, .. } => from@,
        TxPayload::TransferToNew { from, .. } => from@,
        TxPayload::Withdraw { from, .. } => from@,
        TxPayload::ChangePubKey { account, .. } => account@,
        TxPayload::ChangePubKeyOffchain { account, .. } => account@,
        TxPayload::MintNFT { creator_address, .. } => creator_address@,
        TxPayload::WithdrawNFT { from, .. } => from@,
        TxPayload::ForcedExit { target, .. } => target@,
        TxPayload::Swap { submitter_address, .. } => submitter_address@,
        TxPayload::Deposit { deposit } => deposit.from@,
        TxPayload::FullExit { full_exit } => full_exit.eth_address@,
        TxPayload::Unknown => "unknown from"@,
    }
}

/// The target field of a payload, with the documented sentinel where the
/// kind carries none.
pub open spec fn to_text(p: TxPayload) -> Seq<char> {
    match p {
        TxPayload::Transfer { to, .. } => to@,
        TxPayload::TransferToNew { to, .. } => to@,
        TxPayload::Withdraw { to, .. } => to@,
        TxPayload::ChangePubKey { new_pk_hash, .. } => new_pk_hash@,
        TxPayload::ChangePubKeyOffchain { new_pk_hash, .. } => new_pk_hash@,
        TxPayload::MintNFT { recipient, .. } => recipient@,
        TxPayload::WithdrawNFT { to, .. } => to@,
        TxPayload::ForcedExit { target, .. } => target@,
        TxPayload::Swap { submitter_address, .. } => submitter_address@,
        TxPayload::Deposit { deposit } => deposit.to@,
        TxPayload::FullExit { full_exit } => full_exit.eth_address@,
        TxPayload::Unknown => "unknown to"@,
    }
}

/// The amount field of a payload: a mint or an NFT withdrawal moves one
/// item, a swap reports zero, and missing amounts fall back to the
/// documented sentinel.
pub open spec fn amount_text(p: TxPayload) -> Seq<char> {
    match p {
        TxPayload::Transfer { amount, .. } => amount@,
        TxPayload::TransferToNew { amount, .. } => amount@,
        TxPayload::Withdraw { amount, .. } => amount@,
        TxPayload::ChangePubKey { .. } => "unknown amount"@,
        TxPayload::ChangePubKeyOffchain { .. } => "unknown amount"@,
        TxPayload::MintNFT { .. } => "1"@,
        TxPayload::WithdrawNFT { .. } => "1"@,
        TxPayload::ForcedExit { withdraw_amount, .. } => match withdraw_amount {
            Some(a) => a@,
            None => "unknown amount"@,
        },
        TxPayload::Swap { .. } => "0"@,
        TxPayload::Deposit { deposit } => deposit.amount@,
        TxPayload::FullExit { full_exit } => match full_exit.withdraw_amount {
            Some(a) => a@,
            None => "unknown amount"@,
        },
        TxPayload::Unknown => "unknown amount"@,
    }
}

/// The fee reported for a payload: the payload's own fee where the kind
/// carries one, none for L1-originated kinds, and the documented sentinel
/// for an unrecognized kind.
pub open spec fn fee_ok(p: TxPayload, f: Option<String>) -> bool {
    match p {
        TxPayload::Transfer { fee, .. } => f == fee,
        TxPayload::TransferToNew { fee, .. } => f == fee,
        TxPayload::Withdraw { fee, .. } => f == fee,
        TxPayload::ChangePubKey { fee, .. } => f == fee,
        TxPayload::ChangePubKeyOffchain { fee, .. } => f == fee,
        TxPayload::MintNFT { fee, .. } => f == fee,
        TxPayload::WithdrawNFT { fee, .. } => f == fee,
        TxPayload::ForcedExit { fee, .. } => f == fee,
        TxPayload::Swap { fee, .. } => f == fee,
        TxPayload::Deposit { .. } => f is None,
        TxPayload::FullExit { .. } => f is None,
        TxPayload::Unknown => f matches Some(s) && s@ == "unknown fee"@,
    }
}

/// The numeric token reported for a payload: the token field where the
/// kind has one, the fee token otherwise, and minus one where no numeric
/// identifier is available.
pub open spec fn token_num(p: TxPayload) -> int {
    match p {
        TxPayload::Transfer { token, .. } => token_ref_num(token),
        TxPayload::TransferToNew { token, .. } => token_ref_num(token),
        TxPayload::Withdraw { token, .. } => token_ref_num(token),
        TxPayload::ChangePubKey { fee_token, .. } => fee_token as int,
        TxPayload::ChangePubKeyOffchain { fee_token, .. } => fee_token as int,
        TxPayload::MintNFT { fee_token, .. } => fee_token as int,
        TxPayload::WithdrawNFT { token, .. } => token_ref_num(token),
        TxPayload::ForcedExit { token, .. } => token_ref_num(token),
        TxPayload::Swap { fee_token, .. } => fee_token as int,
        TxPayload::Deposit { deposit } => token_ref_num(deposit.token),
        TxPayload::FullExit { full_exit } => token_ref_num(full_exit.token),
        TxPayload::Unknown => -1,
    }
}

/// The numeric value of a token field; minus one once it holds a symbol.
pub open spec fn token_ref_num(t: TokenRef) -> int {
    match t {
        TokenRef::Id(id) => id as int,
        TokenRef::Symbol(_) => -1,
    }
}

/// The nonce reported for a payload; minus one where the kind carries
/// none.
pub open spec fn nonce_num(p: TxPayload) -> int {
    match p {
        TxPayload::Transfer { nonce, .. } => nonce as int,
        TxPayload::TransferToNew { nonce, .. } => nonce as int,
        TxPayload::Withdraw { nonce, .. } => nonce as int,
        TxPayload::ChangePubKey { nonce, .. } => nonce as int,
        TxPayload::ChangePubKeyOffchain { nonce, .. } => nonce as int,
        TxPayload::MintNFT { nonce, .. } => nonce as int,
        TxPayload::WithdrawNFT { nonce, .. } => nonce as int,
        TxPayload::ForcedExit { nonce, .. } => nonce as int,
        TxPayload::Swap { nonce, .. } => nonce as int,
        _ => -1,
    }
}

/// Renders the user-facing kind tag of an executed transaction's payload.
fn user_type_string(p: &TxPayload) -> (r: String)
    ensures
        r@ == user_type_text(*p),
{
    match p {
        TxPayload::Transfer { .. } => String::from_str("Transfer"),
        TxPayload::TransferToNew { .. } => String::from_str("Transfer"),
        TxPayload::Withdraw { .. } => String::from_str("Withdraw"),
        TxPayload::ChangePubKey { .. } => String::from_str("ChangePubKey"),
        TxPayload::ChangePubKeyOffchain { .. } => String::from_str("ChangePubKeyOffchain"),
        TxPayload::MintNFT { .. } => String::from_str("MintNFT"),
        TxPayload::WithdrawNFT { .. } => String::from_str("WithdrawNFT"),
        TxPayload::ForcedExit { .. } => String::from_str("ForcedExit"),
        TxPayload::Swap { .. } => String::from_str("Swap"),
        TxPayload::Deposit { .. } => String::from_str("Deposit"),
        TxPayload::FullExit { .. } => String::from_str("FullExit"),
        TxPayload::Unknown => String::from_str("unknown tx_type"),
    }
}

/// Renders the kind tag of a priority operation's payload.
fn priority_type_string(p: &TxPayload) -> (r: String)
    ensures
        r@ == priority_type_text(*p),
{
    match p {
        TxPayload::Deposit { .. } => String::from_str("Deposit"),
        TxPayload::FullExit { .. } => String::from_str("FullExit"),
        _ => String::from_str("unknown type"),
    }
}

/// Extracts the source field of a payload.
fn from_string(p: &TxPayload) -> (r: String)
    ensures
        r@ == from_text(*p),
{
    match p {
        TxPayload::Transfer { from, .. } => from.clone(),
        TxPayload::TransferToNew { from, .. } => from.clone(),
        TxPayload::Withdraw { from, .. } => from.clone(),
        TxPayload::ChangePubKey { account, .. } => account.clone(),
        TxPayload::ChangePubKeyOffchain { account, .. } => account.clone(),
        TxPayload::MintNFT { creator_address, .. } => creator_address.clone(),
        TxPayload::WithdrawNFT { from, .. } => from.clone(),
        TxPayload::ForcedExit { target, .. } => target.clone(),
        TxPayload::Swap { submitter_address, .. } => submitter_address.clone(),
        TxPayload::Deposit { deposit } => deposit.from.clone(),
        TxPayload::FullExit { full_exit } => full_exit.eth_address.clone(),
        TxPayload::Unknown => String::from_str("unknown from"),
    }
}

/// Extracts the target field of a payload.
fn to_string_of(p: &TxPayload) -> (r: String)
    ensures
        r@ == to_text(*p),
{
    match p {
        TxPayload::Transfer { to, .. } => to.clone(),
        TxPayload::TransferToNew { to, .. } => to.clone(),
        TxPayload::Withdraw { to, .. } => to.clone(),
        TxPayload::ChangePubKey { new_pk_hash, .. } => new_pk_hash.clone(),
        TxPayload::ChangePubKeyOffchain { new_pk_hash, .. } => new_pk_hash.clone(),
        TxPayload::MintNFT { recipient, .. } => recipient.clone(),
        TxPayload::WithdrawNFT { to, .. } => to.clone(),
        TxPayload::ForcedExit { target, .. } => target.clone(),
        TxPayload::Swap { submitter_address, .. } => submitter_address.clone(),
        TxPayload::Deposit { deposit } => deposit.to.clone(),
        TxPayload::FullExit { full_exit } => full_exit.eth_address.clone(),
        TxPayload::Unknown => String::from_str("unknown to"),
    }
}

/// Extracts the amount field of a payload.
fn amount_string(p: &TxPayload) -> (r: String)
    ensures
        r@ == amount_text(*p),
{
    match p {
        TxPayload::Transfer { amount, .. } => amount.clone(),
        TxPayload::TransferToNew { amount, .. } => amount.clone(),
        TxPayload::Withdraw { amount, .. } => amount.clone(),
        TxPayload::ChangePubKey { .. } => String::from_str("unknown amount"),
        TxPayload::ChangePubKeyOffchain { .. } => String::from_str("unknown amount"),
        TxPayload::MintNFT { .. } => String::from_str("1"),
        TxPayload::WithdrawNFT { .. } => String::from_str("1"),
        TxPayload::ForcedExit { withdraw_amount, .. } => match withdraw_amount {
            Some(a) => a.clone(),
            None => String::from_str("unknown amount"),
        },
        TxPayload::Swap { .. } => String::from_str("0"),
        TxPayload::Deposit { deposit } => deposit.amount.clone(),
        TxPayload::FullExit { full_exit } => match &full_exit.withdraw_amount {
            Some(a) => a.clone(),
            None => String::from_str("unknown amount"),
        },
        TxPayload::Unknown => String::from_str("unknown amount"),
    }
}

/// Extracts the reported fee of a payload.
fn fee_option(p: &TxPayload) -> (r: Option<String>)
    ensures
        fee_ok(*p, r),
{
    match p {
        TxPayload::Transfer { fee, .. } => crate::records::clone_opt_string(fee),
        TxPayload::TransferToNew { fee, .. } => crate::records::clone_opt_string(fee),
        TxPayload::Withdraw { fee, .. } => crate::records::clone_opt_string(fee),
        TxPayload::ChangePubKey { fee, .. } => crate::records::clone_opt_string(fee),
        TxPayload::ChangePubKeyOffchain { fee, .. } => crate::records::clone_opt_string(fee),
        TxPayload::MintNFT { fee, .. } => crate::records::clone_opt_string(fee),
        TxPayload::WithdrawNFT { fee, .. } => crate::records::clone_opt_string(fee),
        TxPayload::ForcedExit { fee, .. } => crate::records::clone_opt_string(fee),
        TxPayload::Swap { fee, .. } => crate::records::clone_opt_string(fee),
        TxPayload::Deposit { .. } => None,
        TxPayload::FullExit { .. } => None,
        TxPayload::Unknown => Some(String::from_str("unknown fee")),
    }
}

/// Extracts the numeric token of a payload.
fn token_i64(p: &TxPayload) -> (r: i64)
    ensures
        r as int == token_num(*p),
{
    match p {
        TxPayload::Transfer { token, .. } => token_ref_i64(token),
        TxPayload::TransferToNew { token, .. } => token_ref_i64(token),
        TxPayload::Withdraw { token, .. } => token_ref_i64(token),
        TxPayload::ChangePubKey { fee_token, .. } => *fee_token as i64,
        TxPayload::ChangePubKeyOffchain { fee_token, .. } => *fee_token as i64,
        TxPayload::MintNFT { fee_token, .. } => *fee_token as i64,
        TxPayload::WithdrawNFT { token, .. } => token_ref_i64(token),
        TxPayload::ForcedExit { token, .. } => token_ref_i64(token),
        TxPayload::Swap { fee_token, .. } => *fee_token as i64,
        TxPayload::Deposit { deposit } => token_ref_i64(&deposit.token),
        TxPayload::FullExit { full_exit } => token_ref_i64(&full_exit.token),
        TxPayload::Unknown => -1,
    }
}

/// The numeric value of a token field.
fn token_ref_i64(t: &TokenRef) -> (r: i64)
    ensures
        r as int == token_ref_num(*t),
{
    match t {
        TokenRef::Id(id) => *id as i64,
        TokenRef::Symbol(_) => -1,
    }
}

/// Extracts the nonce of a payload.
fn nonce_i64(p: &TxPayload) -> (r: i64)
    ensures
        r as int == nonce_num(*p),
{
    match p {
        TxPayload::Transfer { nonce, .. } => *nonce,
        TxPayload::TransferToNew { nonce, .. } => *nonce,
        TxPayload::Withdraw { nonce, .. } => *nonce,
        TxPayload::ChangePubKey { nonce, .. } => *nonce,
        TxPayload::ChangePubKeyOffchain { nonce, .. } => *nonce,
        TxPayload::MintNFT { nonce, .. } => *nonce,
        TxPayload::WithdrawNFT { nonce, .. } => *nonce,
        TxPayload::ForcedExit { nonce, .. } => *nonce,
        TxPayload::Swap { nonce, .. } => *nonce,
        _ => -1,
    }
}

/// Position `i` holds the first executed transaction with the hash.
pub open spec fn first_tx_with_hash(txs: Seq<TxRecord>, h: Seq<u8>, i: int) -> bool {
    &&& 0 <= i < txs.len()
    &&& txs[i].tx_hash@ == h
    &&& forall|j: int| 0 <= j < i ==> (#[trigger] txs[j]).tx_hash@ != h
}

/// No executed transaction has the hash.
pub open spec fn no_tx_with_hash(txs: Seq<TxRecord>, h: Seq<u8>) -> bool {
    forall|j: int| 0 <= j < txs.len() ==> (#[trigger] txs[j]).tx_hash@ != h
}

/// Position `i` holds the first priority operation whose own hash is `h`.
pub open spec fn first_pop_with_tx_hash(pops: Seq<PriorityOpRecord>, h: Seq<u8>, i: int) -> bool {
    &&& 0 <= i < pops.len()
    &&& pops[i].tx_hash@ == h
    &&& forall|j: int| 0 <= j < i ==> (#[trigger] pops[j]).tx_hash@ != h
}

/// No priority operation's own hash is `h`.
pub open spec fn no_pop_with_tx_hash(pops: Seq<PriorityOpRecord>, h: Seq<u8>) -> bool {
    forall|j: int| 0 <= j < pops.len() ==> (#[trigger] pops[j]).tx_hash@ != h
}

/// Whether the priority operation answers to the hash, as its own hash or
/// its originating L1 hash.
pub open spec fn pop_answers_hash(p: PriorityOpRecord, h: Seq<u8>) -> bool {
    p.tx_hash@ == h || p.eth_hash@ == h
}

/// Position `i` holds the first priority operation answering to the hash.
pub open spec fn first_pop_with_any_hash(pops: Seq<PriorityOpRecord>, h: Seq<u8>, i: int) -> bool {
    &&& 0 <= i < pops.len()
    &&& pop_answers_hash(pops[i], h)
    &&& forall|j: int| 0 <= j < i ==> !pop_answers_hash(#[trigger] pops[j], h)
}

/// No priority operation answers to the hash.
pub open spec fn no_pop_with_any_hash(pops: Seq<PriorityOpRecord>, h: Seq<u8>) -> bool {
    forall|j: int| 0 <= j < pops.len() ==> !pop_answers_hash(#[trigger] pops[j], h)
}

/// Position `i` holds the first priority operation with the serial id.
pub open spec fn first_pop_with_serial(pops: Seq<PriorityOpRecord>, id: i64, i: int) -> bool {
    &&& 0 <= i < pops.len()
    &&& pops[i].serial_id == id
    &&& forall|j: int| 0 <= j < i ==> (#[trigger] pops[j]).serial_id != id
}

/// No priority operation has the serial id.
pub open spec fn no_pop_with_serial(pops: Seq<PriorityOpRecord>, id: i64) -> bool {
    forall|j: int| 0 <= j < pops.len() ==> (#[trigger] pops[j]).serial_id != id
}

/// Position `i` holds the first mempool transaction with the hash.
pub open spec fn first_mempool_with_hash(ms: Seq<MempoolTxRecord>, h: Seq<u8>, i: int) -> bool {
    &&& 0 <= i < ms.len()
    &&& ms[i].tx_hash@ == h
    &&& forall|j: int| 0 <= j < i ==> (#[trigger] ms[j]).tx_hash@ != h
}

/// No mempool transaction has the hash.
pub open spec fn no_mempool_with_hash(ms: Seq<MempoolTxRecord>, h: Seq<u8>) -> bool {
    forall|j: int| 0 <= j < ms.len() ==> (#[trigger] ms[j]).tx_hash@ != h
}

/// Finds the first executed transaction with the hash.
pub fn find_tx_index(txs: &Vec<TxRecord>, hash: &[u8]) -> (r: Option<usize>)
    ensures
        match r {
            Some(i) => first_tx_with_hash(txs@, hash@, i as int),
            None => no_tx_with_hash(txs@, hash@),
        },
{
    let n = txs.len();
    let mut i: usize = 0;
    while i < n
        invariant
            n == txs@.len(),
            0 <= i <= n,
            forall|j: int| 0 <= j < i ==> (#[trigger] txs@[j]).tx_hash@ != hash@,
        decreases n - i,
    {
        if crate::records::bytes_eq(txs[i].tx_hash.as_slice(), hash) {
            return Some(i);
        }
        i += 1;
    }
    None
}

/// Finds the first priority operation whose own hash is the hash.
pub fn find_pop_index_by_tx_hash(pops: &Vec<PriorityOpRecord>, hash: &[u8]) -> (r: Option<usize>)
    ensures
        match r {
            Some(i) => first_pop_with_tx_hash(pops@, hash@, i as int),
            None => no_pop_with_tx_hash(pops@, hash@),
        },
{
    let n = pops.len();
    let mut i: usize = 0;
    while i < n
        invariant
            n == pops@.len(),
            0 <= i <= n,
            forall|j: int| 0 <= j < i ==> (#[trigger] pops@[j]).tx_hash@ != hash@,
        decreases n - i,
    {
        if crate::records::bytes_eq(pops[i].tx_hash.as_slice(), hash) {
            return Some(i);
        }
        i += 1;
    }
    None
}

/// Finds the first priority operation answering to the hash.
pub fn find_pop_index_by_any_hash(pops: &Vec<PriorityOpRecord>, hash: &[u8]) -> (r: Option<usize>)
    ensures
        match r {
            Some(i) => first_pop_with_any_hash(pops@, hash@, i as int),
            None => no_pop_with_any_hash(pops@, hash@),
        },
{
    let n = pops.len();
    let mut i: usize = 0;
    while i < n
        invariant
            n == pops@.len(),
            0 <= i <= n,
            forall|j: int| 0 <= j < i ==> !pop_answers_hash(#[trigger] pops@[j], hash@),
        decreases n - i,
    {
        if crate::records::bytes_eq(pops[i].tx_hash.as_slice(), hash) || crate::records::bytes_eq(
            pops[i].eth_hash.as_slice(),
            hash,
        ) {
            return Some(i);
        }
        i += 1;
    }
    None
}

/// Finds the first mempool transaction with the hash.
pub fn find_mempool_index(ms: &Vec<MempoolTxRecord>, hash: &[u8]) -> (r: Option<usize>)
    ensures
        match r {
            Some(i) => first_mempool_with_hash(ms@, hash@, i as int),
            None => no_mempool_with_hash(ms@, hash@),
        },
{
    let n = ms.len();
    let mut i: usize = 0;
    while i < n
        invariant
            n == ms@.len(),
            0 <= i <= n,
            forall|j: int| 0 <= j < i ==> (#[trigger] ms@[j]).tx_hash@ != hash@,
        decreases n - i,
    {
        if crate::records::bytes_eq(ms[i].tx_hash.as_slice(), hash) {
            return Some(i);
        }
        i += 1;
    }
    None
}

/// A transaction receipt: the stored outcome plus the finality flag
/// resolved from the confirmed execute ranges.
#[derive(Debug)]
pub struct TxReceiptResponse {
    pub tx_hash: String,
    pub block_number: u32,
    pub success: bool,
    pub verified: bool,
    pub fail_reason: Option<String>,
}

/// A receipt for any hash: where the transaction stands (queued, committed,
/// finalized or rejected) and what is known of its position.
#[derive(Debug)]
pub struct Receipt {
    pub tx_hash: Vec<u8>,
    pub status: TxInBlockStatus,
    pub block_number: Option<u32>,
    pub fail_reason: Option<String>,
    pub eth_block: Option<i64>,
    pub serial_id: Option<i64>,
}

/// The receipt of a priority operation: included operations are committed;
/// verified once their block is covered by a confirmed execute range.
#[derive(Debug, Clone, Copy, PartialEq, Eq, Structural)]
pub struct PriorityOpReceiptResponse {
    pub committed: bool,
    pub verified: bool,
}

impl crate::schema::OperationsExtSchema {
    /// Loads the receipt of an executed ordinary transaction: its stored
    /// outcome, with the finality flag resolved against the confirmed
    /// execute ranges. An unknown hash yields no receipt.
    pub fn tx_receipt(&self, hash: &[u8]) -> (r: Option<TxReceiptResponse>)
        ensures
            match r {
                Some(resp) => exists|i: int|
                    {
                        &&& #[trigger] first_tx_with_hash(self.0.executed_txs@, hash@, i)
                        &&& resp.tx_hash@ == crate::codec::hex_of(hash@)
                        &&& resp.block_number == self.0.executed_txs@[i].block_number
                        &&& resp.success == self.0.executed_txs@[i].success
                        &&& resp.verified == spec_block_finalized(
                            self.0.aggregated_ops@,
                            self.0.executed_txs@[i].block_number,
                        )
                        &&& resp.fail_reason == self.0.executed_txs@[i].fail_reason
                    },
                None => no_tx_with_hash(self.0.executed_txs@, hash@),
            },
    {
        match find_tx_index(&self.0.executed_txs, hash) {
            Some(i) => {
                let t = &self.0.executed_txs[i];
                let verified = crate::status::is_block_finalized(
                    &self.0.aggregated_ops,
                    t.block_number,
                );
                Some(
                    TxReceiptResponse {
                        tx_hash: crate::codec::plain_hex_string(hash),
                        block_number: t.block_number,
                        success: t.success,
                        verified,
                        fail_reason: crate::records::clone_opt_string(&t.fail_reason),
                    },
                )
            },
            None => None,
        }
    }

    /// Loads the receipt for any hash: an executed transaction first, then
    /// a priority operation (by its own or its L1 hash), then a queued
    /// mempool transaction. An unknown hash yields no receipt.
    pub fn tx_receipt_api_v02(&self, hash: &[u8]) -> (r: Option<Receipt>)
        ensures
            match r {
                Some(resp) => {
                    ||| exists|i: int|
                        {
                            &&& #[trigger] first_tx_with_hash(self.0.executed_txs@, hash@, i)
                            &&& resp.tx_hash@ == self.0.executed_txs@[i].tx_hash@
                            &&& resp.status == crate::status::spec_tx_status(
                                self.0.executed_txs@[i].success,
                                spec_block_finalized(
                                    self.0.aggregated_ops@,
                                    self.0.executed_txs@[i].block_number,
                                ),
                            )
                            &&& resp.block_number == Some(self.0.executed_txs@[i].block_number)
                            &&& resp.fail_reason == self.0.executed_txs@[i].fail_reason
                            &&& resp.eth_block is None
                            &&& resp.serial_id is None
                        }
                    ||| exists|i: int|
                        {
                            &&& no_tx_with_hash(self.0.executed_txs@, hash@)
                            &&& #[trigger] first_pop_with_any_hash(self.0.priority_ops@, hash@, i)
                            &&& resp.tx_hash@ == self.0.priority_ops@[i].tx_hash@
                            &&& resp.status == crate::status::spec_tx_status(
                                true,
                                spec_block_finalized(
                                    self.0.aggregated_ops@,
                                    self.0.priority_ops@[i].block_number,
                                ),
                            )
                            &&& resp.block_number == Some(self.0.priority_ops@[i].block_number)
                            &&& resp.fail_reason is None
                            &&& resp.eth_block == Some(self.0.priority_ops@[i].eth_block)
                            &&& resp.serial_id == Some(self.0.priority_ops@[i].serial_id)
                        }
                    ||| exists|i: int|
                        {
                            &&& no_tx_with_hash(self.0.executed_txs@, hash@)
                            &&& no_pop_with_any_hash(self.0.priority_ops@, hash@)
                            &&& #[trigger] first_mempool_with_hash(self.0.mempool_txs@, hash@, i)
                            &&& resp.tx_hash@ == self.0.mempool_txs@[i].tx_hash@
                            &&& resp.status == TxInBlockStatus::Queued
                            &&& resp.block_number is None
                            &&& resp.fail_reason is None
                            &&& resp.eth_block is None
                            &&& resp.serial_id is None
                        }
                },
                None => {
                    &&& no_tx_with_hash(self.0.executed_txs@, hash@)
                    &&& no_pop_with_any_hash(self.0.priority_ops@, hash@)
                    &&& no_mempool_with_hash(self.0.mempool_txs@, hash@)
                },
            },
    {
        if let Some(i) = find_tx_index(&self.0.executed_txs, hash) {
            let t = &self.0.executed_txs[i];
            let status = crate::status::resolve_tx_status(
                &self.0.aggregated_ops,
                t.success,
                t.block_number,
            );
            return Some(
                Receipt {
                    tx_hash: crate::records::clone_bytes(&t.tx_hash),
                    status,
                    block_number: Some(t.block_number),
                    fail_reason: crate::records::clone_opt_string(&t.fail_reason),
                    eth_block: None,
                    serial_id: None,
                },
            );
        }
        if let Some(i) = find_pop_index_by_any_hash(&self.0.priority_ops, hash) {
            let p = &self.0.priority_ops[i];
            let status = crate::status::resolve_tx_status(
                &self.0.aggregated_ops,
                true,
                p.block_number,
            );
            return Some(
                Receipt {
                    tx_hash: crate::records::clone_bytes(&p.tx_hash),
                    status,
                    block_number: Some(p.block_number),
                    fail_reason: None,
                    eth_block: Some(p.eth_block),
                    serial_id: Some(p.serial_id),
                },
            );
        }
        if let Some(i) = find_mempool_index(&self.0.mempool_txs, hash) {
            let m = &self.0.mempool_txs[i];
            return Some(
                Receipt {
                    tx_hash: crate::records::clone_bytes(&m.tx_hash),
                    status: TxInBlockStatus::Queued,
                    block_number: None,
                    fail_reason: None,
                    eth_block: None,
                    serial_id: None,
                },
            );
        }
        None
    }

    /// Loads the receipt of a priority operation by its serial id: an
    /// included operation is committed, and verified once its block is
    /// covered by a confirmed execute range; an unknown id is neither.
    pub fn get_priority_op_receipt(&self, op_id: u32) -> (r: PriorityOpReceiptResponse)
        ensures
            match r {
                PriorityOpReceiptResponse { committed, verified } => {
                    &&& committed == exists|i: int| #[trigger] first_pop_with_serial(
                        self.0.priority_ops@,
                        op_id as i64,
                        i,
                    )
                    &&& verified == exists|i: int| #[trigger] first_pop_with_serial(
                        self.0.priority_ops@,
                        op_id as i64,
                        i,
                    ) && spec_block_finalized(
                        self.0.aggregated_ops@,
                        self.0.priority_ops@[i].block_number,
                    )
                },
            },
    {
        let n = self.0.priority_ops.len();
        let mut i: usize = 0;
        while i < n
            invariant
                n == self.0.priority_ops@.len(),
                0 <= i <= n,
                forall|j: int| 0 <= j < i ==> (#[trigger] self.0.priority_ops@[j]).serial_id
                    != op_id as i64,
            decreases n - i,
        {
            if self.0.priority_ops[i].serial_id == op_id as i64 {
                let verified = crate::status::is_block_finalized(
                    &self.0.aggregated_ops,
                    self.0.priority_ops[i].block_number,
                );
                proof {
                    assert(first_pop_with_serial(self.0.priority_ops@, op_id as i64, i as int));
                }
                return PriorityOpReceiptResponse { committed: true, verified };
            }
            i += 1;
        }
        proof {
            assert forall|k: int| !#[trigger] first_pop_with_serial(
                self.0.priority_ops@,
                op_id as i64,
                k,
            ) by {
                if 0 <= k < self.0.priority_ops@.len() {
                    assert(self.0.priority_ops@[k].serial_id != op_id as i64);
                }
            }
        }
        PriorityOpReceiptResponse { committed: false, verified: false }
    }

    /// Loads the creation time and block number of a transaction: from the
    /// executed transactions first, then from the priority operations by
    /// their own hash.
    pub fn get_tx_created_at_and_block_number(&self, tx_hash: &[u8]) -> (r: Option<(i64, u32)>)
        ensures
            match r {
                Some((created_at, block)) => {
                    ||| exists|i: int|
                        {
                            &&& #[trigger] first_tx_with_hash(self.0.executed_txs@, tx_hash@, i)
                            &&& created_at == self.0.executed_txs@[i].created_at
                            &&& block == self.0.executed_txs@[i].block_number
                        }
                    ||| exists|i: int|
                        {
                            &&& no_tx_with_hash(self.0.executed_txs@, tx_hash@)
                            &&& #[trigger] first_pop_with_tx_hash(self.0.priority_ops@, tx_hash@, i)
                            &&& created_at == self.0.priority_ops@[i].created_at
                            &&& block == self.0.priority_ops@[i].block_number
                        }
                },
                None => {
                    &&& no_tx_with_hash(self.0.executed_txs@, tx_hash@)
                    &&& no_pop_with_tx_hash(self.0.priority_ops@, tx_hash@)
                },
            },
    {
        if let Some(i) = find_tx_index(&self.0.executed_txs, tx_hash) {
            let t = &self.0.executed_txs[i];
            return Some((t.created_at, t.block_number));
        }
        if let Some(i) = find_pop_index_by_tx_hash(&self.0.priority_ops, tx_hash) {
            let p = &self.0.priority_ops[i];
            return Some((p.created_at, p.block_number));
        }
        None
    }
}

/// Position `i` holds the first priority operation with the L1 hash.
pub open spec fn first_pop_with_eth_hash(pops: Seq<PriorityOpRecord>, h: Seq<u8>, i: int) -> bool {
    &&& 0 <= i < pops.len()
    &&& pops[i].eth_hash@ == h
    &&& forall|j: int| 0 <= j < i ==> (#[trigger] pops[j]).eth_hash@ != h
}

/// No priority operation has the L1 hash.
pub open spec fn no_pop_with_eth_hash(pops: Seq<PriorityOpRecord>, h: Seq<u8>) -> bool {
    forall|j: int| 0 <= j < pops.len() ==> (#[trigger] pops[j]).eth_hash@ != h
}

/// Finds the first priority operation with the L1 hash.
pub fn find_pop_index_by_eth_hash(pops: &Vec<PriorityOpRecord>, hash: &[u8]) -> (r: Option<usize>)
    ensures
        match r {
            Some(i) => first_pop_with_eth_hash(pops@, hash@, i as int),
            None => no_pop_with_eth_hash(pops@, hash@),
        },
{
    let n = pops.len();
    let mut i: usize = 0;
    while i < n
        invariant
            n == pops@.len(),
            0 <= i <= n,
            forall|j: int| 0 <= j < i ==> (#[trigger] pops@[j]).eth_hash@ != hash@,
        decreases n - i,
    {
        if crate::records::bytes_eq(pops[i].eth_hash.as_slice(), hash) {
            return Some(i);
        }
        i += 1;
    }
    None
}

/// A transaction summarized for the by-hash lookup: its kind, parties,
/// token, amounts and position, with documented sentinels standing in for
/// fields its kind does not carry.
#[derive(Debug)]
pub struct TxByHashResponse {
    pub tx_type: String,
    pub from: String,
    pub to: String,
    pub token: i64,
    pub amount: String,
    pub fee: Option<String>,
    pub block_number: i64,
    pub nonce: i64,
    pub created_at: String,
    pub fail_reason: Option<String>,
    pub tx: TxPayload,
    pub batch_id: Option<i64>,
}

/// The by-hash summary derived from an executed ordinary transaction.
pub open spec fn by_hash_from_tx(resp: TxByHashResponse, t: TxRecord) -> bool {
    &&& resp.tx_type@ == user_type_text(t.payload)
    &&& resp.from@ == from_text(t.payload)
    &&& resp.to@ == to_text(t.payload)
    &&& resp.token as int == token_num(t.payload)
    &&& resp.amount@ == amount_text(t.payload)
    &&& fee_ok(t.payload, resp.fee)
    &&& resp.block_number == t.block_number as i64
    &&& resp.nonce as int == nonce_num(t.payload)
    &&& resp.created_at@ == crate::codec::timestamp_text(t.created_at)
    &&& resp.fail_reason == t.fail_reason
    &&& resp.tx == t.payload
    &&& resp.batch_id == t.batch_id
}

/// The by-hash summary derived from a priority operation: always
/// successful, with no fee, nonce or batch.
pub open spec fn by_hash_from_pop(resp: TxByHashResponse, p: PriorityOpRecord) -> bool {
    &&& resp.tx_type@ == priority_type_text(p.payload)
    &&& resp.from@ == from_text(p.payload)
    &&& resp.to@ == to_text(p.payload)
    &&& resp.token as int == token_num(p.payload)
    &&& resp.amount@ == amount_text(p.payload)
    &&& resp.fee is None
    &&& resp.block_number == p.block_number as i64
    &&& resp.nonce == -1
    &&& resp.created_at@ == crate::codec::timestamp_text(p.created_at)
    &&& resp.fail_reason is None
    &&& resp.tx == p.payload
    &&& resp.batch_id is None
}

impl crate::schema::OperationsExtSchema {
    /// Summarizes the first executed ordinary transaction with the hash:
    /// kind, parties, token, amount and fee read from its payload by a
    /// total match, position and outcome from the record.
    pub fn find_tx_by_hash(&self, hash: &[u8]) -> (r: Option<TxByHashResponse>)
        requires
            self.0.wf(),
        ensures
            match r {
                Some(resp) => exists|i: int|
                    {
                        &&& #[trigger] first_tx_with_hash(self.0.executed_txs@, hash@, i)
                        &&& by_hash_from_tx(resp, self.0.executed_txs@[i])
                    },
                None => no_tx_with_hash(self.0.executed_txs@, hash@),
            },
    {
        match find_tx_index(&self.0.executed_txs, hash) {
            Some(i) => {
                let t = &self.0.executed_txs[i];
                Some(
                    TxByHashResponse {
                        tx_type: user_type_string(&t.payload),
                        from: from_string(&t.payload),
                        to: to_string_of(&t.payload),
                        token: token_i64(&t.payload),
                        amount: amount_string(&t.payload),
                        fee: fee_option(&t.payload),
                        block_number: t.block_number as i64,
                        nonce: nonce_i64(&t.payload),
                        created_at: crate::codec::render_created_at(t.created_at),
                        fail_reason: crate::records::clone_opt_string(&t.fail_reason),
                        tx: t.payload.clone(),
                        batch_id: t.batch_id,
                    },
                )
            },
            None => None,
        }
    }

    /// Summarizes the first executed priority operation with the given L1
    /// hash.
    pub fn find_priority_op_by_hash(&self, hash: &[u8]) -> (r: Option<TxByHashResponse>)
        requires
            self.0.wf(),
        ensures
            match r {
                Some(resp) => exists|i: int|
                    {
                        &&& #[trigger] first_pop_with_eth_hash(self.0.priority_ops@, hash@, i)
                        &&& by_hash_from_pop(resp, self.0.priority_ops@[i])
                    },
                None => no_pop_with_eth_hash(self.0.priority_ops@, hash@),
            },
    {
        match find_pop_index_by_eth_hash(&self.0.priority_ops, hash) {
            Some(i) => {
                let p = &self.0.priority_ops[i];
                Some(
                    TxByHashResponse {
                        tx_type: priority_type_string(&p.payload),
                        from: from_string(&p.payload),
                        to: to_string_of(&p.payload),
                        token: token_i64(&p.payload),
                        amount: amount_string(&p.payload),
                        fee: None,
                        block_number: p.block_number as i64,
                        nonce: -1,
                        created_at: crate::codec::render_created_at(p.created_at),
                        fail_reason: None,
                        tx: p.payload.clone(),
                        batch_id: None,
                    },
                )
            },
            None => None,
        }
    }

    /// Summarizes the transaction with the hash: the executed ordinary
    /// transactions are searched first, then the priority operations by
    /// their L1 hash. An unknown hash yields no summary.
    pub fn get_tx_by_hash(&self, hash: &[u8]) -> (r: Option<TxByHashResponse>)
        requires
            self.0.wf(),
        ensures
            match r {
                Some(resp) => {
                    ||| exists|i: int|
                        {
                            &&& #[trigger] first_tx_with_hash(self.0.executed_txs@, hash@, i)
                            &&& by_hash_from_tx(resp, self.0.executed_txs@[i])
                        }
                    ||| exists|i: int|
                        {
                            &&& no_tx_with_hash(self.0.executed_txs@, hash@)
                            &&& #[trigger] first_pop_with_eth_hash(self.0.priority_ops@, hash@, i)
                            &&& by_hash_from_pop(resp, self.0.priority_ops@[i])
                        }
                },
                None => {
                    &&& no_tx_with_hash(self.0.executed_txs@, hash@)
                    &&& no_pop_with_eth_hash(self.0.priority_ops@, hash@)
                },
            },
    {
        match self.find_tx_by_hash(hash) {
            Some(resp) => Some(resp),
            None => self.find_priority_op_by_hash(hash),
        }
    }
}

/// Position `i` holds the first recorded withdrawal for the transaction.
pub open spec fn first_withdrawal(
    ws: Seq<crate::records::WithdrawalTxRecord>,
    h: Seq<u8>,
    i: int,
) -> bool {
    &&& 0 <= i < ws.len()
    &&& ws[i].tx_hash@ == h
    &&& forall|j: int| 0 <= j < i ==> (#[trigger] ws[j]).tx_hash@ != h
}

/// No withdrawal is recorded for the transaction.
pub open spec fn no_withdrawal(ws: Seq<crate::records::WithdrawalTxRecord>, h: Seq<u8>) -> bool {
    forall|j: int| 0 <= j < ws.len() ==> (#[trigger] ws[j]).tx_hash@ != h
}

/// The kinds for which a completed withdrawal's L1 hash is reported.
pub open spec fn is_withdrawal_kind(p: TxPayload) -> bool {
    match p {
        TxPayload::Withdraw { .. } => true,
        TxPayload::ForcedExit { .. } => true,
        _ => false,
    }
}

/// The withdrawal hash reported for a transaction: the first recorded one
/// when the kind withdraws, nothing otherwise.
pub open spec fn withdrawal_report_ok(
    ws: Seq<crate::records::WithdrawalTxRecord>,
    p: TxPayload,
    h: Seq<u8>,
    out: Option<Vec<u8>>,
) -> bool {
    if is_withdrawal_kind(p) {
        match out {
            Some(w) => exists|i: int| #[trigger] first_withdrawal(ws, h, i) && w@
                == ws[i].eth_tx_hash@,
            None => no_withdrawal(ws, h),
        }
    } else {
        out is None
    }
}

/// Finds the first recorded withdrawal for the transaction.
fn find_withdrawal_index(
    ws: &Vec<crate::records::WithdrawalTxRecord>,
    hash: &[u8],
) -> (r: Option<usize>)
    ensures
        match r {
            Some(i) => first_withdrawal(ws@, hash@, i as int),
            None => no_withdrawal(ws@, hash@),
        },
{
    let n = ws.len();
    let mut i: usize = 0;
    while i < n
        invariant
            n == ws@.len(),
            0 <= i <= n,
            forall|j: int| 0 <= j < i ==> (#[trigger] ws@[j]).tx_hash@ != hash@,
        decreases n - i,
    {
        if crate::records::bytes_eq(ws[i].tx_hash.as_slice(), hash) {
            return Some(i);
        }
        i += 1;
    }
    None
}

/// The full data of a transaction: payload, position, status, and, for a
/// withdrawing kind, the L1 hash of the completed withdrawal.
#[derive(Debug)]
pub struct TxData {
    pub tx_hash: Vec<u8>,
    pub block_number: Option<u32>,
    pub payload: TxPayload,
    pub created_at: i64,
    pub status: TxInBlockStatus,
    pub fail_reason: Option<String>,
    pub batch_id: Option<i64>,
    pub eth_hash: Option<Vec<u8>>,
    pub serial_id: Option<i64>,
    pub eth_sign_data: Option<String>,
    pub complete_withdrawals_tx_hash: Option<Vec<u8>>,
}

impl crate::schema::OperationsExtSchema {
    /// Loads the full data for any hash: an executed transaction first,
    /// then a priority operation (by its own or its L1 hash), then a
    /// queued mempool transaction. For a withdrawing kind the completed
    /// withdrawal's L1 hash is attached. An unknown hash yields nothing.
    pub fn tx_data_api_v02(&self, hash: &[u8]) -> (r: Option<TxData>)
        ensures
            match r {
                Some(d) => {
                    ||| exists|i: int|
                        {
                            let t = self.0.executed_txs@[i];
                            &&& #[trigger] first_tx_with_hash(self.0.executed_txs@, hash@, i)
                            &&& d.tx_hash@ == t.tx_hash@
                            &&& d.block_number == Some(t.block_number)
                            &&& d.payload == t.payload
                            &&& d.created_at == t.created_at
                            &&& d.status == crate::status::spec_tx_status(
                                t.success,
                                spec_block_finalized(self.0.aggregated_ops@, t.block_number),
                            )
                            &&& d.fail_reason == t.fail_reason
                            &&& d.batch_id == t.batch_id
                            &&& d.eth_hash is None
                            &&& d.serial_id is None
                            &&& d.eth_sign_data == t.eth_sign_data
                            &&& withdrawal_report_ok(
                                self.0.withdrawal_txs@,
                                t.payload,
                                t.tx_hash@,
                                d.complete_withdrawals_tx_hash,
                            )
                        }
                    ||| exists|i: int|
                        {
                            let p = self.0.priority_ops@[i];
                            &&& no_tx_with_hash(self.0.executed_txs@, hash@)
                            &&& #[trigger] first_pop_with_any_hash(self.0.priority_ops@, hash@, i)
                            &&& d.tx_hash@ == p.tx_hash@
                            &&& d.block_number == Some(p.block_number)
                            &&& d.payload == p.payload
                            &&& d.created_at == p.created_at
                            &&& d.status == crate::status::spec_tx_status(
                                true,
                                spec_block_finalized(self.0.aggregated_ops@, p.block_number),
                            )
                            &&& d.fail_reason is None
                            &&& d.batch_id is None
                            &&& d.eth_hash matches Some(h) && h@ == p.eth_hash@
                            &&& d.serial_id == Some(p.serial_id)
                            &&& d.eth_sign_data is None
                            &&& withdrawal_report_ok(
                                self.0.withdrawal_txs@,
                                p.payload,
                                p.tx_hash@,
                                d.complete_withdrawals_tx_hash,
                            )
                        }
                    ||| exists|i: int|
                        {
                            let m = self.0.mempool_txs@[i];
                            &&& no_tx_with_hash(self.0.executed_txs@, hash@)
                            &&& no_pop_with_any_hash(self.0.priority_ops@, hash@)
                            &&& #[trigger] first_mempool_with_hash(self.0.mempool_txs@, hash@, i)
                            &&& d.tx_hash@ == m.tx_hash@
                            &&& d.block_number is None
                            &&& d.payload == m.payload
                            &&& d.created_at == m.created_at
                            &&& d.status == TxInBlockStatus::Queued
                            &&& d.fail_reason is None
                            &&& d.batch_id == m.batch_id
                            &&& d.eth_hash is None
                            &&& d.serial_id is None
                            &&& d.eth_sign_data == m.eth_sign_data
                            &&& withdrawal_report_ok(
                                self.0.withdrawal_txs@,
                                m.payload,
                                m.tx_hash@,
                                d.complete_withdrawals_tx_hash,
                            )
                        }
                },
                None => {
                    &&& no_tx_with_hash(self.0.executed_txs@, hash@)
                    &&& no_pop_with_any_hash(self.0.priority_ops@, hash@)
                    &&& no_mempool_with_hash(self.0.mempool_txs@, hash@)
                },
            },
    {
        if let Some(i) = find_tx_index(&self.0.executed_txs, hash) {
            let t = &self.0.executed_txs[i];
            let status = crate::status::resolve_tx_status(
                &self.0.aggregated_ops,
                t.success,
                t.block_number,
            );
            let withdrawals = self.withdrawal_hash_for(&t.payload, &t.tx_hash);
            return Some(
                TxData {
                    tx_hash: crate::records::clone_bytes(&t.tx_hash),
                    block_number: Some(t.block_number),
                    payload: t.payload.clone(),
                    created_at: t.created_at,
                    status,
                    fail_reason: crate::records::clone_opt_string(&t.fail_reason),
                    batch_id: t.batch_id,
                    eth_hash: None,
                    serial_id: None,
                    eth_sign_data: crate::records::clone_opt_string(&t.eth_sign_data),
                    complete_withdrawals_tx_hash: withdrawals,
                },
            );
        }
        if let Some(i) = find_pop_index_by_any_hash(&self.0.priority_ops, hash) {
            let p = &self.0.priority_ops[i];
            let status = crate::status::resolve_tx_status(
                &self.0.aggregated_ops,
                true,
                p.block_number,
            );
            let withdrawals = self.withdrawal_hash_for(&p.payload, &p.tx_hash);
            return Some(
                TxData {
                    tx_hash: crate::records::clone_bytes(&p.tx_hash),
                    block_number: Some(p.block_number),
                    payload: p.payload.clone(),
                    created_at: p.created_at,
                    status,
                    fail_reason: None,
                    batch_id: None,
                    eth_hash: Some(crate::records::clone_bytes(&p.eth_hash)),
                    serial_id: Some(p.serial_id),
                    eth_sign_data: None,
                    complete_withdrawals_tx_hash: withdrawals,
                },
            );
        }
        if let Some(i) = find_mempool_index(&self.0.mempool_txs, hash) {
            let m = &self.0.mempool_txs[i];
            let withdrawals = self.withdrawal_hash_for(&m.payload, &m.tx_hash);
            return Some(
                TxData {
                    tx_hash: crate::records::clone_bytes(&m.tx_hash),
                    block_number: None,
                    payload: m.payload.clone(),
                    created_at: m.created_at,
                    status: TxInBlockStatus::Queued,
                    fail_reason: None,
                    batch_id: m.batch_id,
                    eth_hash: None,
                    serial_id: None,
                    eth_sign_data: crate::records::clone_opt_string(&m.eth_sign_data),
                    complete_withdrawals_tx_hash: withdrawals,
                },
            );
        }
        None
    }

    /// The completed withdrawal's L1 hash for a withdrawing kind.
    fn withdrawal_hash_for(&self, payload: &TxPayload, tx_hash: &Vec<u8>) -> (r: Option<Vec<u8>>)
        ensures
            withdrawal_report_ok(self.0.withdrawal_txs@, *payload, tx_hash@, r),
    {
        let withdrawing = match payload {
            TxPayload::Withdraw { .. } => true,
            TxPayload::ForcedExit { .. } => true,
            _ => false,
        };
        if withdrawing {
            match find_withdrawal_index(&self.0.withdrawal_txs, tx_hash.as_slice()) {
                Some(i) => Some(crate::records::clone_bytes(&self.0.withdrawal_txs[i].eth_tx_hash)),
                None => None,
            }
        } else {
            None
        }
    }
}

/// Whether the transaction touches the address, as source, target or
/// primary account.
pub open spec fn tx_touches(r: TxRecord, addr: Seq<u8>) -> bool {
    r.from_account@ == addr || r.to_account@ == addr || r.primary_account_address@ == addr
}

/// Whether the priority operation touches the address.
pub open spec fn pop_touches(p: PriorityOpRecord, addr: Seq<u8>) -> bool {
    p.from_account@ == addr || p.to_account@ == addr
}

/// The earliest creation time among the first `n` transactions touching
/// the address.
pub open spec fn min_created_txs(txs: Seq<TxRecord>, addr: Seq<u8>, n: int) -> Option<int>
    decreases n,
{
    if n <= 0 {
        None
    } else {
        let rest = min_created_txs(txs, addr, n - 1);
        if tx_touches(txs[n - 1], addr) {
            match rest {
                None => Some(txs[n - 1].created_at as int),
                Some(m) => if txs[n - 1].created_at < m {
                    Some(txs[n - 1].created_at as int)
                } else {
                    Some(m)
                },
            }
        } else {
            rest
        }
    }
}

/// The earliest creation time among the first `n` priority operations
/// touching the address.
pub open spec fn min_created_pops(pops: Seq<PriorityOpRecord>, addr: Seq<u8>, n: int) -> Option<
    int,
>
    decreases n,
{
    if n <= 0 {
        None
    } else {
        let rest = min_created_pops(pops, addr, n - 1);
        if pop_touches(pops[n - 1], addr) {
            match rest {
                None => Some(pops[n - 1].created_at as int),
                Some(m) => if pops[n - 1].created_at < m {
                    Some(pops[n - 1].created_at as int)
                } else {
                    Some(m)
                },
            }
        } else {
            rest
        }
    }
}

/// The smaller of two optional values.
pub open spec fn opt_min(a: Option<int>, b: Option<int>) -> Option<int> {
    match a {
        None => b,
        Some(x) => match b {
            None => Some(x),
            Some(y) => if x < y {
                Some(x)
            } else {
                Some(y)
            },
        },
    }
}

impl crate::schema::OperationsExtSchema {
    /// The moment the account was first seen: the earliest creation time
    /// over both partitions of any entry touching the address; nothing
    /// when the address has no history.
    pub fn account_created_on(&self, address: &[u8]) -> (r: Option<i64>)
        ensures
            ({
                let m = opt_min(
                    min_created_txs(self.0.executed_txs@, address@, self.0.executed_txs@.len() as int),
                    min_created_pops(
                        self.0.priority_ops@,
                        address@,
                        self.0.priority_ops@.len() as int,
                    ),
                );
                match r {
                    Some(t) => m == Some(t as int),
                    None => m is None,
                }
            }),
    {
        let txs = &self.0.executed_txs;
        let pops = &self.0.priority_ops;
        let mut best: Option<i64> = None;
        let n1 = txs.len();
        let mut i: usize = 0;
        while i < n1
            invariant
                n1 == txs@.len(),
                0 <= i <= n1,
                txs == self.0.executed_txs,
                match best {
                    Some(t) => min_created_txs(txs@, address@, i as int) == Some(t as int),
                    None => min_created_txs(txs@, address@, i as int) is None,
                },
            decreases n1 - i,
        {
            let t = &txs[i];
            if crate::records::bytes_eq(t.from_account.as_slice(), address)
                || crate::records::bytes_eq(t.to_account.as_slice(), address)
                || crate::records::bytes_eq(t.primary_account_address.as_slice(), address) {
                best = match best {
                    None => Some(t.created_at),
                    Some(m) => if t.created_at < m {
                        Some(t.created_at)
                    } else {
                        Some(m)
                    },
                };
            }
            i += 1;
        }
        let n2 = pops.len();
        let mut j: usize = 0;
        let mut best2: Option<i64> = None;
        while j < n2
            invariant
                n2 == pops@.len(),
                0 <= j <= n2,
                pops == self.0.priority_ops,
                match best2 {
                    Some(t) => min_created_pops(pops@, address@, j as int) == Some(t as int),
                    None => min_created_pops(pops@, address@, j as int) is None,
                },
            decreases n2 - j,
        {
            let p = &pops[j];
            if crate::records::bytes_eq(p.from_account.as_slice(), address)
                || crate::records::bytes_eq(p.to_account.as_slice(), address) {
                best2 = match best2 {
                    None => Some(p.created_at),
                    Some(m) => if p.created_at < m {
                        Some(p.created_at)
                    } else {
                        Some(m)
                    },
                };
            }
            j += 1;
        }
        match best {
            None => best2,
            Some(x) => match best2 {
                None => Some(x),
                Some(y) => if x < y {
                    Some(x)
                } else {
                    Some(y)
                },
            },
        }
    }
}

/// Whether the first entry comes later than the second: by creation time,
/// then by intra-block position.
pub open spec fn entry_later(e: crate::merge::LedgerEntry, f: crate::merge::LedgerEntry) -> bool {
    crate::merge::entry_created(e) > crate::merge::entry_created(f) || (
    crate::merge::entry_created(e) == crate::merge::entry_created(f)
        && crate::merge::entry_index(e) > crate::merge::entry_index(f))
}

/// The hash an entry is listed under.
pub open spec fn entry_tx_hash(e: crate::merge::LedgerEntry) -> Seq<u8> {
    match e {
        crate::merge::LedgerEntry::Tx(r) => r.tx_hash@,
        crate::merge::LedgerEntry::Pop(p) => p.tx_hash@,
    }
}

/// The latest entry among the first `n` transactions the index links to
/// the address, continuing from `init`.
pub open spec fn best_tx_entry(
    txs: Seq<TxRecord>,
    fs: Seq<crate::records::FilterIndexEntry>,
    addr: Seq<u8>,
    n: int,
    init: Option<crate::merge::LedgerEntry>,
) -> Option<crate::merge::LedgerEntry>
    decreases n,
{
    if n <= 0 {
        init
    } else {
        let rest = best_tx_entry(txs, fs, addr, n - 1, init);
        let e = crate::merge::LedgerEntry::Tx(txs[n - 1]);
        if crate::history::tx_in_filter(fs, addr, txs[n - 1].tx_hash@) && (rest is None
            || entry_later(e, rest.unwrap())) {
            Some(e)
        } else {
            rest
        }
    }
}

/// The latest entry among the first `n` priority operations the index
/// links to the address, continuing from `init`.
pub open spec fn best_pop_entry(
    pops: Seq<PriorityOpRecord>,
    fs: Seq<crate::records::FilterIndexEntry>,
    addr: Seq<u8>,
    n: int,
    init: Option<crate::merge::LedgerEntry>,
) -> Option<crate::merge::LedgerEntry>
    decreases n,
{
    if n <= 0 {
        init
    } else {
        let rest = best_pop_entry(pops, fs, addr, n - 1, init);
        let e = crate::merge::LedgerEntry::Pop(pops[n - 1]);
        if crate::history::tx_in_filter(fs, addr, pops[n - 1].tx_hash@) && (rest is None
            || entry_later(e, rest.unwrap())) {
            Some(e)
        } else {
            rest
        }
    }
}

/// The account's most recent entry: the latest, by creation time then
/// intra-block position, among everything the index links to the address.
pub open spec fn account_last_entry(
    store: crate::schema::StorageModel,
    addr: Seq<u8>,
) -> Option<crate::merge::LedgerEntry> {
    best_pop_entry(
        store.priority_ops@,
        store.tx_filters@,
        addr,
        store.priority_ops@.len() as int,
        best_tx_entry(
            store.executed_txs@,
            store.tx_filters@,
            addr,
            store.executed_txs@.len() as int,
            None,
        ),
    )
}

/// The latest entry among the first `n` transactions in the block,
/// continuing from `init`.
pub open spec fn best_tx_in_block(
    txs: Seq<TxRecord>,
    block: u32,
    n: int,
    init: Option<crate::merge::LedgerEntry>,
) -> Option<crate::merge::LedgerEntry>
    decreases n,
{
    if n <= 0 {
        init
    } else {
        let rest = best_tx_in_block(txs, block, n - 1, init);
        let e = crate::merge::LedgerEntry::Tx(txs[n - 1]);
        if txs[n - 1].block_number == block && (rest is None || entry_later(e, rest.unwrap())) {
            Some(e)
        } else {
            rest
        }
    }
}

/// The latest entry among the first `n` priority operations in the block,
/// continuing from `init`.
pub open spec fn best_pop_in_block(
    pops: Seq<PriorityOpRecord>,
    block: u32,
    n: int,
    init: Option<crate::merge::LedgerEntry>,
) -> Option<crate::merge::LedgerEntry>
    decreases n,
{
    if n <= 0 {
        init
    } else {
        let rest = best_pop_in_block(pops, block, n - 1, init);
        let e = crate::merge::LedgerEntry::Pop(pops[n - 1]);
        if pops[n - 1].block_number == block && (rest is None || entry_later(e, rest.unwrap())) {
            Some(e)
        } else {
            rest
        }
    }
}

/// The block's last entry, by creation time then intra-block position.
pub open spec fn block_last_entry(
    store: crate::schema::StorageModel,
    block: u32,
) -> Option<crate::merge::LedgerEntry> {
    best_pop_in_block(
        store.priority_ops@,
        block,
        store.priority_ops@.len() as int,
        best_tx_in_block(store.executed_txs@, block, store.executed_txs@.len() as int, None),
    )
}

impl crate::schema::OperationsExtSchema {
    /// The hash of the account's most recent entry — the latest, by
    /// creation time then intra-block position, among everything the
    /// filter index links to the address; nothing when the index links
    /// none.
    pub fn get_account_last_tx_hash(&self, address: &[u8]) -> (r: Option<Vec<u8>>)
        ensures
            match account_last_entry(self.0, address@) {
                Some(e) => r matches Some(h) && h@ == entry_tx_hash(e),
                None => r is None,
            },
    {
        let txs = &self.0.executed_txs;
        let pops = &self.0.priority_ops;
        let fs = &self.0.tx_filters;
        let mut best: Option<Vec<u8>> = None;
        let mut best_created: i64 = 0;
        let mut best_index: u32 = 0;
        let n1 = txs.len();
        let mut i: usize = 0;
        while i < n1
            invariant
                n1 == txs@.len(),
                0 <= i <= n1,
                txs == self.0.executed_txs,
                fs == self.0.tx_filters,
                match best_tx_entry(txs@, fs@, address@, i as int, None) {
                    Some(e) => best matches Some(h) && h@ == entry_tx_hash(e) && best_created
                        == crate::merge::entry_created(e) && best_index as int
                        == crate::merge::entry_index(e),
                    None => best is None,
                },
            decreases n1 - i,
        {
            let t = &txs[i];
            if crate::history::address_has_hash(fs, address, t.tx_hash.as_slice()) {
                let is_better = match &best {
                    None => true,
                    Some(_) => t.created_at > best_created || (t.created_at == best_created
                        && t.block_index > best_index),
                };
                if is_better {
                    best = Some(crate::records::clone_bytes(&t.tx_hash));
                    best_created = t.created_at;
                    best_index = t.block_index;
                }
            }
            i += 1;
        }
        let ghost mid = best_tx_entry(txs@, fs@, address@, txs@.len() as int, None);
        let n2 = pops.len();
        let mut j: usize = 0;
        while j < n2
            invariant
                n2 == pops@.len(),
                0 <= j <= n2,
                pops == self.0.priority_ops,
                fs == self.0.tx_filters,
                mid == best_tx_entry(
                    self.0.executed_txs@,
                    fs@,
                    address@,
                    self.0.executed_txs@.len() as int,
                    None,
                ),
                match best_pop_entry(pops@, fs@, address@, j as int, mid) {
                    Some(e) => best matches Some(h) && h@ == entry_tx_hash(e) && best_created
                        == crate::merge::entry_created(e) && best_index as int
                        == crate::merge::entry_index(e),
                    None => best is None,
                },
            decreases n2 - j,
        {
            let p = &pops[j];
            if crate::history::address_has_hash(fs, address, p.tx_hash.as_slice()) {
                let is_better = match &best {
                    None => true,
                    Some(_) => p.created_at > best_created || (p.created_at == best_created
                        && p.block_index > best_index),
                };
                if is_better {
                    best = Some(crate::records::clone_bytes(&p.tx_hash));
                    best_created = p.created_at;
                    best_index = p.block_index;
                }
            }
            j += 1;
        }
        best
    }

    /// The hash of the block's last entry — the latest, by creation time
    /// then intra-block position, over both partitions; nothing when the
    /// block holds none.
    pub fn get_block_last_tx_hash(&self, block_number: u32) -> (r: Option<Vec<u8>>)
        ensures
            match block_last_entry(self.0, block_number) {
                Some(e) => r matches Some(h) && h@ == entry_tx_hash(e),
                None => r is None,
            },
    {
        let txs = &self.0.executed_txs;
        let pops = &self.0.priority_ops;
        let mut best: Option<Vec<u8>> = None;
        let mut best_created: i64 = 0;
        let mut best_index: u32 = 0;
        let n1 = txs.len();
        let mut i: usize = 0;
        while i < n1
            invariant
                n1 == txs@.len(),
                0 <= i <= n1,
                txs == self.0.executed_txs,
                match best_tx_in_block(txs@, block_number, i as int, None) {
                    Some(e) => best matches Some(h) && h@ == entry_tx_hash(e) && best_created
                        == crate::merge::entry_created(e) && best_index as int
                        == crate::merge::entry_index(e),
                    None => best is None,
                },
            decreases n1 - i,
        {
            let t = &txs[i];
            if t.block_number == block_number {
                let is_better = match &best {
                    None => true,
                    Some(_) => t.created_at > best_created || (t.created_at == best_created
                        && t.block_index > best_index),
                };
                if is_better {
                    best = Some(crate::records::clone_bytes(&t.tx_hash));
                    best_created = t.created_at;
                    best_index = t.block_index;
                }
            }
            i += 1;
        }
        let ghost mid = best_tx_in_block(txs@, block_number, txs@.len() as int, None);
        let n2 = pops.len();
        let mut j: usize = 0;
        while j < n2
            invariant
                n2 == pops@.len(),
                0 <= j <= n2,
                pops == self.0.priority_ops,
                mid == best_tx_in_block(
                    self.0.executed_txs@,
                    block_number,
                    self.0.executed_txs@.len() as int,
                    None,
                ),
                match best_pop_in_block(pops@, block_number, j as int, mid) {
                    Some(e) => best matches Some(h) && h@ == entry_tx_hash(e) && best_created
                        == crate::merge::entry_created(e) && best_index as int
                        == crate::merge::entry_index(e),
                    None => best is None,
                },
            decreases n2 - j,
        {
            let p = &pops[j];
            if p.block_number == block_number {
                let is_better = match &best {
                    None => true,
                    Some(_) => p.created_at > best_created || (p.created_at == best_created
                        && p.block_index > best_index),
                };
                if is_better {
                    best = Some(crate::records::clone_bytes(&p.tx_hash));
                    best_created = p.created_at;
                    best_index = p.block_index;
                }
            }
            j += 1;
        }
        best
    }
}

} // verus!

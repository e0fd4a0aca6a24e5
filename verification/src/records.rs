//! Data model of the stored ledger records.
//!
//! The backing store's tables are modeled as in-memory collections of plain
//! records. Records are immutable once created: the read layer only scans and
//! derives from them. The polymorphic transaction payload is a closed tagged
//! variant type, converted once at the ingestion boundary.

use vstd::prelude::*;

verus! {

/// Token identifiers below this bound are fungible and map to symbols;
/// identifiers at or above it denote NFTs and are kept as raw numbers.
pub const MIN_NFT_TOKEN_ID: u32 = 65536;

/// Upper bound (exclusive) on stored creation timestamps, in microseconds
/// since the Unix epoch. Far in the future; keeps timestamps inside the
/// range that calendar formatting accepts.
pub const MAX_TIMESTAMP_MICROS: i64 = 4102444800000000;

/// A token field of a payload: either the raw numeric identifier as stored,
/// or, after enrichment, a human-readable symbol.
#[derive(Debug)]
pub enum TokenRef {
    Id(u32),
    Symbol(String),
}

/// The embedded priority operation of a deposit payload.
#[derive(Debug)]
pub struct DepositOp {
    pub from: String,
    pub to: String,
    pub token: TokenRef,
    pub amount: String,
}

/// The embedded priority operation of a full-exit payload.
#[derive(Debug)]
pub struct FullExitOp {
    pub eth_address: String,
    pub token: TokenRef,
    pub withdraw_amount: Option<String>,
}

/// A transaction's payload, one closed variant per transaction kind.
/// Field access is a total match over variants; a payload whose kind tag
/// was missing or unrecognized at ingestion is `Unknown` and is carried
/// through unmodified.
#[derive(Debug)]
pub enum TxPayload {
    Transfer { from: String, to: String, token: TokenRef, amount: String, fee: Option<String>, nonce: i64 },
    TransferToNew { from: String, to: String, token: TokenRef, amount: String, fee: Option<String>, nonce: i64 },
    Withdraw { from: String, to: String, token: TokenRef, amount: String, fee: Option<String>, nonce: i64 },
    ChangePubKey { account: String, new_pk_hash: String, fee_token: u32, fee: Option<String>, nonce: i64 },
    ChangePubKeyOffchain { account: String, new_pk_hash: String, fee_token: u32, fee: Option<String>, nonce: i64 },
    MintNFT { creator_address: String, recipient: String, fee_token: u32, fee: Option<String>, nonce: i64 },
    WithdrawNFT { from: String, to: String, token: TokenRef, fee: Option<String>, nonce: i64 },
    ForcedExit { target: String, token: TokenRef, withdraw_amount: Option<String>, fee: Option<String>, nonce: i64 },
    Swap { submitter_address: String, fee_token: u32, fee: Option<String>, nonce: i64 },
    Deposit { deposit: DepositOp },
    FullExit { full_exit: FullExitOp },
    Unknown,
}

/// An executed ordinary transaction, as stored at inclusion time.
#[derive(Debug)]
pub struct TxRecord {
    pub tx_hash: Vec<u8>,
    pub block_number: u32,
    pub block_index: u32,
    pub payload: TxPayload,
    pub success: bool,
    pub fail_reason: Option<String>,
    pub created_at: i64,
    pub batch_id: Option<i64>,
    pub from_account: Vec<u8>,
    pub to_account: Vec<u8>,
    pub primary_account_address: Vec<u8>,
    pub nonce: i64,
    pub eth_sign_data: Option<String>,
}

/// True of the payload kinds an L1-originated operation can carry.
pub open spec fn is_priority_payload(p: TxPayload) -> bool {
    match p {
        TxPayload::Deposit { .. } => true,
        TxPayload::FullExit { .. } => true,
        _ => false,
    }
}

/// An executed priority operation (L1-originated), always successful.
#[derive(Debug)]
pub struct PriorityOpRecord {
    pub tx_hash: Vec<u8>,
    pub eth_hash: Vec<u8>,
    pub block_number: u32,
    pub block_index: u32,
    pub serial_id: i64,
    pub eth_block: i64,
    pub payload: TxPayload,
    pub from_account: Vec<u8>,
    pub to_account: Vec<u8>,
    pub created_at: i64,
}

/// A transaction still queued in the mempool, not yet included in a block.
#[derive(Debug)]
pub struct MempoolTxRecord {
    pub tx_hash: Vec<u8>,
    pub payload: TxPayload,
    pub created_at: i64,
    pub batch_id: Option<i64>,
    pub eth_sign_data: Option<String>,
}

/// The kind of an L1 settlement operation over a block range.
#[derive(Debug, Clone, Copy, PartialEq, Eq, Structural)]
pub enum AggregatedActionType {
    CommitBlocks,
    ExecuteBlocks,
}

/// An L1 settlement record confirming a contiguous, inclusive range of
/// blocks for one action kind. Append-only; `confirmed` transitions
/// false to true exactly once and is never revoked.
#[derive(Debug, Clone, Copy, PartialEq, Eq, Structural)]
pub struct AggregatedOperation {
    pub action: AggregatedActionType,
    pub from_block: u32,
    pub to_block: u32,
    pub confirmed: bool,
    pub created_at: i64,
}

/// One membership entry of the address-to-transaction filter index.
#[derive(Debug)]
pub struct FilterIndexEntry {
    pub address: Vec<u8>,
    pub token: i32,
    pub tx_hash: Vec<u8>,
}

/// Maps an external batch hash to the internal batch identifier its member
/// transactions share.
#[derive(Debug)]
pub struct BatchRecord {
    pub batch_hash: Vec<u8>,
    pub batch_id: i64,
}

/// A sealed block's number and root hash.
#[derive(Debug)]
pub struct BlockRecord {
    pub number: u32,
    pub root_hash: Vec<u8>,
}

/// One row of the token metadata table: numeric id and symbol.
#[derive(Debug)]
pub struct TokenInfo {
    pub id: u32,
    pub symbol: String,
}

/// An L1 transaction hash recorded for a completed withdrawal.
#[derive(Debug)]
pub struct WithdrawalTxRecord {
    pub tx_hash: Vec<u8>,
    pub eth_tx_hash: Vec<u8>,
}

impl Clone for TokenRef {
    fn clone(&self) -> (r: Self)
        ensures
            r == *self,
    {
        match self {
            TokenRef::Id(id) => TokenRef::Id(*id),
            TokenRef::Symbol(s) => TokenRef::Symbol(s.clone()),
        }
    }
}

impl Clone for DepositOp {
    fn clone(&self) -> (r: Self)
        ensures
            r == *self,
    {
        DepositOp { from: self.from.clone(), to: self.to.clone(), token: self.token.clone(), amount: self.amount.clone() }
    }
}

impl Clone for FullExitOp {
    fn clone(&self) -> (r: Self)
        ensures
            r == *self,
    {
        FullExitOp {
            eth_address: self.eth_address.clone(),
            token: self.token.clone(),
            withdraw_amount: clone_opt_string(&self.withdraw_amount),
        }
    }
}

/// Clones an optional string, preserving the value exactly.
pub fn clone_opt_string(o: &Option<String>) -> (r: Option<String>)
    ensures
        r == *o,
{
    match o {
        Some(s) => Some(s.clone()),
        None => None,
    }
}

impl Clone for TxPayload {
    fn clone(&self) -> (r: Self)
        ensures
            r == *self,
    {
        match self {
            TxPayload::Transfer { from, to, token, amount, fee, nonce } => TxPayload::Transfer {
                from: from.clone(), to: to.clone(), token: token.clone(), amount: amount.clone(),
                fee: clone_opt_string(fee), nonce: *nonce,
            },
            TxPayload::TransferToNew { from, to, token, amount, fee, nonce } => TxPayload::TransferToNew {
                from: from.clone(), to: to.clone(), token: token.clone(), amount: amount.clone(),
                fee: clone_opt_string(fee), nonce: *nonce,
            },
            TxPayload::Withdraw { from, to, token, amount, fee, nonce } => TxPayload::Withdraw {
                from: from.clone(), to: to.clone(), token: token.clone(), amount: amount.clone(),
                fee: clone_opt_string(fee), nonce: *nonce,
            },
            TxPayload::ChangePubKey { account, new_pk_hash, fee_token, fee, nonce } => TxPayload::ChangePubKey {
                account: account.clone(), new_pk_hash: new_pk_hash.clone(), fee_token: *fee_token,
                fee: clone_opt_string(fee), nonce: *nonce,
            },
            TxPayload::ChangePubKeyOffchain { account, new_pk_hash, fee_token, fee, nonce } => TxPayload::ChangePubKeyOffchain {
                account: account.clone(), new_pk_hash: new_pk_hash.clone(), fee_token: *fee_token,
                fee: clone_opt_string(fee), nonce: *nonce,
            },
            TxPayload::MintNFT { creator_address, recipient, fee_token, fee, nonce } => TxPayload::MintNFT {
                creator_address: creator_address.clone(), recipient: recipient.clone(), fee_token: *fee_token,
                fee: clone_opt_string(fee), nonce: *nonce,
            },
            TxPayload::WithdrawNFT { from, to, token, fee, nonce } => TxPayload::WithdrawNFT {
                from: from.clone(), to: to.clone(), token: token.clone(),
                fee: clone_opt_string(fee), nonce: *nonce,
            },
            TxPayload::ForcedExit { target, token, withdraw_amount, fee, nonce } => TxPayload::ForcedExit {
                target: target.clone(), token: token.clone(), withdraw_amount: clone_opt_string(withdraw_amount),
                fee: clone_opt_string(fee), nonce: *nonce,
            },
            TxPayload::Swap { submitter_address, fee_token, fee, nonce } => TxPayload::Swap {
                submitter_address: submitter_address.clone(), fee_token: *fee_token,
                fee: clone_opt_string(fee), nonce: *nonce,
            },
            TxPayload::Deposit { deposit } => TxPayload::Deposit { deposit: deposit.clone() },
            TxPayload::FullExit { full_exit } => TxPayload::FullExit { full_exit: full_exit.clone() },
            TxPayload::Unknown => TxPayload::Unknown,
        }
    }
}

/// Clones a byte vector, preserving its contents.
pub fn clone_bytes(b: &Vec<u8>) -> (r: Vec<u8>)
    ensures
        r@ == b@,
{
    let r = b.clone();
    assert(r@ =~= b@);
    r
}

/// True when the two byte slices hold the same bytes.
pub fn bytes_eq(a: &[u8], b: &[u8]) -> (r: bool)
    ensures
        r == (a@ == b@),
{
    if a.len() != b.len() {
        assert(a@ != b@);
        return false;
    }
    let n = a.len();
    let mut i: usize = 0;
    while i < n
        invariant
            n == a@.len() && n == b@.len(),
            0 <= i <= n,
            forall|j: int| 0 <= j < i ==> a@[j] == b@[j],
        decreases n - i,
    {
        if a[i] != b[i] {
            return false;
        }
        i += 1;
    }
    assert(a@ =~= b@);
    true
}

} // verus!

//! Token symbol enrichment.
//!
//! A payload's `token` field holds the numeric token identifier as stored.
//! When handing a page out, identifiers below the NFT bound are replaced by
//! the token's symbol from the metadata table, or by the literal `UNKNOWN`
//! when the table has no entry; identifiers at or above the bound are NFTs
//! and stay numeric. The field sits one level down inside the embedded
//! priority operation for deposits and full exits, and at top level for the
//! other kinds that carry one; payloads of unrecognized kind are left
//! unmodified.

use vstd::prelude::*;
use vstd::string::StringExecFns;

use crate::records::{DepositOp, FullExitOp, TokenInfo, TokenRef, TxPayload, MIN_NFT_TOKEN_ID};

verus! {

/// The first metadata row for the given token id, in table order.
pub open spec fn first_token(tokens: Seq<TokenInfo>, id: u32) -> Option<TokenInfo>
    decreases tokens.len(),
{
    if tokens.len() == 0 {
        None
    } else if tokens[0].id == id {
        Some(tokens[0])
    } else {
        first_token(tokens.drop_first(), id)
    }
}

/// Looks the token id up in the metadata table and hands back its symbol.
pub fn lookup_symbol(tokens: &Vec<TokenInfo>, id: u32) -> (r: Option<String>)
    ensures
        match first_token(tokens@, id) {
            Some(tok) => r matches Some(s) && s == tok.symbol,
            None => r is None,
        },
{
    let n = tokens.len();
    let mut i: usize = 0;
    proof {
        assert(tokens@.skip(0) =~= tokens@);
    }
    while i < n
        invariant
            n == tokens@.len(),
            0 <= i <= n,
            first_token(tokens@, id) == first_token(tokens@.skip(i as int), id),
        decreases n - i,
    {
        proof {
            assert(tokens@.skip(i as int)[0] == tokens@[i as int]);
            assert(tokens@.skip(i as int).drop_first() =~= tokens@.skip(i as int + 1));
        }
        if tokens[i].id == id {
            return Some(tokens[i].symbol.clone());
        }
        i += 1;
    }
    proof {
        assert(tokens@.skip(n as int) =~= Seq::<TokenInfo>::empty());
    }
    None
}

/// How one token field is enriched: a fungible id becomes its symbol, or
/// the literal `UNKNOWN` when the table has no entry; an NFT id and an
/// already-symbolic field stay unchanged.
pub open spec fn token_enriched(orig: TokenRef, out: TokenRef, tokens: Seq<TokenInfo>) -> bool {
    match orig {
        TokenRef::Id(t) => {
            if t < MIN_NFT_TOKEN_ID {
                match first_token(tokens, t) {
                    Some(tok) => out matches TokenRef::Symbol(s) && s@ == tok.symbol@,
                    None => out matches TokenRef::Symbol(s) && s@ == "UNKNOWN"@,
                }
            } else {
                out == orig
            }
        },
        TokenRef::Symbol(_) => out == orig,
    }
}

/// Enriches one token field.
pub fn enrich_token(t: &TokenRef, tokens: &Vec<TokenInfo>) -> (r: TokenRef)
    ensures
        token_enriched(*t, r, tokens@),
{
    match t {
        TokenRef::Id(id) => {
            if *id < MIN_NFT_TOKEN_ID {
                match lookup_symbol(tokens, *id) {
                    Some(sym) => TokenRef::Symbol(sym),
                    None => TokenRef::Symbol(String::from_str("UNKNOWN")),
                }
            } else {
                TokenRef::Id(*id)
            }
        },
        TokenRef::Symbol(s) => TokenRef::Symbol(s.clone()),
    }
}

/// How a whole payload is enriched: the token field, where the kind has
/// one, is enriched in place; every other field, and every payload without
/// a token field, is unchanged.
pub open spec fn enriched_ok(orig: TxPayload, out: TxPayload, tokens: Seq<TokenInfo>) -> bool {
    match orig {
        TxPayload::Transfer { from, to, token, amount, fee, nonce } => {
            &&& out matches TxPayload::Transfer {
                from: f2, to: t2, token: tk2, amount: a2, fee: fe2, nonce: n2 }
            &&& f2 == from && t2 == to && a2 == amount && fe2 == fee && n2 == nonce
            &&& token_enriched(token, tk2, tokens)
        },
        TxPayload::TransferToNew { from, to, token, amount, fee, nonce } => {
            &&& out matches TxPayload::TransferToNew {
                from: f2, to: t2, token: tk2, amount: a2, fee: fe2, nonce: n2 }
            &&& f2 == from && t2 == to && a2 == amount && fe2 == fee && n2 == nonce
            &&& token_enriched(token, tk2, tokens)
        },
        TxPayload::Withdraw { from, to, token, amount, fee, nonce } => {
            &&& out matches TxPayload::Withdraw {
                from: f2, to: t2, token: tk2, amount: a2, fee: fe2, nonce: n2 }
            &&& f2 == from && t2 == to && a2 == amount && fe2 == fee && n2 == nonce
            &&& token_enriched(token, tk2, tokens)
        },
        TxPayload::WithdrawNFT { from, to, token, fee, nonce } => {
            &&& out matches TxPayload::WithdrawNFT { from: f2, to: t2, token: tk2, fee: fe2, nonce: n2 }
            &&& f2 == from && t2 == to && fe2 == fee && n2 == nonce
            &&& token_enriched(token, tk2, tokens)
        },
        TxPayload::ForcedExit { target, token, withdraw_amount, fee, nonce } => {
            &&& out matches TxPayload::ForcedExit {
                target: tg2, token: tk2, withdraw_amount: w2, fee: fe2, nonce: n2 }
            &&& tg2 == target && w2 == withdraw_amount && fe2 == fee && n2 == nonce
            &&& token_enriched(token, tk2, tokens)
        },
        TxPayload::Deposit { deposit } => {
            &&& out matches TxPayload::Deposit { deposit: d2 }
            &&& d2.from == deposit.from && d2.to == deposit.to && d2.amount == deposit.amount
            &&& token_enriched(deposit.token, d2.token, tokens)
        },
        TxPayload::FullExit { full_exit } => {
            &&& out matches TxPayload::FullExit { full_exit: f2 }
            &&& f2.eth_address == full_exit.eth_address && f2.withdraw_amount
                == full_exit.withdraw_amount
            &&& token_enriched(full_exit.token, f2.token, tokens)
        },
        _ => out == orig,
    }
}

/// Enriches a payload's token field against the metadata table.
pub fn enrich_payload(p: &TxPayload, tokens: &Vec<TokenInfo>) -> (r: TxPayload)
    ensures
        enriched_ok(*p, r, tokens@),
{
    match p {
        TxPayload::Transfer { from, to, token, amount, fee, nonce } => TxPayload::Transfer {
            from: from.clone(),
            to: to.clone(),
            token: enrich_token(token, tokens),
            amount: amount.clone(),
            fee: crate::records::clone_opt_string(fee),
            nonce: *nonce,
        },
        TxPayload::TransferToNew { from, to, token, amount, fee, nonce } => TxPayload::TransferToNew {
            from: from.clone(),
            to: to.clone(),
            token: enrich_token(token, tokens),
            amount: amount.clone(),
            fee: crate::records::clone_opt_string(fee),
            nonce: *nonce,
        },
        TxPayload::Withdraw { from, to, token, amount, fee, nonce } => TxPayload::Withdraw {
            from: from.clone(),
            to: to.clone(),
            token: enrich_token(token, tokens),
            amount: amount.clone(),
            fee: crate::records::clone_opt_string(fee),
            nonce: *nonce,
        },
        TxPayload::WithdrawNFT { from, to, token, fee, nonce } => TxPayload::WithdrawNFT {
            from: from.clone(),
            to: to.clone(),
            token: enrich_token(token, tokens),
            fee: crate::records::clone_opt_string(fee),
            nonce: *nonce,
        },
        TxPayload::ForcedExit { target, token, withdraw_amount, fee, nonce } => TxPayload::ForcedExit {
            target: target.clone(),
            token: enrich_token(token, tokens),
            withdraw_amount: crate::records::clone_opt_string(withdraw_amount),
            fee: crate::records::clone_opt_string(fee),
            nonce: *nonce,
        },
        TxPayload::Deposit { deposit } => TxPayload::Deposit {
            deposit: DepositOp {
                from: deposit.from.clone(),
                to: deposit.to.clone(),
                token: enrich_token(&deposit.token, tokens),
                amount: deposit.amount.clone(),
            },
        },
        TxPayload::FullExit { full_exit } => TxPayload::FullExit {
            full_exit: FullExitOp {
                eth_address: full_exit.eth_address.clone(),
                token: enrich_token(&full_exit.token, tokens),
                withdraw_amount: crate::records::clone_opt_string(&full_exit.withdraw_amount),
            },
        },
        _ => p.clone(),
    }
}

/// Two token fields carrying the same data (symbols compared by their
/// text).
pub open spec fn token_ref_equivalent(a: TokenRef, b: TokenRef) -> bool {
    match a {
        TokenRef::Id(x) => b matches TokenRef::Id(y) && x == y,
        TokenRef::Symbol(s) => b matches TokenRef::Symbol(t) && s@ == t@,
    }
}

/// Two payloads carrying the same data (strings compared by their text).
pub open spec fn payload_equivalent(a: TxPayload, b: TxPayload) -> bool {
    match a {
        TxPayload::Transfer { from, to, token, amount, fee, nonce } => {
            &&& b matches TxPayload::Transfer {
                from: f2, to: t2, token: tk2, amount: a2, fee: fe2, nonce: n2 }
            &&& f2@ == from@ && t2@ == to@ && a2@ == amount@ && opt_string_equivalent(fee, fe2)
                && n2 == nonce
            &&& token_ref_equivalent(token, tk2)
        },
        TxPayload::TransferToNew { from, to, token, amount, fee, nonce } => {
            &&& b matches TxPayload::TransferToNew {
                from: f2, to: t2, token: tk2, amount: a2, fee: fe2, nonce: n2 }
            &&& f2@ == from@ && t2@ == to@ && a2@ == amount@ && opt_string_equivalent(fee, fe2)
                && n2 == nonce
            &&& token_ref_equivalent(token, tk2)
        },
        TxPayload::Withdraw { from, to, token, amount, fee, nonce } => {
            &&& b matches TxPayload::Withdraw {
                from: f2, to: t2, token: tk2, amount: a2, fee: fe2, nonce: n2 }
            &&& f2@ == from@ && t2@ == to@ && a2@ == amount@ && opt_string_equivalent(fee, fe2)
                && n2 == nonce
            &&& token_ref_equivalent(token, tk2)
        },
        TxPayload::ChangePubKey { account, new_pk_hash, fee_token, fee, nonce } => {
            &&& b matches TxPayload::ChangePubKey {
                account: a2, new_pk_hash: p2, fee_token: ft2, fee: fe2, nonce: n2 }
            &&& a2@ == account@ && p2@ == new_pk_hash@ && ft2 == fee_token
                && opt_string_equivalent(fee, fe2) && n2 == nonce
        },
        TxPayload::ChangePubKeyOffchain { account, new_pk_hash, fee_token, fee, nonce } => {
            &&& b matches TxPayload::ChangePubKeyOffchain {
                account: a2, new_pk_hash: p2, fee_token: ft2, fee: fe2, nonce: n2 }
            &&& a2@ == account@ && p2@ == new_pk_hash@ && ft2 == fee_token
                && opt_string_equivalent(fee, fe2) && n2 == nonce
        },
        TxPayload::MintNFT { creator_address, recipient, fee_token, fee, nonce } => {
            &&& b matches TxPayload::MintNFT {
                creator_address: c2, recipient: r2, fee_token: ft2, fee: fe2, nonce: n2 }
            &&& c2@ == creator_address@ && r2@ == recipient@ && ft2 == fee_token
                && opt_string_equivalent(fee, fe2) && n2 == nonce
        },
        TxPayload::WithdrawNFT { from, to, token, fee, nonce } => {
            &&& b matches TxPayload::WithdrawNFT { from: f2, to: t2, token: tk2, fee: fe2, nonce: n2 }
            &&& f2@ == from@ && t2@ == to@ && opt_string_equivalent(fee, fe2) && n2 == nonce
            &&& token_ref_equivalent(token, tk2)
        },
        TxPayload::ForcedExit { target, token, withdraw_amount, fee, nonce } => {
            &&& b matches TxPayload::ForcedExit {
                target: tg2, token: tk2, withdraw_amount: w2, fee: fe2, nonce: n2 }
            &&& tg2@ == target@ && opt_string_equivalent(withdraw_amount, w2)
                && opt_string_equivalent(fee, fe2) && n2 == nonce
            &&& token_ref_equivalent(token, tk2)
        },
        TxPayload::Swap { submitter_address, fee_token, fee, nonce } => {
            &&& b matches TxPayload::Swap {
                submitter_address: s2, fee_token: ft2, fee: fe2, nonce: n2 }
            &&& s2@ == submitter_address@ && ft2 == fee_token && opt_string_equivalent(fee, fe2)
                && n2 == nonce
        },
        TxPayload::Deposit { deposit } => {
            &&& b matches TxPayload::Deposit { deposit: d2 }
            &&& d2.from@ == deposit.from@ && d2.to@ == deposit.to@ && d2.amount@
                == deposit.amount@
            &&& token_ref_equivalent(deposit.token, d2.token)
        },
        TxPayload::FullExit { full_exit } => {
            &&& b matches TxPayload::FullExit { full_exit: f2 }
            &&& f2.eth_address@ == full_exit.eth_address@ && opt_string_equivalent(
                full_exit.withdraw_amount,
                f2.withdraw_amount,
            )
            &&& token_ref_equivalent(full_exit.token, f2.token)
        },
        TxPayload::Unknown => b is Unknown,
    }
}

/// Two optional strings carrying the same text.
pub open spec fn opt_string_equivalent(a: Option<String>, b: Option<String>) -> bool {
    match a {
        Option::None => b is None,
        Option::Some(s) => b matches Option::Some(t) && s@ == t@,
    }
}

/// Enrichment is deterministic: two outcomes of enriching the same token
/// field against the same table carry the same data.
pub proof fn lemma_token_enriched_deterministic(
    orig: TokenRef,
    out1: TokenRef,
    out2: TokenRef,
    tokens: Seq<TokenInfo>,
)
    requires
        token_enriched(orig, out1, tokens),
        token_enriched(orig, out2, tokens),
    ensures
        token_ref_equivalent(out1, out2),
{
}

/// Enrichment is deterministic: two outcomes of enriching the same payload
/// against the same table carry the same data.
pub proof fn lemma_enriched_deterministic(
    orig: TxPayload,
    out1: TxPayload,
    out2: TxPayload,
    tokens: Seq<TokenInfo>,
)
    requires
        enriched_ok(orig, out1, tokens),
        enriched_ok(orig, out2, tokens),
    ensures
        payload_equivalent(out1, out2),
{
}

} // verus!

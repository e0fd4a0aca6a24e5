//! The address-to-transaction filter index.
//!
//! Each entry links an address to a transaction hash under a token; the
//! index makes address-scoped retrieval and counting tractable without a
//! full scan of history. Insertion is idempotent — a duplicate triple is a
//! no-op — and the watermark names the highest block whose entries the
//! index already reflects, so a backfill process can resume without
//! re-scanning or double-indexing.

use vstd::prelude::*;

use crate::records::{FilterIndexEntry, PriorityOpRecord, TxRecord};
use crate::schema::filters_unique;

verus! {

/// The index holds the exact (address, token, transaction) triple.
pub open spec fn triple_in(
    fs: Seq<FilterIndexEntry>,
    addr: Seq<u8>,
    token: i32,
    hash: Seq<u8>,
) -> bool {
    exists|i: int| 0 <= i < fs.len() && (#[trigger] fs[i]).address@ == addr && fs[i].token
        == token && fs[i].tx_hash@ == hash
}

/// One idempotent insertion: the entry is appended unless its triple is
/// already present.
pub open spec fn spec_upsert(fs: Seq<FilterIndexEntry>, e: FilterIndexEntry) -> Seq<
    FilterIndexEntry,
> {
    if triple_in(fs, e.address@, e.token, e.tx_hash@) {
        fs
    } else {
        fs.push(e)
    }
}

/// The triples given as three parallel columns, inserted in order.
pub open spec fn spec_upsert_all(
    fs: Seq<FilterIndexEntry>,
    addresses: Seq<Vec<u8>>,
    tokens: Seq<i32>,
    hashes: Seq<Vec<u8>>,
) -> Seq<FilterIndexEntry>
    decreases addresses.len(),
{
    if addresses.len() == 0 {
        fs
    } else {
        spec_upsert_all(
            spec_upsert(
                fs,
                FilterIndexEntry { address: addresses[0], token: tokens[0], tx_hash: hashes[0] },
            ),
            addresses.drop_first(),
            tokens.drop_first(),
            hashes.drop_first(),
        )
    }
}

/// Inserting a triple that is already present changes nothing: indexing is
/// idempotent under duplicate delivery.
pub proof fn lemma_upsert_idempotent(
    fs: Seq<FilterIndexEntry>,
    e1: FilterIndexEntry,
    e2: FilterIndexEntry,
)
    requires
        e1.address@ == e2.address@,
        e1.token == e2.token,
        e1.tx_hash@ == e2.tx_hash@,
    ensures
        spec_upsert(spec_upsert(fs, e1), e2) == spec_upsert(fs, e1),
{
    let fs1 = spec_upsert(fs, e1);
    assert(triple_in(fs1, e2.address@, e2.token, e2.tx_hash@)) by {
        if triple_in(fs, e1.address@, e1.token, e1.tx_hash@) {
            let i = choose|i: int| 0 <= i < fs.len() && (#[trigger] fs[i]).address@ == e1.address@
                && fs[i].token == e1.token && fs[i].tx_hash@ == e1.tx_hash@;
            assert(fs1[i] == fs[i]);
        } else {
            assert(fs1[fs.len() as int] == e1);
        }
    }
}

/// Insertion only appends: existing entries stay, at their positions.
pub proof fn lemma_upsert_all_prefix(
    fs: Seq<FilterIndexEntry>,
    addresses: Seq<Vec<u8>>,
    tokens: Seq<i32>,
    hashes: Seq<Vec<u8>>,
)
    requires
        addresses.len() == tokens.len() == hashes.len(),
    ensures
        spec_upsert_all(fs, addresses, tokens, hashes).len() >= fs.len(),
        forall|i: int| 0 <= i < fs.len() ==> #[trigger] spec_upsert_all(
            fs,
            addresses,
            tokens,
            hashes,
        )[i] == fs[i],
    decreases addresses.len(),
{
    if addresses.len() > 0 {
        let e = FilterIndexEntry { address: addresses[0], token: tokens[0], tx_hash: hashes[0] };
        lemma_upsert_all_prefix(
            spec_upsert(fs, e),
            addresses.drop_first(),
            tokens.drop_first(),
            hashes.drop_first(),
        );
    }
}

/// After the batch insertion, a triple is present exactly when it was
/// present before or is one of the given triples: at-least-once indexing,
/// and nothing else enters.
pub proof fn lemma_upsert_all_membership(
    fs: Seq<FilterIndexEntry>,
    addresses: Seq<Vec<u8>>,
    tokens: Seq<i32>,
    hashes: Seq<Vec<u8>>,
    a: Seq<u8>,
    t: i32,
    h: Seq<u8>,
)
    requires
        addresses.len() == tokens.len() == hashes.len(),
    ensures
        triple_in(spec_upsert_all(fs, addresses, tokens, hashes), a, t, h) <==> (triple_in(
            fs,
            a,
            t,
            h,
        ) || exists|k: int| 0 <= k < addresses.len() && (#[trigger] addresses[k])@ == a
            && tokens[k] == t && hashes[k]@ == h),
    decreases addresses.len(),
{
    if addresses.len() == 0 {
    } else {
        let e = FilterIndexEntry { address: addresses[0], token: tokens[0], tx_hash: hashes[0] };
        let fs1 = spec_upsert(fs, e);
        lemma_upsert_all_membership(
            fs1,
            addresses.drop_first(),
            tokens.drop_first(),
            hashes.drop_first(),
            a,
            t,
            h,
        );
        // membership across one insertion
        assert(triple_in(fs1, a, t, h) <==> (triple_in(fs, a, t, h) || (e.address@ == a && e.token
            == t && e.tx_hash@ == h))) by {
            if triple_in(fs1, a, t, h) {
                let i = choose|i: int| 0 <= i < fs1.len() && (#[trigger] fs1[i]).address@ == a
                    && fs1[i].token == t && fs1[i].tx_hash@ == h;
                if i < fs.len() {
                    assert(fs1[i] == fs[i]);
                }
            }
            if triple_in(fs, a, t, h) {
                let i = choose|i: int| 0 <= i < fs.len() && (#[trigger] fs[i]).address@ == a
                    && fs[i].token == t && fs[i].tx_hash@ == h;
                assert(fs1[i] == fs[i]);
            }
            if e.address@ == a && e.token == t && e.tx_hash@ == h && !triple_in(fs, a, t, h) {
                assert(fs1[fs.len() as int] == e);
            }
        }
        // shift the witness over the first column entry
        assert((exists|k: int| 0 <= k < addresses.len() && (#[trigger] addresses[k])@ == a
            && tokens[k] == t && hashes[k]@ == h) <==> ((addresses[0]@ == a && tokens[0] == t
            && hashes[0]@ == h) || (exists|k: int| 0 <= k < addresses.drop_first().len()
            && (#[trigger] addresses.drop_first()[k])@ == a && tokens.drop_first()[k] == t
            && hashes.drop_first()[k]@ == h))) by {
            if exists|k: int| 0 <= k < addresses.len() && (#[trigger] addresses[k])@ == a
                && tokens[k] == t && hashes[k]@ == h {
                let k = choose|k: int| 0 <= k < addresses.len() && (#[trigger] addresses[k])@ == a
                    && tokens[k] == t && hashes[k]@ == h;
                if k > 0 {
                    assert(addresses.drop_first()[k - 1]@ == a && tokens.drop_first()[k - 1] == t
                        && hashes.drop_first()[k - 1]@ == h);
                }
            }
            if exists|k: int| 0 <= k < addresses.drop_first().len()
                && (#[trigger] addresses.drop_first()[k])@ == a && tokens.drop_first()[k] == t
                && hashes.drop_first()[k]@ == h {
                let k = choose|k: int| 0 <= k < addresses.drop_first().len()
                    && (#[trigger] addresses.drop_first()[k])@ == a && tokens.drop_first()[k] == t
                    && hashes.drop_first()[k]@ == h;
                assert(addresses[k + 1]@ == a && tokens[k + 1] == t && hashes[k + 1]@ == h);
            }
            if addresses[0]@ == a && tokens[0] == t && hashes[0]@ == h {
                assert(addresses[0]@ == a);
            }
        }
    }
}

/// Insertion keeps the index free of duplicate triples.
pub proof fn lemma_upsert_all_unique(
    fs: Seq<FilterIndexEntry>,
    addresses: Seq<Vec<u8>>,
    tokens: Seq<i32>,
    hashes: Seq<Vec<u8>>,
)
    requires
        addresses.len() == tokens.len() == hashes.len(),
        filters_unique(fs),
    ensures
        filters_unique(spec_upsert_all(fs, addresses, tokens, hashes)),
    decreases addresses.len(),
{
    if addresses.len() > 0 {
        let e = FilterIndexEntry { address: addresses[0], token: tokens[0], tx_hash: hashes[0] };
        let fs1 = spec_upsert(fs, e);
        assert(filters_unique(fs1)) by {
            if !triple_in(fs, e.address@, e.token, e.tx_hash@) {
                assert forall|i: int, j: int| 0 <= i < j < fs1.len() implies !((
                #[trigger] fs1[i]).address@ == (#[trigger] fs1[j]).address@ && fs1[i].token
                    == fs1[j].token && fs1[i].tx_hash@ == fs1[j].tx_hash@) by {
                    if j < fs.len() {
                        assert(fs1[i] == fs[i] && fs1[j] == fs[j]);
                    } else {
                        assert(fs1[j] == e);
                        assert(fs1[i] == fs[i]);
                        if fs[i].address@ == e.address@ && fs[i].token == e.token
                            && fs[i].tx_hash@ == e.tx_hash@ {
                            assert(triple_in(fs, e.address@, e.token, e.tx_hash@));
                        }
                    }
                }
            }
        }
        lemma_upsert_all_unique(
            fs1,
            addresses.drop_first(),
            tokens.drop_first(),
            hashes.drop_first(),
        );
    }
}

/// Decides whether the index holds the triple.
pub fn triple_present(
    fs: &Vec<FilterIndexEntry>,
    addr: &[u8],
    token: i32,
    hash: &[u8],
) -> (r: bool)
    ensures
        r == triple_in(fs@, addr@, token, hash@),
{
    let n = fs.len();
    let mut i: usize = 0;
    while i < n
        invariant
            n == fs@.len(),
            0 <= i <= n,
            forall|j: int| 0 <= j < i ==> !((#[trigger] fs@[j]).address@ == addr@ && fs@[j].token
                == token && fs@[j].tx_hash@ == hash@),
        decreases n - i,
    {
        if fs[i].token == token && crate::records::bytes_eq(fs[i].address.as_slice(), addr)
            && crate::records::bytes_eq(fs[i].tx_hash.as_slice(), hash) {
            return true;
        }
        i += 1;
    }
    false
}

/// A transaction hash occurs somewhere in the index, under any address.
pub open spec fn hash_in_filters(fs: Seq<FilterIndexEntry>, hash: Seq<u8>) -> bool {
    exists|i: int| 0 <= i < fs.len() && (#[trigger] fs[i]).tx_hash@ == hash
}

/// Decides whether a transaction hash occurs in the index.
pub fn hash_present(fs: &Vec<FilterIndexEntry>, hash: &[u8]) -> (r: bool)
    ensures
        r == hash_in_filters(fs@, hash@),
{
    let n = fs.len();
    let mut i: usize = 0;
    while i < n
        invariant
            n == fs@.len(),
            0 <= i <= n,
            forall|j: int| 0 <= j < i ==> (#[trigger] fs@[j]).tx_hash@ != hash@,
        decreases n - i,
    {
        if crate::records::bytes_eq(fs[i].tx_hash.as_slice(), hash) {
            return true;
        }
        i += 1;
    }
    false
}

/// The highest block number among the first `n` transactions whose hash
/// the index holds; zero when there is none.
pub open spec fn max_indexed_tx_block(
    txs: Seq<TxRecord>,
    fs: Seq<FilterIndexEntry>,
    n: int,
) -> int
    decreases n,
{
    if n <= 0 {
        0
    } else {
        let rest = max_indexed_tx_block(txs, fs, n - 1);
        if hash_in_filters(fs, txs[n - 1].tx_hash@) && txs[n - 1].block_number > rest {
            txs[n - 1].block_number as int
        } else {
            rest
        }
    }
}

/// The highest block number among the first `n` priority operations whose
/// hash the index holds; zero when there is none.
pub open spec fn max_indexed_pop_block(
    pops: Seq<PriorityOpRecord>,
    fs: Seq<FilterIndexEntry>,
    n: int,
) -> int
    decreases n,
{
    if n <= 0 {
        0
    } else {
        let rest = max_indexed_pop_block(pops, fs, n - 1);
        if hash_in_filters(fs, pops[n - 1].tx_hash@) && pops[n - 1].block_number > rest {
            pops[n - 1].block_number as int
        } else {
            rest
        }
    }
}

/// Whether the index entry matches the address, and the token when one is
/// given.
pub open spec fn entry_matches(
    e: FilterIndexEntry,
    addr: Seq<u8>,
    token: Option<i32>,
) -> bool {
    e.address@ == addr && (token matches Some(t) ==> e.token == t)
}

/// Some index entry links the address (and token, when given) to the hash.
pub open spec fn hash_matches_addr(
    fs: Seq<FilterIndexEntry>,
    addr: Seq<u8>,
    token: Option<i32>,
    hash: Seq<u8>,
) -> bool {
    exists|i: int| 0 <= i < fs.len() && entry_matches(#[trigger] fs[i], addr, token) && fs[i].tx_hash@
        == hash
}

/// A hash is counted when the primary address matches it and, if a second
/// address is given, that address matches it too.
pub open spec fn hash_counted(
    fs: Seq<FilterIndexEntry>,
    addr: Seq<u8>,
    token: Option<i32>,
    second: Option<Seq<u8>>,
    hash: Seq<u8>,
) -> bool {
    hash_matches_addr(fs, addr, token, hash) && (second matches Some(a2) ==> hash_matches_addr(
        fs,
        a2,
        token,
        hash,
    ))
}

/// Position `i` is the representative of its hash: the entry matches the
/// primary condition, its hash is counted, and no earlier entry matching
/// the primary condition carries the same hash.
pub open spec fn is_rep(
    fs: Seq<FilterIndexEntry>,
    addr: Seq<u8>,
    token: Option<i32>,
    second: Option<Seq<u8>>,
    i: int,
) -> bool {
    &&& 0 <= i < fs.len()
    &&& entry_matches(fs[i], addr, token)
    &&& hash_counted(fs, addr, token, second, fs[i].tx_hash@)
    &&& forall|j: int| 0 <= j < i ==> !(entry_matches(#[trigger] fs[j], addr, token)
        && fs[j].tx_hash@ == fs[i].tx_hash@)
}

/// The number of representatives among the first `n` index entries: the
/// number of distinct counted hashes.
pub open spec fn rep_count(
    fs: Seq<FilterIndexEntry>,
    addr: Seq<u8>,
    token: Option<i32>,
    second: Option<Seq<u8>>,
    n: int,
) -> int
    decreases n,
{
    if n <= 0 {
        0
    } else {
        rep_count(fs, addr, token, second, n - 1) + if is_rep(fs, addr, token, second, n - 1) {
            1int
        } else {
            0int
        }
    }
}

/// Every counted hash has exactly one representative: the count of
/// representatives is the count of distinct counted hashes.
pub proof fn lemma_rep_characterizes_counted(
    fs: Seq<FilterIndexEntry>,
    addr: Seq<u8>,
    token: Option<i32>,
    second: Option<Seq<u8>>,
    hash: Seq<u8>,
)
    ensures
        (exists|i: int| is_rep(fs, addr, token, second, i) && (#[trigger] fs[i]).tx_hash@ == hash)
            <==> hash_counted(fs, addr, token, second, hash),
        forall|i: int, j: int| is_rep(fs, addr, token, second, i) && is_rep(
            fs,
            addr,
            token,
            second,
            j,
        ) && i != j ==> (#[trigger] fs[i]).tx_hash@ != (#[trigger] fs[j]).tx_hash@,
{
    if hash_counted(fs, addr, token, second, hash) {
        let k = choose|k: int| 0 <= k < fs.len() && entry_matches(#[trigger] fs[k], addr, token)
            && fs[k].tx_hash@ == hash;
        // walk to the earliest matching position
        let first = choose|i: int| 0 <= i <= k && entry_matches(fs[i], addr, token) && fs[i].tx_hash@
            == hash && forall|j: int| 0 <= j < i ==> !(entry_matches(#[trigger] fs[j], addr, token)
            && fs[j].tx_hash@ == hash);
        assert(exists|i: int| 0 <= i <= k && entry_matches(fs[i], addr, token) && fs[i].tx_hash@
            == hash && forall|j: int| 0 <= j < i ==> !(entry_matches(#[trigger] fs[j], addr, token)
            && fs[j].tx_hash@ == hash)) by {
            lemma_first_matching_exists(fs, addr, token, hash, k);
        }
        assert(is_rep(fs, addr, token, second, first) && fs[first].tx_hash@ == hash);
    }
    assert forall|i: int, j: int| is_rep(fs, addr, token, second, i) && is_rep(
        fs,
        addr,
        token,
        second,
        j,
    ) && i != j implies (#[trigger] fs[i]).tx_hash@ != (#[trigger] fs[j]).tx_hash@ by {
        if fs[i].tx_hash@ == fs[j].tx_hash@ {
            if i < j {
                assert(entry_matches(fs[i], addr, token));
            } else {
                assert(entry_matches(fs[j], addr, token));
            }
        }
    }
}

/// Among positions up to `k` that match the address and hash, there is an
/// earliest one.
proof fn lemma_first_matching_exists(
    fs: Seq<FilterIndexEntry>,
    addr: Seq<u8>,
    token: Option<i32>,
    hash: Seq<u8>,
    k: int,
)
    requires
        0 <= k < fs.len(),
        entry_matches(fs[k], addr, token),
        fs[k].tx_hash@ == hash,
    ensures
        exists|i: int| 0 <= i <= k && entry_matches(#[trigger] fs[i], addr, token) && fs[i].tx_hash@
            == hash && forall|j: int| 0 <= j < i ==> !(entry_matches(#[trigger] fs[j], addr, token)
            && fs[j].tx_hash@ == hash),
    decreases k,
{
    if forall|j: int| 0 <= j < k ==> !(entry_matches(#[trigger] fs[j], addr, token) && fs[j].tx_hash@
        == hash) {
        assert(0 <= k <= k && entry_matches(fs[k], addr, token) && fs[k].tx_hash@ == hash
            && forall|j: int| 0 <= j < k ==> !(entry_matches(#[trigger] fs[j], addr, token)
            && fs[j].tx_hash@ == hash));
    } else {
        let k2 = choose|j: int| 0 <= j < k && entry_matches(#[trigger] fs[j], addr, token)
            && fs[j].tx_hash@ == hash;
        lemma_first_matching_exists(fs, addr, token, hash, k2);
        let i = choose|i: int| 0 <= i <= k2 && entry_matches(#[trigger] fs[i], addr, token)
            && fs[i].tx_hash@ == hash && forall|j: int| 0 <= j < i ==> !(entry_matches(
            #[trigger] fs[j],
            addr,
            token,
        ) && fs[j].tx_hash@ == hash);
        assert(0 <= i <= k);
    }
}

/// Decides whether the entry matches the address, and the token when one
/// is given.
fn entry_matches_exec(e: &FilterIndexEntry, addr: &[u8], token: Option<i32>) -> (r: bool)
    ensures
        r == entry_matches(*e, addr@, token),
{
    let token_ok = match token {
        Some(t) => e.token == t,
        None => true,
    };
    token_ok && crate::records::bytes_eq(e.address.as_slice(), addr)
}

/// Decides whether some index entry links the address (and token, when
/// given) to the hash.
pub(crate) fn matches_addr_hash(
    fs: &Vec<FilterIndexEntry>,
    addr: &[u8],
    token: Option<i32>,
    hash: &[u8],
) -> (r: bool)
    ensures
        r == hash_matches_addr(fs@, addr@, token, hash@),
{
    let n = fs.len();
    let mut i: usize = 0;
    while i < n
        invariant
            n == fs@.len(),
            0 <= i <= n,
            forall|j: int| 0 <= j < i ==> !(entry_matches(#[trigger] fs@[j], addr@, token)
                && fs@[j].tx_hash@ == hash@),
        decreases n - i,
    {
        if entry_matches_exec(&fs[i], addr, token)
            && crate::records::bytes_eq(fs[i].tx_hash.as_slice(), hash) {
            return true;
        }
        i += 1;
    }
    false
}

impl crate::schema::OperationsExtSchema {
    /// Inserts the given (address, token, transaction) triples into the
    /// filter index, in order, skipping any triple already present:
    /// duplicate delivery is a no-op, and existing entries are untouched.
    pub fn save_executed_tx_filters(
        &mut self,
        addresses: Vec<Vec<u8>>,
        tokens: Vec<i32>,
        hashes: Vec<Vec<u8>>,
    )
        requires
            old(self).0.wf(),
            addresses@.len() == tokens@.len(),
            tokens@.len() == hashes@.len(),
        ensures
            final(self).0.tx_filters@ == spec_upsert_all(
                old(self).0.tx_filters@,
                addresses@,
                tokens@,
                hashes@,
            ),
            crate::schema::same_but_filters(old(self).0, final(self).0),
            final(self).0.wf(),
    {
        let ghost orig_filters = self.0.tx_filters@;
        let ghost a0 = addresses@;
        let ghost t0 = tokens@;
        let ghost h0 = hashes@;
        let mut addrs = addresses;
        let mut toks = tokens;
        let mut hshs = hashes;
        let n = addrs.len();
        let mut i: usize = 0;
        proof {
            assert(a0.skip(0) =~= a0);
            assert(t0.skip(0) =~= t0);
            assert(h0.skip(0) =~= h0);
            lemma_upsert_all_unique(orig_filters, a0, t0, h0);
        }
        while i < n
            invariant
                0 <= i <= n,
                n == a0.len() && a0.len() == t0.len() && t0.len() == h0.len(),
                addrs@ == a0.skip(i as int),
                toks@ == t0.skip(i as int),
                hshs@ == h0.skip(i as int),
                spec_upsert_all(orig_filters, a0, t0, h0) == spec_upsert_all(
                    self.0.tx_filters@,
                    addrs@,
                    toks@,
                    hshs@,
                ),
                crate::schema::same_but_filters(old(self).0, self.0),
                orig_filters == old(self).0.tx_filters@,
            decreases n - i,
        {
            let a = addrs.remove(0);
            let t = toks.remove(0);
            let h = hshs.remove(0);
            proof {
                assert(a == a0[i as int]);
                assert(t == t0[i as int]);
                assert(h == h0[i as int]);
                assert(a0.skip(i as int).remove(0) =~= a0.skip(i as int + 1));
                assert(t0.skip(i as int).remove(0) =~= t0.skip(i as int + 1));
                assert(h0.skip(i as int).remove(0) =~= h0.skip(i as int + 1));
            }
            let present = triple_present(&self.0.tx_filters, a.as_slice(), t, h.as_slice());
            let ghost before = self.0.tx_filters@;
            let e = FilterIndexEntry { address: a, token: t, tx_hash: h };
            if !present {
                self.0.tx_filters.push(e);
            }
            proof {
                assert(self.0.tx_filters@ == spec_upsert(before, e));
            }
            i += 1;
        }
        proof {
            assert(addrs@.len() == 0);
            assert(spec_upsert_all(
                self.0.tx_filters@,
                addrs@,
                toks@,
                hshs@,
            ) == self.0.tx_filters@);
        }
    }

    /// Counts the account's transactions: the number of distinct
    /// transaction hashes the filter index links to the address — under
    /// the given token only, when one is given, and restricted to hashes
    /// the second address also matches, when one is given.
    pub fn get_account_transactions_count(
        &self,
        address: &[u8],
        token: Option<i32>,
        second_address: Option<&[u8]>,
    ) -> (r: u32)
        requires
            self.0.tx_filters@.len() <= u32::MAX,
        ensures
            r as int == rep_count(
                self.0.tx_filters@,
                address@,
                token,
                match second_address {
                    Some(a) => Some(a@),
                    None => None,
                },
                self.0.tx_filters@.len() as int,
            ),
    {
        let ghost second = match second_address {
            Some(a) => Some(a@),
            None => None,
        };
        let fs = &self.0.tx_filters;
        let n = fs.len();
        let mut count: u32 = 0;
        let mut i: usize = 0;
        while i < n
            invariant
                n == fs@.len(),
                n <= u32::MAX,
                fs == self.0.tx_filters,
                0 <= i <= n,
                count <= i,
                second == match second_address {
                    Some(a) => Some(a@),
                    None => None,
                },
                count as int == rep_count(fs@, address@, token, second, i as int),
            decreases n - i,
        {
            let mut rep = entry_matches_exec(&fs[i], address, token);
            if rep {
                // the second address, when given, must also match this hash
                rep = match second_address {
                    Some(a2) => matches_addr_hash(fs, a2, token, fs[i].tx_hash.as_slice()),
                    None => true,
                };
            }
            if rep {
                // only the first occurrence of a hash is counted
                let mut j: usize = 0;
                while j < i
                    invariant
                        0 <= j <= i < fs@.len(),
                        rep == (forall|k: int| 0 <= k < j ==> !(entry_matches(
                            #[trigger] fs@[k],
                            address@,
                            token,
                        ) && fs@[k].tx_hash@ == fs@[i as int].tx_hash@)),
                    decreases i - j,
                {
                    if rep && entry_matches_exec(&fs[j], address, token)
                        && crate::records::bytes_eq(
                        fs[j].tx_hash.as_slice(),
                        fs[i].tx_hash.as_slice(),
                    ) {
                        rep = false;
                    }
                    j += 1;
                }
            }
            proof {
                if rep {
                    assert(hash_matches_addr(fs@, address@, token, fs@[i as int].tx_hash@)) by {
                        assert(entry_matches(fs@[i as int], address@, token));
                    }
                    assert(is_rep(fs@, address@, token, second, i as int));
                } else {
                    assert(!is_rep(fs@, address@, token, second, i as int));
                }
            }
            if rep {
                count = count + 1;
            }
            i += 1;
        }
        count
    }

    /// The filter index's watermark: the highest block number among
    /// executed transactions and priority operations whose hashes the
    /// index already reflects; zero when it reflects none.
    pub fn last_block_with_updated_tx_filters(&self) -> (r: u32)
        ensures
            ({
                let m1 = max_indexed_tx_block(
                    self.0.executed_txs@,
                    self.0.tx_filters@,
                    self.0.executed_txs@.len() as int,
                );
                let m2 = max_indexed_pop_block(
                    self.0.priority_ops@,
                    self.0.tx_filters@,
                    self.0.priority_ops@.len() as int,
                );
                r as int == if m1 >= m2 {
                    m1
                } else {
                    m2
                }
            }),
    {
        let txs = &self.0.executed_txs;
        let pops = &self.0.priority_ops;
        let fs = &self.0.tx_filters;
        let mut max1: u32 = 0;
        let n1 = txs.len();
        let mut i: usize = 0;
        while i < n1
            invariant
                n1 == txs@.len(),
                0 <= i <= n1,
                txs == self.0.executed_txs,
                fs == self.0.tx_filters,
                max1 as int == max_indexed_tx_block(txs@, fs@, i as int),
            decreases n1 - i,
        {
            if txs[i].block_number > max1 && hash_present(fs, txs[i].tx_hash.as_slice()) {
                max1 = txs[i].block_number;
            }
            i += 1;
        }
        let mut max2: u32 = 0;
        let n2 = pops.len();
        let mut j: usize = 0;
        while j < n2
            invariant
                n2 == pops@.len(),
                0 <= j <= n2,
                pops == self.0.priority_ops,
                fs == self.0.tx_filters,
                max2 as int == max_indexed_pop_block(pops@, fs@, j as int),
            decreases n2 - j,
        {
            if pops[j].block_number > max2 && hash_present(fs, pops[j].tx_hash.as_slice()) {
                max2 = pops[j].block_number;
            }
            j += 1;
        }
        if max1 >= max2 {
            max1
        } else {
            max2
        }
    }
}

} // verus!

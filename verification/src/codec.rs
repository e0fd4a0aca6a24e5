//! Hash and timestamp presentation.
//!
//! Ledger entries are handed out with their hashes rendered as lowercase hex
//! strings (ordinary transactions prefixed `sync-tx:`, priority operations
//! prefixed `0x`) and, where the caller expects text, their creation time
//! rendered as a calendar timestamp. Hex encoding and calendar formatting are
//! done by outside crates behind trusted wrappers.

use vstd::prelude::*;
use vstd::string::StringExecFns;

use crate::records::MAX_TIMESTAMP_MICROS;

verus! {

/// The lowercase hex digit for a value below 16.
pub open spec fn hex_digit(n: u8) -> char
    recommends
        n < 16,
{
    if n < 10 {
        ((n + 48) as u8) as char
    } else {
        ((n + 87) as u8) as char
    }
}

/// Lowercase hex rendering of a byte string: two digits per byte,
/// high nibble first.
pub open spec fn hex_of(b: Seq<u8>) -> Seq<char>
    decreases b.len(),
{
    if b.len() == 0 {
        Seq::<char>::empty()
    } else {
        seq![hex_digit(b[0] / 16), hex_digit(b[0] % 16)] + hex_of(b.drop_first())
    }
}

/// The length of a hex rendering is twice the length of the input.
pub proof fn lemma_hex_of_len(b: Seq<u8>)
    ensures
        hex_of(b).len() == 2 * b.len(),
    decreases b.len(),
{
    if b.len() > 0 {
        lemma_hex_of_len(b.drop_first());
    }
}

/// Relies on hex::encode: lowercase hex, two digits per byte, high nibble
/// first, exactly twice as many characters as input bytes.
#[verifier::external_body]
fn hex_encode(b: &[u8]) -> (r: String)
    ensures
        r@ == hex_of(b@),
{
    hex::encode(b)
}

/// The calendar rendering (year-month-day, time of day, six fractional
/// digits) of a microsecond Unix timestamp. Depends on the timestamp alone.
pub uninterp spec fn timestamp_text(micros: i64) -> Seq<char>;

/// Relies on chrono's DateTime::from_timestamp_micros and strftime-style
/// formatting: a pure calendar rendering of the timestamp, the same on every
/// machine. The bound keeps the timestamp inside the range the conversion
/// accepts.
#[verifier::external_body]
fn format_timestamp_micros(micros: i64) -> (r: String)
    requires
        0 <= micros < MAX_TIMESTAMP_MICROS,
    ensures
        r@ == timestamp_text(micros),
{
    let dt = chrono::DateTime::from_timestamp_micros(micros).expect("timestamp in range");
    dt.format("%Y-%m-%dT%H:%M:%S%.6f").to_string()
}

/// Renders a stored creation timestamp as calendar text.
pub fn render_created_at(micros: i64) -> (r: String)
    requires
        0 <= micros < MAX_TIMESTAMP_MICROS,
    ensures
        r@ == timestamp_text(micros),
{
    format_timestamp_micros(micros)
}

/// The hash string handed out for an ordinary transaction.
pub open spec fn sync_tx_hash_text(hash: Seq<u8>) -> Seq<char> {
    "sync-tx:"@ + hex_of(hash)
}

/// The hash string handed out for a priority operation.
pub open spec fn eth_hash_text(hash: Seq<u8>) -> Seq<char> {
    "0x"@ + hex_of(hash)
}

/// Builds the `sync-tx:`-prefixed lowercase hex hash string of an ordinary
/// transaction.
pub fn sync_tx_hash_string(hash: &[u8]) -> (r: String)
    ensures
        r@ == sync_tx_hash_text(hash@),
{
    let mut s = String::from_str("sync-tx:");
    let h = hex_encode(hash);
    s.append(h.as_str());
    s
}

/// Builds the `0x`-prefixed lowercase hex hash string of a priority
/// operation.
pub fn eth_hash_string(hash: &[u8]) -> (r: String)
    ensures
        r@ == eth_hash_text(hash@),
{
    let mut s = String::from_str("0x");
    let h = hex_encode(hash);
    s.append(h.as_str());
    s
}

/// Lowercase hex rendering of a hash, without a prefix.
pub fn plain_hex_string(hash: &[u8]) -> (r: String)
    ensures
        r@ == hex_of(hash@),
{
    hex_encode(hash)
}

} // verus!

//! Principal hashing and storage-cost accounting: the byte-level price of a
//! mutation, the amount owed for it, and the reconciliation of what a caller
//! attached against what the operation required.

use vstd::prelude::*;
use vstd::string::StrSliceExecFns;
use sha2::Digest;
use crate::Error;

verus! {

/// Price per byte of newly persisted storage, in the smallest currency unit.
pub const STORAGE_PRICE_PER_BYTE: u128 = 10_000_000_000_000_000_000;

/// The minimal non-zero attachment that authorizes a one-shot effectful call;
/// it is returned to the caller in the call's own bookkeeping.
pub const AUTH_AMOUNT: u128 = 1;

/// Bytes a service record occupies beyond its text fields: the id key, the two
/// fixed-width amounts, and the text-length headers.
pub const SERVICE_RECORD_OVERHEAD: u64 = 48;

/// Bytes a receipt record occupies beyond its text fields: the service id, the
/// two timestamps, the refund marker, and the text-length headers.
pub const RECEIPT_RECORD_OVERHEAD: u64 = 33;

/// Bytes of the owner-index entry that points at one receipt, beyond the id text.
pub const INDEX_ENTRY_OVERHEAD: u64 = 8;

/// Bytes of a freshly created per-owner index container: its 33-byte storage
/// key plus the container header.
pub const INDEX_CONTAINER_OVERHEAD: u64 = 41;

/// A currency movement scheduled by an operation and performed later by the
/// external transfer service; the scheduling operation never observes its outcome.
#[derive(Debug, PartialEq)]
pub struct Transfer {
    pub to: String,
    pub amount: u128,
}

/// The digest that namespaces an owner's private index-set storage region.
pub uninterp spec fn hash_of_principal(id: Seq<char>) -> Seq<u8>;

/// Relies on `sha2::Sha256`: the digest of the principal's UTF-8 bytes is a
/// function of those bytes alone and is exactly 32 bytes long.
#[verifier::external_body]
pub(crate) fn hash_account_id(account_id: &String) -> (r: Vec<u8>)
    ensures
        r@ == hash_of_principal(account_id@),
        r@.len() == 32,
{
    sha2::Sha256::digest(account_id.as_bytes()).to_vec()
}

/// Currency owed for `byte_count` newly persisted bytes, at the fixed per-byte price.
pub open spec fn spec_storage_cost(byte_count: int) -> int {
    byte_count * (STORAGE_PRICE_PER_BYTE as int)
}

/// Converts a count of newly persisted storage bytes into the currency amount
/// required to cover it.
pub fn cost_of(byte_count: u64) -> (r: u128)
    ensures
        r == spec_storage_cost(byte_count as int),
{
    (byte_count as u128) * STORAGE_PRICE_PER_BYTE
}

/// `cost_of` lifted to the wide byte counts the operations compute; `None` where
/// the cost exceeds the largest representable amount (and so exceeds anything a
/// caller could have attached).
pub(crate) fn checked_storage_cost(byte_count: u128) -> (r: Option<u128>)
    ensures
        r matches Some(c) ==> c == spec_storage_cost(byte_count as int),
        r is None ==> spec_storage_cost(byte_count as int) > u128::MAX,
{
    byte_count.checked_mul(STORAGE_PRICE_PER_BYTE)
}

/// What a successful reconciliation schedules: the excess over the required
/// amount flows back to the caller; nothing flows when the attachment is exact.
pub open spec fn reconcile_ok(r: Option<Transfer>, attached: u128, required: int, caller: Seq<char>) -> bool {
    if attached > required {
        &&& r matches Some(t)
        &&& t.to@ == caller
        &&& t.amount == attached - required
    } else {
        r is None
    }
}

/// Fails the whole call when the attached amount does not cover the required
/// amount; otherwise schedules the excess, if any, back to the caller.
pub fn reconcile_deposit(attached: u128, required: u128, caller: &String) -> (r: Result<Option<Transfer>, Error>)
    ensures
        attached < required ==> r == Err::<Option<Transfer>, Error>(Error::InsufficientPayment),
        attached >= required ==> (r matches Ok(t) && reconcile_ok(t, attached, required as int, caller@)),
{
    if attached < required {
        Err(Error::InsufficientPayment)
    } else if attached > required {
        Ok(Some(Transfer { to: caller.clone(), amount: attached - required }))
    } else {
        Ok(None)
    }
}

/// Where a paginated read starts: the explicit offset, or 0 when none was given.
pub open spec fn spec_offset(from_index: Option<u128>) -> int {
    match from_index {
        Some(x) => x as int,
        None => 0,
    }
}

/// How many entries a paginated read yields at most: the explicit limit, or 50
/// when none was given.
pub open spec fn spec_page_limit(limit: Option<u64>) -> int {
    match limit {
        Some(l) => l as int,
        None => 50,
    }
}

/// Persisted size, in bytes, of one service record: its text fields plus the
/// fixed-width remainder of the record.
pub open spec fn spec_service_bytes(title: Seq<char>, description: Seq<char>, owner: Seq<char>) -> int {
    title.len() + description.len() + owner.len() + (SERVICE_RECORD_OVERHEAD as int)
}

/// Measures the bytes a new service record persists.
pub fn service_record_bytes(title: &String, description: &String, owner: &String) -> (r: u128)
    ensures
        r == spec_service_bytes(title@, description@, owner@),
{
    let t = title.as_str().unicode_len();
    let d = description.as_str().unicode_len();
    let o = owner.as_str().unicode_len();
    (t as u128) + (d as u128) + (o as u128) + (SERVICE_RECORD_OVERHEAD as u128)
}

/// Persisted size, in bytes, of everything one receipt creation writes: the
/// receipt record (which stores the stream id and the renter), the owner-index
/// entry (which stores the stream id again), and, for the owner's first receipt,
/// the freshly created index container.
pub open spec fn spec_receipt_bytes(stream_id: Seq<char>, owner: Seq<char>, first_for_owner: bool) -> int {
    2 * stream_id.len() + owner.len() + (RECEIPT_RECORD_OVERHEAD as int) + (INDEX_ENTRY_OVERHEAD as int)
        + if first_for_owner { INDEX_CONTAINER_OVERHEAD as int } else { 0 }
}

/// Measures the bytes one receipt creation persists.
pub fn receipt_record_bytes(stream_id: &String, owner: &String, first_for_owner: bool) -> (r: u128)
    ensures
        r == spec_receipt_bytes(stream_id@, owner@, first_for_owner),
{
    let s = stream_id.as_str().unicode_len();
    let o = owner.as_str().unicode_len();
    let base = 2 * (s as u128) + (o as u128) + (RECEIPT_RECORD_OVERHEAD as u128) + (INDEX_ENTRY_OVERHEAD as u128);
    if first_for_owner {
        base + (INDEX_CONTAINER_OVERHEAD as u128)
    } else {
        base
    }
}

} // verus!

//! A two-entity ledger for a rental marketplace: service listings published by
//! providers, and rental receipts that record a renter's occupancy of a service
//! together with a refundable deposit.
//!
//! The host that runs the ledger supplies the caller's identity, the clock, the
//! attached currency and the transfer service; every operation here takes those
//! as plain values and hands the transfers it schedules back as plain values.
//! Every failure aborts the operation before any state is mutated.

use vstd::prelude::*;

pub mod internal;
pub mod receipt;
pub mod service;

pub use crate::internal::{
    cost_of, reconcile_deposit, receipt_record_bytes, service_record_bytes, Transfer,
    AUTH_AMOUNT, INDEX_CONTAINER_OVERHEAD, INDEX_ENTRY_OVERHEAD, RECEIPT_RECORD_OVERHEAD,
    SERVICE_RECORD_OVERHEAD, STORAGE_PRICE_PER_BYTE,
};
pub use crate::receipt::{OwnerEntry, RentalReceipt};
pub use crate::service::Service;

use crate::receipt::entry_wf;

verus! {

/// The failure conditions an operation can report. Every failure aborts the
/// operation before any state is mutated.
#[derive(Clone, Copy, Debug, PartialEq, Eq, Structural)]
pub enum Error {
    /// A referenced service or receipt id does not exist.
    NotFound,
    /// The stream id already has a receipt, or a one-shot action was repeated.
    Conflict,
    /// The caller is not the required principal.
    Unauthorized,
    /// The attached currency is less than the required amount.
    InsufficientPayment,
    /// Construction was invoked on already-initialized state.
    AlreadyInitialized,
}

/// Tag byte of the service table's storage namespace.
pub const TAG_SERVICE: u8 = 0;

/// Tag byte of the receipt table's storage namespace.
pub const TAG_RECEIPT: u8 = 1;

/// Tag byte of the owner-index table's storage namespace.
pub const TAG_RECEIPT_PER_OWNER: u8 = 2;

/// Tag byte of one owner's private index-set namespace; the owner's digest follows it.
pub const TAG_RECEIPT_PER_OWNER_INNER: u8 = 3;

/// The stable byte-key namespaces under which the persistent store keeps each
/// collection; per-owner index sets get a private sub-namespace keyed by the
/// owner's digest.
#[derive(Debug, PartialEq)]
pub enum StorageKeys {
    Service,
    Receipt,
    ReceiptPerOwner,
    ReceiptPerOwnerInner { account_id_hash: Vec<u8> },
}

/// The byte prefix that namespaces one collection in the persistent store: a
/// one-byte tag, plus the owner's digest for a per-owner inner set.
pub open spec fn spec_storage_key(k: StorageKeys) -> Seq<u8> {
    match k {
        StorageKeys::Service => seq![TAG_SERVICE],
        StorageKeys::Receipt => seq![TAG_RECEIPT],
        StorageKeys::ReceiptPerOwner => seq![TAG_RECEIPT_PER_OWNER],
        StorageKeys::ReceiptPerOwnerInner { account_id_hash } =>
            seq![TAG_RECEIPT_PER_OWNER_INNER] + account_id_hash@,
    }
}

/// Encodes a storage key as the byte prefix the persistent store is keyed by.
pub fn key_bytes(k: &StorageKeys) -> (r: Vec<u8>)
    ensures
        r@ == spec_storage_key(*k),
{
    let mut r: Vec<u8> = Vec::new();
    match k {
        StorageKeys::Service => {
            r.push(TAG_SERVICE);
        },
        StorageKeys::Receipt => {
            r.push(TAG_RECEIPT);
        },
        StorageKeys::ReceiptPerOwner => {
            r.push(TAG_RECEIPT_PER_OWNER);
        },
        StorageKeys::ReceiptPerOwnerInner { account_id_hash } => {
            r.push(TAG_RECEIPT_PER_OWNER_INNER);
            let mut i: usize = 0;
            while i < account_id_hash.len()
                invariant
                    i <= account_id_hash@.len(),
                    r@ == seq![TAG_RECEIPT_PER_OWNER_INNER] + account_id_hash@.subrange(0, i as int),
                decreases account_id_hash@.len() - i,
            {
                r.push(account_id_hash[i]);
                i = i + 1;
                proof {
                    assert(r@ =~= seq![TAG_RECEIPT_PER_OWNER_INNER]
                        + account_id_hash@.subrange(0, i as int));
                }
            }
            proof {
                assert(account_id_hash@.subrange(0, account_id_hash@.len() as int)
                    =~= account_id_hash@);
            }
        },
    }
    proof {
        assert(r@ =~= spec_storage_key(*k));
    }
    r
}

/// The contract root: the four collections and the serial counter for service ids.
#[derive(Debug)]
pub struct Contract {
    /// The principal that initialized the contract; the only one allowed to migrate it.
    pub owner_id: String,
    /// The service registry; the record at position `i` has id `i + 1`.
    pub services: Vec<Service>,
    /// The receipt ledger, in creation order.
    pub receipts: Vec<RentalReceipt>,
    /// The owner index: one entry per principal that created a receipt.
    pub receipt_per_owner: Vec<OwnerEntry>,
    /// The last service id handed out; ids start at 1.
    pub service_serial: u64,
}

impl Contract {
    /// The id of the service stored at position `i`: ids are assigned serially,
    /// starting at 1, in registry order.
    pub open spec fn service_id_at(self, i: int) -> u64 {
        (i + 1) as u64
    }

    /// The registry holds a service under this id.
    pub open spec fn spec_has_service(self, service_id: u64) -> bool {
        1 <= service_id <= self.services@.len()
    }

    /// The service the registry holds under this id.
    pub open spec fn spec_service(self, service_id: u64) -> Service
        recommends
            self.spec_has_service(service_id),
    {
        self.services@[service_id - 1]
    }

    /// A well-formed ledger: the serial counter matches the registry, stream ids
    /// are unique, every receipt references an existing service, owners are
    /// indexed at most once, and every index entry is internally coherent.
    pub open spec fn wf(self) -> bool {
        &&& self.service_serial == self.services@.len()
        &&& crate::receipt::stream_ids_unique(self.receipts@)
        &&& crate::receipt::services_referenced(self.receipts@, self.services@.len() as int)
        &&& crate::receipt::owners_unique(self.receipt_per_owner@)
        &&& forall|i: int|
            0 <= i < self.receipt_per_owner@.len()
                ==> entry_wf(#[trigger] self.receipt_per_owner@[i], self.receipts@)
    }

    /// One-time construction of a fresh, empty ledger owned by `owner_id`;
    /// `state_exists` reports whether the host already holds initialized state.
    pub fn new(owner_id: String, state_exists: bool) -> (r: Result<Contract, Error>)
        ensures
            state_exists ==> r == Err::<Contract, Error>(Error::AlreadyInitialized),
            !state_exists ==> (r matches Ok(c) && {
                &&& c.wf()
                &&& c.owner_id@ == owner_id@
                &&& c.services@.len() == 0
                &&& c.receipts@.len() == 0
                &&& c.receipt_per_owner@.len() == 0
                &&& c.service_serial == 0
            }),
    {
        if state_exists {
            Err(Error::AlreadyInitialized)
        } else {
            Ok(Contract {
                owner_id,
                services: Vec::new(),
                receipts: Vec::new(),
                receipt_per_owner: Vec::new(),
                service_serial: 0,
            })
        }
    }

    /// State-migration hook: hands back the persisted state unchanged; only the
    /// stored contract owner may invoke it.
    pub fn migrate(state: Contract, caller: String) -> (r: Result<Contract, Error>)
        ensures
            caller@ == state.owner_id@ ==> (r matches Ok(c) && c == state),
            caller@ != state.owner_id@ ==> r == Err::<Contract, Error>(Error::Unauthorized),
    {
        if caller == state.owner_id {
            Ok(state)
        } else {
            Err(Error::Unauthorized)
        }
    }
}

} // verus!

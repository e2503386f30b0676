//! End-to-end exercises of the ledger: creation, lookup, pagination, closing,
//! deposit refunds and the cost accounting around them.

use rental_ledger::{
    cost_of, receipt_record_bytes, service_record_bytes, Contract, Error, RentalReceipt,
    StorageKeys, Transfer, AUTH_AMOUNT, STORAGE_PRICE_PER_BYTE,
};
use sha2::Digest;

fn s(x: &str) -> String {
    x.to_string()
}

/// Plenty of currency for any storage bill in these tests.
const AMPLE: u128 = u128::MAX / 2;

fn fresh() -> Contract {
    Contract::new(s("contract-owner"), false).unwrap()
}

fn add_service(c: &mut Contract, owner: &str, price_per_day: u128, deposit: u128) -> u64 {
    let (id, _refund) = c
        .create_service(
            s(owner),
            AMPLE,
            s("room"),
            s("a room to rent"),
            price_per_day,
            deposit,
        )
        .unwrap();
    id
}

fn receipt_cost(c: &Contract, stream_id: &str, renter: &str, deposit: u128) -> u128 {
    let first = c
        .receipts_for_owner(s(renter), None, None)
        .is_empty();
    let bytes = receipt_record_bytes(&s(stream_id), &s(renter), first);
    cost_of(bytes as u64) + deposit
}

#[test]
fn service_ids_increase_without_gaps() {
    let mut c = fresh();
    for expected in 1..=5u64 {
        let id = add_service(&mut c, "prov", 10, 5);
        assert_eq!(id, expected);
    }
}

#[test]
fn duplicate_stream_id_conflicts() {
    let mut c = fresh();
    let sid = add_service(&mut c, "prov", 10, 5);
    c.create_receipt(s("renter"), AMPLE, 100, sid, s("r1")).unwrap();
    let before = c.get_receipt(s("r1")).unwrap();
    let err = c
        .create_receipt(s("other"), AMPLE, 200, sid, s("r1"))
        .unwrap_err();
    assert_eq!(err, Error::Conflict);
    // the ledger still holds only the first receipt's data
    assert_eq!(c.receipts.len(), 1);
    assert_eq!(c.get_receipt(s("r1")).unwrap(), before);
    assert_eq!(before.created_at, 100);
    assert_eq!(before.owner, s("renter"));
}

#[test]
fn create_receipt_unknown_service_not_found() {
    let mut c = fresh();
    let err = c
        .create_receipt(s("renter"), AMPLE, 100, 7, s("r1"))
        .unwrap_err();
    assert_eq!(err, Error::NotFound);
    assert!(c.receipts.is_empty());
    assert!(c.receipt_per_owner.is_empty());
}

#[test]
fn receipts_for_owner_contains_created_receipt() {
    let mut c = fresh();
    let sid = add_service(&mut c, "prov", 10, 5);
    c.create_receipt(s("renter"), AMPLE, 100, sid, s("r1")).unwrap();
    let page = c.receipts_for_owner(s("renter"), Some(0), Some(50));
    let looked_up = c.get_receipt(s("r1")).unwrap();
    assert!(page.contains(&looked_up));
    assert_eq!(page.len(), 1);
}

#[test]
fn close_by_non_owner_unauthorized() {
    let mut c = fresh();
    let sid = add_service(&mut c, "prov", 10, 5);
    c.create_receipt(s("renter"), AMPLE, 100, sid, s("r1")).unwrap();
    // neither the renter nor a stranger may close a receipt
    let err = c.close_receipt(s("renter"), 150, s("r1")).unwrap_err();
    assert_eq!(err, Error::Unauthorized);
    let err = c.close_receipt(s("stranger"), 150, s("r1")).unwrap_err();
    assert_eq!(err, Error::Unauthorized);
    assert_eq!(c.get_receipt(s("r1")).unwrap().stopped_at, None);
}

#[test]
fn close_by_owner_stamps_time() {
    let mut c = fresh();
    let sid = add_service(&mut c, "prov", 10, 5);
    c.create_receipt(s("renter"), AMPLE, 100, sid, s("r1")).unwrap();
    c.close_receipt(s("prov"), 250, s("r1")).unwrap();
    let rec = c.get_receipt(s("r1")).unwrap();
    assert_eq!(rec.stopped_at, Some(250));
    assert!(rec.stopped_at.unwrap() >= rec.created_at);
}

#[test]
fn close_twice_keeps_first_stamp() {
    let mut c = fresh();
    let sid = add_service(&mut c, "prov", 10, 5);
    c.create_receipt(s("renter"), AMPLE, 100, sid, s("r1")).unwrap();
    c.close_receipt(s("prov"), 250, s("r1")).unwrap();
    c.close_receipt(s("prov"), 400, s("r1")).unwrap();
    assert_eq!(c.get_receipt(s("r1")).unwrap().stopped_at, Some(250));
}

#[test]
fn pagination_covers_all_services() {
    let mut c = fresh();
    for _ in 0..4 {
        add_service(&mut c, "prov", 10, 5);
    }
    let first = c.get_services(Some(0), Some(2));
    let second = c.get_services(Some(2), Some(2));
    assert_eq!(first.len(), 2);
    assert_eq!(second.len(), 2);
    let mut ids: Vec<u64> = first.iter().chain(second.iter()).map(|p| p.0).collect();
    ids.sort();
    assert_eq!(ids, vec![1, 2, 3, 4]);
}

#[test]
fn pagination_defaults_and_tail() {
    let mut c = fresh();
    for _ in 0..4 {
        add_service(&mut c, "prov", 10, 5);
    }
    assert_eq!(c.get_services(None, None).len(), 4);
    assert_eq!(c.get_services(Some(3), Some(10)).len(), 1);
    assert_eq!(c.get_services(Some(9), Some(10)).len(), 0);
}

#[test]
fn receipts_for_owner_unknown_principal_empty() {
    let c = fresh();
    assert!(c.receipts_for_owner(s("nobody"), Some(0), Some(50)).is_empty());
}

#[test]
fn create_service_underpayment_rejected() {
    let mut c = fresh();
    let bytes = service_record_bytes(&s("room"), &s("a room to rent"), &s("prov"));
    let required = cost_of(bytes as u64);
    let err = c
        .create_service(s("prov"), required - 1, s("room"), s("a room to rent"), 10, 5)
        .unwrap_err();
    assert_eq!(err, Error::InsufficientPayment);
    assert_eq!(c.service_serial, 0);
    assert!(c.services.is_empty());
}

#[test]
fn create_service_exact_payment_no_refund() {
    let mut c = fresh();
    let bytes = service_record_bytes(&s("room"), &s("a room to rent"), &s("prov"));
    let required = cost_of(bytes as u64);
    let (id, refund) = c
        .create_service(s("prov"), required, s("room"), s("a room to rent"), 10, 5)
        .unwrap();
    assert_eq!(id, 1);
    assert!(refund.is_none());
}

#[test]
fn create_service_excess_refunded_to_caller() {
    let mut c = fresh();
    let bytes = service_record_bytes(&s("room"), &s("a room to rent"), &s("prov"));
    let required = cost_of(bytes as u64);
    let (_, refund) = c
        .create_service(s("prov"), required + 77, s("room"), s("a room to rent"), 10, 5)
        .unwrap();
    let t = refund.unwrap();
    assert_eq!(t.to, s("prov"));
    assert_eq!(t.amount, 77);
}

#[test]
fn create_receipt_charges_storage_plus_deposit() {
    let mut c = fresh();
    let sid = add_service(&mut c, "prov", 100, 50);
    let required = receipt_cost(&c, "r1", "renter", 50);
    let err = c
        .create_receipt(s("renter"), required - 1, 100, sid, s("r1"))
        .unwrap_err();
    assert_eq!(err, Error::InsufficientPayment);
    assert!(c.get_receipt(s("r1")).is_none());
    let refund = c
        .create_receipt(s("renter"), required + 9, 100, sid, s("r1"))
        .unwrap();
    assert_eq!(refund.unwrap().amount, 9);
}

#[test]
fn end_to_end_rental_scenario() {
    let mut c = fresh();
    let sid = add_service(&mut c, "prov", 100, 50);
    assert_eq!(sid, 1);
    let required = receipt_cost(&c, "s1", "renter", 50);
    c.create_receipt(s("renter"), required, 100, sid, s("s1")).unwrap();
    let rec = c.get_receipt(s("s1")).unwrap();
    assert_eq!(rec.owner, s("renter"));
    assert_eq!(rec.service, 1);
    assert_eq!(rec.stopped_at, None);
    let (deposit_transfer, auth_refund) = c
        .refund_receipt_deposit(s("prov"), AUTH_AMOUNT, s("s1"))
        .unwrap();
    // the external transfer collaborator is handed the renter's deposit
    assert_eq!(deposit_transfer.to, s("renter"));
    assert_eq!(deposit_transfer.amount, 50);
    assert_eq!(auth_refund.to, s("prov"));
    assert_eq!(auth_refund.amount, AUTH_AMOUNT);
}

#[test]
fn refund_requires_exact_authorization() {
    let mut c = fresh();
    let sid = add_service(&mut c, "prov", 100, 50);
    c.create_receipt(s("renter"), AMPLE, 100, sid, s("r1")).unwrap();
    let err = c.refund_receipt_deposit(s("prov"), 0, s("r1")).unwrap_err();
    assert_eq!(err, Error::InsufficientPayment);
    let err = c.refund_receipt_deposit(s("prov"), 2, s("r1")).unwrap_err();
    assert_eq!(err, Error::InsufficientPayment);
}

#[test]
fn refund_restricted_to_service_owner() {
    let mut c = fresh();
    let sid = add_service(&mut c, "prov", 100, 50);
    c.create_receipt(s("renter"), AMPLE, 100, sid, s("r1")).unwrap();
    let err = c
        .refund_receipt_deposit(s("renter"), AUTH_AMOUNT, s("r1"))
        .unwrap_err();
    assert_eq!(err, Error::Unauthorized);
    let err = c
        .refund_receipt_deposit(s("prov"), AUTH_AMOUNT, s("missing"))
        .unwrap_err();
    assert_eq!(err, Error::NotFound);
}

#[test]
fn refund_twice_conflicts() {
    let mut c = fresh();
    let sid = add_service(&mut c, "prov", 100, 50);
    c.create_receipt(s("renter"), AMPLE, 100, sid, s("r1")).unwrap();
    c.refund_receipt_deposit(s("prov"), AUTH_AMOUNT, s("r1")).unwrap();
    let err = c
        .refund_receipt_deposit(s("prov"), AUTH_AMOUNT, s("r1"))
        .unwrap_err();
    assert_eq!(err, Error::Conflict);
}

#[test]
fn new_on_existing_state_already_initialized() {
    let err = Contract::new(s("owner"), true).unwrap_err();
    assert_eq!(err, Error::AlreadyInitialized);
}

#[test]
fn migrate_requires_contract_owner() {
    let c = fresh();
    let err = Contract::migrate(c, s("mallory")).unwrap_err();
    assert_eq!(err, Error::Unauthorized);
    let c = fresh();
    let migrated = Contract::migrate(c, s("contract-owner")).unwrap();
    assert_eq!(migrated.owner_id, s("contract-owner"));
    assert_eq!(migrated.service_serial, 0);
}

#[test]
fn cost_of_charges_fixed_price() {
    assert_eq!(cost_of(0), 0);
    assert_eq!(cost_of(1), STORAGE_PRICE_PER_BYTE);
    assert_eq!(cost_of(10), 10 * STORAGE_PRICE_PER_BYTE);
}

#[test]
fn record_bytes_grow_with_text() {
    let small = service_record_bytes(&s("a"), &s("b"), &s("c"));
    let large = service_record_bytes(&s("aaaa"), &s("b"), &s("c"));
    assert_eq!(large - small, 3);
    // an owner's first receipt also pays for its fresh index container
    let first = receipt_record_bytes(&s("r1"), &s("renter"), true);
    let later = receipt_record_bytes(&s("r1"), &s("renter"), false);
    assert!(first > later);
}

#[test]
fn reconcile_deposit_exact_and_excess() {
    assert_eq!(
        rental_ledger::reconcile_deposit(5, 10, &s("caller")).unwrap_err(),
        Error::InsufficientPayment
    );
    assert_eq!(rental_ledger::reconcile_deposit(10, 10, &s("caller")).unwrap(), None);
    let t = rental_ledger::reconcile_deposit(14, 10, &s("caller")).unwrap().unwrap();
    assert_eq!(t, Transfer { to: s("caller"), amount: 4 });
}

#[test]
fn owner_namespace_is_tagged_digest() {
    let mut c = fresh();
    let sid = add_service(&mut c, "prov", 10, 5);
    c.create_receipt(s("renter"), AMPLE, 100, sid, s("r1")).unwrap();
    assert_eq!(c.receipt_per_owner.len(), 1);
    let entry = &c.receipt_per_owner[0];
    assert_eq!(entry.owner, s("renter"));
    let digest = sha2::Sha256::digest("renter".as_bytes());
    let mut expected = vec![3u8];
    expected.extend_from_slice(&digest);
    assert_eq!(entry.namespace, expected);
}

#[test]
fn key_bytes_encodes_tags() {
    assert_eq!(rental_ledger::key_bytes(&StorageKeys::Service), vec![0u8]);
    assert_eq!(rental_ledger::key_bytes(&StorageKeys::Receipt), vec![1u8]);
    assert_eq!(rental_ledger::key_bytes(&StorageKeys::ReceiptPerOwner), vec![2u8]);
    let inner = rental_ledger::key_bytes(&StorageKeys::ReceiptPerOwnerInner {
        account_id_hash: vec![9, 8, 7],
    });
    assert_eq!(inner, vec![3, 9, 8, 7]);
}

#[test]
fn get_service_reads_back_record() {
    let mut c = fresh();
    let id = add_service(&mut c, "prov", 10, 5);
    let svc = c.get_service(id).unwrap();
    assert_eq!(svc.title, s("room"));
    assert_eq!(svc.description, s("a room to rent"));
    assert_eq!(svc.owner, s("prov"));
    assert_eq!(svc.price_per_day, 10);
    assert_eq!(svc.deposit, 5);
    assert!(c.get_service(0).is_none());
    assert!(c.get_service(id + 1).is_none());
}

#[test]
fn receipts_for_owner_paginates_in_index_order() {
    let mut c = fresh();
    let sid = add_service(&mut c, "prov", 10, 5);
    for k in 0..5 {
        let id = format!("r{}", k);
        c.create_receipt(s("renter"), AMPLE, 100 + k, sid, id).unwrap();
    }
    let page: Vec<RentalReceipt> = c.receipts_for_owner(s("renter"), Some(1), Some(2));
    assert_eq!(page.len(), 2);
    assert_eq!(page[0].stream_id, s("r1"));
    assert_eq!(page[1].stream_id, s("r2"));
    assert_eq!(c.receipts_for_owner(s("renter"), None, None).len(), 5);
    assert_eq!(c.receipts_for_owner(s("renter"), Some(7), Some(2)).len(), 0);
}

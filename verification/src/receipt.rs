//! The receipt ledger and the owner index: rental receipts keyed by a
//! caller-supplied stream id, and the per-principal index that answers
//! owner-scoped lookups without a full-table scan.

use vstd::prelude::*;
use crate::internal::{
    checked_storage_cost, hash_account_id, hash_of_principal, receipt_record_bytes,
    reconcile_deposit, reconcile_ok, spec_offset, spec_page_limit, spec_receipt_bytes,
    spec_storage_cost, Transfer, AUTH_AMOUNT,
};
use crate::{key_bytes, Contract, Error, StorageKeys};

verus! {

/// A record of one rental occupancy of a service by a renter. Identified by its
/// caller-supplied `stream_id`, unique for the lifetime of the ledger.
#[derive(Debug, PartialEq)]
pub struct RentalReceipt {
    /// The id of the rented service.
    pub service: u64,
    /// The renter that created the receipt.
    pub owner: String,
    /// The natural key of the receipt.
    pub stream_id: String,
    /// Unset until the service owner closes the receipt; set exactly once.
    pub stopped_at: Option<u64>,
    /// The time the receipt was created.
    pub created_at: u64,
    /// Whether the deposit was already returned; guards the one-shot refund.
    pub refunded: bool,
}

impl Clone for RentalReceipt {
    fn clone(&self) -> (r: Self)
        ensures
            r == *self,
    {
        RentalReceipt {
            service: self.service,
            owner: self.owner.clone(),
            stream_id: self.stream_id.clone(),
            stopped_at: self.stopped_at,
            created_at: self.created_at,
            refunded: self.refunded,
        }
    }
}

/// One owner's slice of the index: the set of stream ids of the receipts this
/// principal created, stored under a namespace derived from the principal's digest.
#[derive(Debug, PartialEq)]
pub struct OwnerEntry {
    /// The indexed principal.
    pub owner: String,
    /// The storage key of this owner's private index region.
    pub namespace: Vec<u8>,
    /// The stream ids of the receipts this owner created, in creation order.
    pub receipt_ids: Vec<String>,
}

/// The storage key of an owner's private index-set region: the inner-set tag
/// byte followed by the owner's digest.
pub open spec fn spec_owner_namespace(owner: Seq<char>) -> Seq<u8> {
    seq![crate::TAG_RECEIPT_PER_OWNER_INNER] + hash_of_principal(owner)
}

/// Some receipt in the ledger carries this stream id.
pub open spec fn has_stream(receipts: Seq<RentalReceipt>, stream_id: Seq<char>) -> bool {
    exists|i: int| 0 <= i < receipts.len() && (#[trigger] receipts[i]).stream_id@ == stream_id
}

/// The position of the receipt with this stream id; meaningful where
/// `has_stream` holds and stream ids are unique.
pub open spec fn stream_index(receipts: Seq<RentalReceipt>, stream_id: Seq<char>) -> int {
    choose|i: int| 0 <= i < receipts.len() && (#[trigger] receipts[i]).stream_id@ == stream_id
}

/// The receipt the ledger holds under this stream id.
pub open spec fn spec_receipt_at(receipts: Seq<RentalReceipt>, stream_id: Seq<char>) -> RentalReceipt {
    receipts[stream_index(receipts, stream_id)]
}

/// Some receipt in the ledger has this stream id and was created by this owner.
pub open spec fn resolves_to(receipts: Seq<RentalReceipt>, stream_id: Seq<char>, owner: Seq<char>) -> bool {
    exists|i: int|
        0 <= i < receipts.len() && (#[trigger] receipts[i]).stream_id@ == stream_id
            && receipts[i].owner@ == owner
}

/// The index holds an entry for this principal.
pub open spec fn has_owner_entry(entries: Seq<OwnerEntry>, owner: Seq<char>) -> bool {
    exists|i: int| 0 <= i < entries.len() && (#[trigger] entries[i]).owner@ == owner
}

/// The position of this principal's entry; meaningful where `has_owner_entry`
/// holds and owners are indexed at most once.
pub open spec fn owner_entry_index(entries: Seq<OwnerEntry>, owner: Seq<char>) -> int {
    choose|i: int| 0 <= i < entries.len() && (#[trigger] entries[i]).owner@ == owner
}

/// No two receipts share a stream id.
pub open spec fn stream_ids_unique(receipts: Seq<RentalReceipt>) -> bool {
    forall|i: int, j: int|
        0 <= i < j < receipts.len() ==> receipts[i].stream_id@ != receipts[j].stream_id@
}

/// Every receipt references a service the registry holds, out of `n` in total.
pub open spec fn services_referenced(receipts: Seq<RentalReceipt>, n: int) -> bool {
    forall|i: int| 0 <= i < receipts.len() ==> 1 <= (#[trigger] receipts[i]).service <= n
}

/// No principal is indexed twice.
pub open spec fn owners_unique(entries: Seq<OwnerEntry>) -> bool {
    forall|i: int, j: int| 0 <= i < j < entries.len() ==> entries[i].owner@ != entries[j].owner@
}

/// One owner-index entry is coherent: its namespace is derived from its owner's
/// digest, its ids are distinct, and each resolves in the ledger to a receipt
/// created by that owner.
pub open spec fn entry_wf(entry: OwnerEntry, receipts: Seq<RentalReceipt>) -> bool {
    &&& entry.namespace@ == spec_owner_namespace(entry.owner@)
    &&& forall|k: int, l: int|
        0 <= k < l < entry.receipt_ids@.len()
            ==> entry.receipt_ids@[k]@ != entry.receipt_ids@[l]@
    &&& forall|k: int|
        0 <= k < entry.receipt_ids@.len()
            ==> resolves_to(receipts, (#[trigger] entry.receipt_ids@[k])@, entry.owner@)
}

/// How one receipt creation grows the owner index: the caller's entry gains the
/// stream id at its end — the entry being created first, under its derived
/// namespace, where the caller had none — and all other entries are untouched.
pub open spec fn index_extended(
    pre: Seq<OwnerEntry>,
    post: Seq<OwnerEntry>,
    caller: String,
    stream_id: String,
) -> bool {
    if has_owner_entry(pre, caller@) {
        let e = owner_entry_index(pre, caller@);
        &&& post.len() == pre.len()
        &&& forall|j: int| 0 <= j < pre.len() && j != e ==> post[j] == pre[j]
        &&& post[e].owner == pre[e].owner
        &&& post[e].namespace == pre[e].namespace
        &&& post[e].receipt_ids@ == pre[e].receipt_ids@.push(stream_id)
    } else {
        &&& post.len() == pre.len() + 1
        &&& forall|j: int| 0 <= j < pre.len() ==> post[j] == pre[j]
        &&& post[pre.len() as int].owner == caller
        &&& post[pre.len() as int].namespace@ == spec_owner_namespace(caller@)
        &&& post[pre.len() as int].receipt_ids@ == seq![stream_id]
    }
}

/// Appending a fresh receipt and extending the owner index accordingly keeps
/// the ledger well-formed.
proof fn lemma_create_receipt_wf(
    pre: Contract,
    post: Contract,
    c: String,
    sid: String,
    rcpt: RentalReceipt,
)
    requires
        pre.wf(),
        rcpt.owner@ == c@,
        rcpt.stream_id@ == sid@,
        1 <= rcpt.service <= pre.services@.len(),
        !has_stream(pre.receipts@, sid@),
        post.receipts@ == pre.receipts@.push(rcpt),
        index_extended(pre.receipt_per_owner@, post.receipt_per_owner@, c, sid),
        post.services@.len() == pre.services@.len(),
        post.service_serial == pre.service_serial,
    ensures
        post.wf(),
{
    let prer = pre.receipts@;
    let postr = post.receipts@;
    let pree = pre.receipt_per_owner@;
    let poste = post.receipt_per_owner@;
    assert forall|i: int, j: int|
        0 <= i < j < postr.len() implies postr[i].stream_id@ != postr[j].stream_id@ by {
        if j == prer.len() as int {
            assert(postr[i] == prer[i]);
            assert(prer[i].stream_id@ != sid@);
        } else {
            assert(postr[i] == prer[i] && postr[j] == prer[j]);
        }
    }
    assert(services_referenced(postr, post.services@.len() as int));
    if has_owner_entry(pree, c@) {
        let e = owner_entry_index(pree, c@);
        assert(0 <= e < pree.len() && pree[e].owner@ == c@);
        assert forall|x: int| 0 <= x < poste.len() implies (#[trigger] poste[x]).owner@
            == pree[x].owner@ by {
            if x != e {
                assert(poste[x] == pree[x]);
            }
        }
        assert(owners_unique(poste));
        assert forall|x: int| 0 <= x < poste.len() implies entry_wf(
            #[trigger] poste[x],
            postr,
        ) by {
            assert(entry_wf(pree[x], prer));
            if x != e {
                assert(poste[x] == pree[x]);
                lemma_entry_wf_push(pree[x], prer, rcpt);
            } else {
                let ids0 = pree[e].receipt_ids@;
                let ids1 = poste[e].receipt_ids@;
                assert(ids1 == ids0.push(sid));
                // the fresh id differs from every indexed id, which all resolve
                assert forall|k: int| 0 <= k < ids0.len() implies (#[trigger] ids0[k])@
                    != sid@ by {
                    assert(resolves_to(prer, ids0[k]@, pree[e].owner@));
                    let w = choose|w: int|
                        0 <= w < prer.len() && (#[trigger] prer[w]).stream_id@ == ids0[k]@
                            && prer[w].owner@ == pree[e].owner@;
                    assert(prer[w].stream_id@ == ids0[k]@);
                    assert(has_stream(prer, prer[w].stream_id@));
                }
                assert forall|k: int, l: int|
                    0 <= k < l < ids1.len() implies ids1[k]@ != ids1[l]@ by {
                    if l == ids0.len() as int {
                        assert(ids1[k]@ == ids0[k]@);
                    }
                }
                assert forall|k: int| 0 <= k < ids1.len() implies resolves_to(
                    postr,
                    (#[trigger] ids1[k])@,
                    poste[e].owner@,
                ) by {
                    if k < ids0.len() {
                        assert(resolves_to(prer, ids0[k]@, pree[e].owner@));
                        let w = choose|w: int|
                            0 <= w < prer.len() && (#[trigger] prer[w]).stream_id@ == ids0[k]@
                                && prer[w].owner@ == pree[e].owner@;
                        assert(postr[w] == prer[w]);
                    } else {
                        assert(ids1[k]@ == sid@);
                        assert(postr[prer.len() as int] == rcpt);
                    }
                }
                assert(entry_wf(poste[e], postr));
            }
        }
    } else {
        let n = pree.len() as int;
        assert forall|i: int, j: int|
            0 <= i < j < poste.len() implies poste[i].owner@ != poste[j].owner@ by {
            if j == n {
                assert(poste[i] == pree[i]);
                assert(poste[j].owner@ == c@);
                assert(!has_owner_entry(pree, c@));
                assert(pree[i].owner@ != c@);
            } else {
                assert(poste[i] == pree[i] && poste[j] == pree[j]);
            }
        }
        assert forall|x: int| 0 <= x < poste.len() implies entry_wf(
            #[trigger] poste[x],
            postr,
        ) by {
            if x < n {
                assert(poste[x] == pree[x]);
                assert(entry_wf(pree[x], prer));
                lemma_entry_wf_push(pree[x], prer, rcpt);
            } else {
                assert(poste[x].receipt_ids@ == seq![sid]);
                assert(postr[prer.len() as int] == rcpt);
                assert(resolves_to(postr, sid@, c@));
                assert(entry_wf(poste[x], postr));
            }
        }
    }
}

/// How closing updates a receipt: the first close stamps the current time; a
/// re-close leaves the original stamp in place.
pub open spec fn spec_close(rec: RentalReceipt, now: u64) -> RentalReceipt {
    if rec.stopped_at is None {
        RentalReceipt { stopped_at: Some(now), ..rec }
    } else {
        rec
    }
}

/// Replacing one receipt by a version with the same stream id, owner and
/// service reference keeps the ledger well-formed.
proof fn lemma_update_receipt_wf(pre: Contract, post: Contract, i: int)
    requires
        pre.wf(),
        0 <= i < pre.receipts@.len(),
        post.receipts@.len() == pre.receipts@.len(),
        forall|j: int|
            0 <= j < pre.receipts@.len() && j != i ==> post.receipts@[j] == pre.receipts@[j],
        post.receipts@[i].stream_id@ == pre.receipts@[i].stream_id@,
        post.receipts@[i].owner@ == pre.receipts@[i].owner@,
        post.receipts@[i].service == pre.receipts@[i].service,
        post.receipt_per_owner@ == pre.receipt_per_owner@,
        post.services@.len() == pre.services@.len(),
        post.service_serial == pre.service_serial,
    ensures
        post.wf(),
{
    let prer = pre.receipts@;
    let postr = post.receipts@;
    assert forall|j: int| 0 <= j < prer.len() implies (#[trigger] postr[j]).stream_id@
        == prer[j].stream_id@ && postr[j].owner@ == prer[j].owner@ && postr[j].service
        == prer[j].service by {
        if j != i {
            assert(postr[j] == prer[j]);
        }
    }
    assert(stream_ids_unique(postr));
    assert(services_referenced(postr, post.services@.len() as int));
    assert forall|x: int| 0 <= x < post.receipt_per_owner@.len() implies entry_wf(
        #[trigger] post.receipt_per_owner@[x],
        postr,
    ) by {
        let entry = post.receipt_per_owner@[x];
        assert(entry_wf(entry, prer));
        assert forall|k: int| 0 <= k < entry.receipt_ids@.len() implies resolves_to(
            postr,
            (#[trigger] entry.receipt_ids@[k])@,
            entry.owner@,
        ) by {
            assert(resolves_to(prer, entry.receipt_ids@[k]@, entry.owner@));
            let w = choose|w: int|
                0 <= w < prer.len() && (#[trigger] prer[w]).stream_id@ == entry.receipt_ids@[k]@
                    && prer[w].owner@ == entry.owner@;
            assert(postr[w].stream_id@ == prer[w].stream_id@ && postr[w].owner@
                == prer[w].owner@);
        }
    }
}

/// An index entry that is coherent against a ledger stays coherent when a
/// receipt is appended to the ledger.
proof fn lemma_entry_wf_push(entry: OwnerEntry, receipts: Seq<RentalReceipt>, rcpt: RentalReceipt)
    requires
        entry_wf(entry, receipts),
    ensures
        entry_wf(entry, receipts.push(rcpt)),
{
    let post = receipts.push(rcpt);
    assert forall|k: int| 0 <= k < entry.receipt_ids@.len() implies resolves_to(
        post,
        (#[trigger] entry.receipt_ids@[k])@,
        entry.owner@,
    ) by {
        assert(resolves_to(receipts, entry.receipt_ids@[k]@, entry.owner@));
        let w = choose|w: int|
            0 <= w < receipts.len() && (#[trigger] receipts[w]).stream_id@
                == entry.receipt_ids@[k]@ && receipts[w].owner@ == entry.owner@;
        assert(post[w] == receipts[w]);
    }
}

impl Contract {
    /// Position of the receipt with this stream id, if the ledger holds one.
    fn find_receipt(&self, stream_id: &String) -> (r: Option<usize>)
        ensures
            r matches Some(i) ==> i < self.receipts@.len()
                && self.receipts@[i as int].stream_id@ == stream_id@,
            r is None ==> !has_stream(self.receipts@, stream_id@),
            r is Some <==> has_stream(self.receipts@, stream_id@),
    {
        let n = self.receipts.len();
        let mut i: usize = 0;
        while i < n
            invariant
                n == self.receipts@.len(),
                i <= n,
                forall|j: int| 0 <= j < i ==> (#[trigger] self.receipts@[j]).stream_id@ != stream_id@,
            decreases n - i,
        {
            if self.receipts[i].stream_id == *stream_id {
                return Some(i);
            }
            i = i + 1;
        }
        None
    }

    /// Position of this principal's index entry, if it has one.
    fn find_owner_entry(&self, owner: &String) -> (r: Option<usize>)
        ensures
            r matches Some(i) ==> i < self.receipt_per_owner@.len()
                && self.receipt_per_owner@[i as int].owner@ == owner@,
            r is None ==> !has_owner_entry(self.receipt_per_owner@, owner@),
            r is Some <==> has_owner_entry(self.receipt_per_owner@, owner@),
    {
        let n = self.receipt_per_owner.len();
        let mut i: usize = 0;
        while i < n
            invariant
                n == self.receipt_per_owner@.len(),
                i <= n,
                forall|j: int|
                    0 <= j < i ==> (#[trigger] self.receipt_per_owner@[j]).owner@ != owner@,
            decreases n - i,
        {
            if self.receipt_per_owner[i].owner == *owner {
                return Some(i);
            }
            i = i + 1;
        }
        None
    }

    /// Adds `receipt_id` to `account_id`'s index set, creating and registering
    /// the set — under its hashed namespace — on the owner's first receipt.
    pub(crate) fn internal_add_receipt_to_owner(&mut self, account_id: &String, receipt_id: String)
        requires
            owners_unique(old(self).receipt_per_owner@),
        ensures
            index_extended(
                old(self).receipt_per_owner@,
                final(self).receipt_per_owner@,
                *account_id,
                receipt_id,
            ),
            final(self).owner_id == old(self).owner_id,
            final(self).services == old(self).services,
            final(self).receipts == old(self).receipts,
            final(self).service_serial == old(self).service_serial,
    {
        match self.find_owner_entry(account_id) {
            Some(e) => {
                let ghost pre = self.receipt_per_owner@;
                let mut entry = self.receipt_per_owner.remove(e);
                entry.receipt_ids.push(receipt_id);
                self.receipt_per_owner.insert(e, entry);
                proof {
                    let post = self.receipt_per_owner@;
                    let ei = owner_entry_index(pre, account_id@);
                    assert(pre[e as int].owner@ == account_id@);
                    assert(has_owner_entry(pre, account_id@));
                    assert(0 <= ei < pre.len() && pre[ei].owner@ == account_id@);
                    assert(ei == e as int);
                    assert(forall|j: int|
                        0 <= j < pre.len() && j != e as int ==> post[j] == pre[j]);
                }
            },
            None => {
                let hash = hash_account_id(account_id);
                let namespace = key_bytes(
                    &StorageKeys::ReceiptPerOwnerInner { account_id_hash: hash },
                );
                let mut ids: Vec<String> = Vec::new();
                ids.push(receipt_id);
                self.receipt_per_owner.push(
                    OwnerEntry { owner: account_id.clone(), namespace, receipt_ids: ids },
                );
                proof {
                    let pre = old(self).receipt_per_owner@;
                    let post = self.receipt_per_owner@;
                    assert(post[pre.len() as int].receipt_ids@ =~= seq![receipt_id]);
                    assert(post[pre.len() as int].namespace@ == spec_owner_namespace(
                        account_id@,
                    ));
                }
            },
        }
    }

    /// Records the caller's occupancy of a service under a fresh stream id and
    /// indexes it for the caller. The attachment must cover the marginal storage
    /// cost of everything written plus the service's configured deposit; any
    /// excess is scheduled back to the caller.
    pub fn create_receipt(
        &mut self,
        caller: String,
        attached: u128,
        now: u64,
        service_id: u64,
        stream_id: String,
    ) -> (r: Result<Option<Transfer>, Error>)
        requires
            old(self).wf(),
        ensures
            final(self).wf(),
            !old(self).spec_has_service(service_id) ==> {
                &&& r == Err::<Option<Transfer>, Error>(Error::NotFound)
                &&& *final(self) == *old(self)
            },
            old(self).spec_has_service(service_id) && has_stream(old(self).receipts@, stream_id@)
                ==> {
                &&& r == Err::<Option<Transfer>, Error>(Error::Conflict)
                &&& *final(self) == *old(self)
            },
            ({
                let first = !has_owner_entry(old(self).receipt_per_owner@, caller@);
                let required = spec_storage_cost(spec_receipt_bytes(stream_id@, caller@, first))
                    + old(self).spec_service(service_id).deposit;
                &&& (old(self).spec_has_service(service_id) && !has_stream(
                    old(self).receipts@,
                    stream_id@,
                ) && attached < required ==> {
                    &&& r == Err::<Option<Transfer>, Error>(Error::InsufficientPayment)
                    &&& *final(self) == *old(self)
                })
                &&& (old(self).spec_has_service(service_id) && !has_stream(
                    old(self).receipts@,
                    stream_id@,
                ) && attached >= required ==> (r matches Ok(refund) && {
                    &&& reconcile_ok(refund, attached, required, caller@)
                    &&& final(self).receipts@ == old(self).receipts@.push((RentalReceipt {
                        service: service_id,
                        owner: caller,
                        stream_id: stream_id,
                        stopped_at: None,
                        created_at: now,
                        refunded: false,
                    }))
                    &&& index_extended(
                        old(self).receipt_per_owner@,
                        final(self).receipt_per_owner@,
                        caller,
                        stream_id,
                    )
                    &&& final(self).services == old(self).services
                    &&& final(self).owner_id == old(self).owner_id
                    &&& final(self).service_serial == old(self).service_serial
                }))
            }),
    {
        // constraints are checked before any mutation
        if !(1 <= service_id && service_id <= (self.services.len() as u64)) {
            return Err(Error::NotFound);
        }
        if self.find_receipt(&stream_id).is_some() {
            return Err(Error::Conflict);
        }
        let first = self.find_owner_entry(&caller).is_none();
        let bytes = receipt_record_bytes(&stream_id, &caller, first);
        let deposit = self.services[(service_id - 1) as usize].deposit;
        let storage_part = match checked_storage_cost(bytes) {
            Some(c) => c,
            None => {
                // the storage cost alone exceeds anything the caller could attach
                return Err(Error::InsufficientPayment);
            },
        };
        let required = match storage_part.checked_add(deposit) {
            Some(c) => c,
            None => {
                return Err(Error::InsufficientPayment);
            },
        };
        let refund = match reconcile_deposit(attached, required, &caller) {
            Ok(t) => t,
            Err(e) => {
                return Err(e);
            },
        };
        let receipt = RentalReceipt {
            service: service_id,
            owner: caller.clone(),
            stream_id: stream_id.clone(),
            stopped_at: None,
            created_at: now,
            refunded: false,
        };
        let ghost pre = *self;
        let ghost rcpt_g = receipt;
        let ghost sid_g = stream_id;
        let ghost caller_g = caller;
        self.receipts.push(receipt);
        self.internal_add_receipt_to_owner(&caller, stream_id);
        proof {
            lemma_create_receipt_wf(pre, *self, caller_g, sid_g, rcpt_g);
        }
        Ok(refund)
    }

    /// Soft-stops a receipt: only the owner of the receipt's service may close
    /// it. The first close stamps the current time; a re-close is a no-op.
    pub fn close_receipt(&mut self, caller: String, now: u64, receipt_id: String) -> (r: Result<
        (),
        Error,
    >)
        requires
            old(self).wf(),
        ensures
            final(self).wf(),
            !has_stream(old(self).receipts@, receipt_id@) ==> {
                &&& r == Err::<(), Error>(Error::NotFound)
                &&& *final(self) == *old(self)
            },
            ({
                let i = stream_index(old(self).receipts@, receipt_id@);
                let svc = old(self).spec_service(old(self).receipts@[i].service);
                &&& (has_stream(old(self).receipts@, receipt_id@) && caller@ != svc.owner@ ==> {
                    &&& r == Err::<(), Error>(Error::Unauthorized)
                    &&& *final(self) == *old(self)
                })
                &&& (has_stream(old(self).receipts@, receipt_id@) && caller@ == svc.owner@ ==> {
                    &&& r == Ok::<(), Error>(())
                    &&& final(self).receipts@ == old(self).receipts@.update(
                        i,
                        spec_close(old(self).receipts@[i], now),
                    )
                    &&& final(self).services == old(self).services
                    &&& final(self).receipt_per_owner == old(self).receipt_per_owner
                    &&& final(self).owner_id == old(self).owner_id
                    &&& final(self).service_serial == old(self).service_serial
                })
            }),
    {
        let i = match self.find_receipt(&receipt_id) {
            Some(i) => i,
            None => {
                return Err(Error::NotFound);
            },
        };
        proof {
            let w = stream_index(self.receipts@, receipt_id@);
            assert(self.receipts@[w].stream_id@ == receipt_id@);
            assert(w == i as int);
            assert(1 <= self.receipts@[i as int].service <= self.services@.len());
            assert(self.services.len() == self.services@.len());
        }
        let service_id = self.receipts[i].service;
        let authorized = self.services[(service_id - 1) as usize].owner == caller;
        if !authorized {
            return Err(Error::Unauthorized);
        }
        let ghost pre = *self;
        let mut rec = self.receipts.remove(i);
        if rec.stopped_at.is_none() {
            rec.stopped_at = Some(now);
        }
        self.receipts.insert(i, rec);
        proof {
            assert(self.receipts@ =~= pre.receipts@.update(
                i as int,
                spec_close(pre.receipts@[i as int], now),
            ));
            lemma_update_receipt_wf(pre, *self, i as int);
        }
        Ok(())
    }

    /// Triggers the one-shot return of the service's deposit to the renter. The
    /// caller must attach exactly the minimal authorization amount — scheduled
    /// back in full — and must own the receipt's service; a receipt whose
    /// deposit was already returned refuses a second payout.
    pub fn refund_receipt_deposit(
        &mut self,
        caller: String,
        attached: u128,
        receipt_id: String,
    ) -> (r: Result<(Transfer, Transfer), Error>)
        requires
            old(self).wf(),
        ensures
            final(self).wf(),
            attached != AUTH_AMOUNT ==> {
                &&& r == Err::<(Transfer, Transfer), Error>(Error::InsufficientPayment)
                &&& *final(self) == *old(self)
            },
            attached == AUTH_AMOUNT && !has_stream(old(self).receipts@, receipt_id@) ==> {
                &&& r == Err::<(Transfer, Transfer), Error>(Error::NotFound)
                &&& *final(self) == *old(self)
            },
            ({
                let i = stream_index(old(self).receipts@, receipt_id@);
                let rec = old(self).receipts@[i];
                let svc = old(self).spec_service(rec.service);
                &&& (attached == AUTH_AMOUNT && has_stream(old(self).receipts@, receipt_id@)
                    && caller@ != svc.owner@ ==> {
                    &&& r == Err::<(Transfer, Transfer), Error>(Error::Unauthorized)
                    &&& *final(self) == *old(self)
                })
                &&& (attached == AUTH_AMOUNT && has_stream(old(self).receipts@, receipt_id@)
                    && caller@ == svc.owner@ && rec.refunded ==> {
                    &&& r == Err::<(Transfer, Transfer), Error>(Error::Conflict)
                    &&& *final(self) == *old(self)
                })
                &&& (attached == AUTH_AMOUNT && has_stream(old(self).receipts@, receipt_id@)
                    && caller@ == svc.owner@ && !rec.refunded ==> (r matches Ok(pair) && {
                    &&& pair.0.to@ == rec.owner@
                    &&& pair.0.amount == svc.deposit
                    &&& pair.1.to@ == caller@
                    &&& pair.1.amount == AUTH_AMOUNT
                    &&& final(self).receipts@ == old(self).receipts@.update(
                        i,
                        (RentalReceipt { refunded: true, ..rec }),
                    )
                    &&& final(self).services == old(self).services
                    &&& final(self).receipt_per_owner == old(self).receipt_per_owner
                    &&& final(self).owner_id == old(self).owner_id
                    &&& final(self).service_serial == old(self).service_serial
                }))
            }),
    {
        if attached != AUTH_AMOUNT {
            return Err(Error::InsufficientPayment);
        }
        let i = match self.find_receipt(&receipt_id) {
            Some(i) => i,
            None => {
                return Err(Error::NotFound);
            },
        };
        proof {
            let w = stream_index(self.receipts@, receipt_id@);
            assert(self.receipts@[w].stream_id@ == receipt_id@);
            assert(w == i as int);
            assert(1 <= self.receipts@[i as int].service <= self.services@.len());
            assert(self.services.len() == self.services@.len());
        }
        let service_id = self.receipts[i].service;
        let deposit_value = self.services[(service_id - 1) as usize].deposit;
        let authorized = self.services[(service_id - 1) as usize].owner == caller;
        if !authorized {
            return Err(Error::Unauthorized);
        }
        if self.receipts[i].refunded {
            return Err(Error::Conflict);
        }
        let deposit_transfer = Transfer { to: self.receipts[i].owner.clone(), amount: deposit_value };
        let auth_refund = Transfer { to: caller, amount: AUTH_AMOUNT };
        let ghost pre = *self;
        let mut rec = self.receipts.remove(i);
        rec.refunded = true;
        self.receipts.insert(i, rec);
        proof {
            assert(self.receipts@ =~= pre.receipts@.update(
                i as int,
                (RentalReceipt { refunded: true, ..pre.receipts@[i as int] }),
            ));
            lemma_update_receipt_wf(pre, *self, i as int);
        }
        Ok((deposit_transfer, auth_refund))
    }

    /// Paginated owner-scoped lookup: resolves this principal's indexed stream
    /// ids in index order, skipping `from_index` of them (0 when absent) and
    /// yielding at most `limit` (50 when absent). A principal that never created
    /// a receipt gets an empty sequence, not a failure.
    pub fn receipts_for_owner(
        &self,
        account_id: String,
        from_index: Option<u128>,
        limit: Option<u64>,
    ) -> (r: Vec<RentalReceipt>)
        requires
            self.wf(),
        ensures
            !has_owner_entry(self.receipt_per_owner@, account_id@) ==> r@.len() == 0,
            has_owner_entry(self.receipt_per_owner@, account_id@) ==> ({
                let ids = self.receipt_per_owner@[owner_entry_index(
                    self.receipt_per_owner@,
                    account_id@,
                )].receipt_ids@;
                let start = spec_offset(from_index);
                let lim = spec_page_limit(limit);
                let count = if start > ids.len() {
                    0
                } else if lim > ids.len() - start {
                    ids.len() - start
                } else {
                    lim
                };
                &&& r@.len() == count
                &&& forall|k: int|
                    0 <= k < count ==> r@[k] == spec_receipt_at(
                        self.receipts@,
                        ids[start + k]@,
                    )
            }),
    {
        let e = match self.find_owner_entry(&account_id) {
            Some(e) => e,
            None => {
                let r: Vec<RentalReceipt> = Vec::new();
                return r;
            },
        };
        proof {
            let w = owner_entry_index(self.receipt_per_owner@, account_id@);
            assert(self.receipt_per_owner@[w].owner@ == account_id@);
            assert(w == e as int);
        }
        let start_wide: u128 = match from_index {
            Some(x) => x,
            None => 0,
        };
        let lim: u64 = match limit {
            Some(l) => l,
            None => 50,
        };
        let mut r: Vec<RentalReceipt> = Vec::new();
        let n = self.receipt_per_owner[e].receipt_ids.len();
        if start_wide >= (n as u128) {
            return r;
        }
        let start = start_wide as usize;
        let avail = n - start;
        let mut k: usize = 0;
        while k < avail && (k as u64) < lim
            invariant
                self.wf(),
                e < self.receipt_per_owner@.len(),
                e as int == owner_entry_index(self.receipt_per_owner@, account_id@),
                n == self.receipt_per_owner@[e as int].receipt_ids@.len(),
                n <= usize::MAX,
                start + avail == n,
                start < n,
                k <= avail,
                k <= lim,
                r@.len() == k,
                forall|j: int|
                    0 <= j < k ==> r@[j] == spec_receipt_at(
                        self.receipts@,
                        self.receipt_per_owner@[e as int].receipt_ids@[start + j]@,
                    ),
            decreases avail - k,
        {
            let id = &self.receipt_per_owner[e].receipt_ids[start + k];
            proof {
                assert(entry_wf(self.receipt_per_owner@[e as int], self.receipts@));
                assert(resolves_to(
                    self.receipts@,
                    self.receipt_per_owner@[e as int].receipt_ids@[(start + k) as int]@,
                    self.receipt_per_owner@[e as int].owner@,
                ));
            }
            let ridx = match self.find_receipt(id) {
                Some(x) => x,
                None => {
                    proof {
                        let w = choose|w: int|
                            0 <= w < self.receipts@.len() && (#[trigger] self.receipts@[w]).stream_id@
                                == id@ && self.receipts@[w].owner@
                                == self.receipt_per_owner@[e as int].owner@;
                        assert(has_stream(self.receipts@, id@));
                        assert(false);
                    }
                    0
                },
            };
            r.push(self.receipts[ridx].clone());
            proof {
                let w = stream_index(self.receipts@, id@);
                assert(self.receipts@[w].stream_id@ == id@);
                assert(w == ridx as int);
            }
            k = k + 1;
        }
        r
    }

    /// Reads one receipt by its stream id.
    pub fn get_receipt(&self, receipt_id: String) -> (r: Option<RentalReceipt>)
        requires
            self.wf(),
        ensures
            r is Some <==> has_stream(self.receipts@, receipt_id@),
            r matches Some(rec) ==> rec == spec_receipt_at(self.receipts@, receipt_id@),
    {
        match self.find_receipt(&receipt_id) {
            Some(i) => {
                let rec = self.receipts[i].clone();
                proof {
                    let w = stream_index(self.receipts@, receipt_id@);
                    assert(self.receipts@[w].stream_id@ == receipt_id@);
                    assert(w == i as int);
                }
                Some(rec)
            },
            None => None,
        }
    }
}

/// Law: the owner index and the ledger never diverge — every stream id in a
/// principal's index entry resolves through the ledger to a receipt created by
/// that principal, the very receipt a lookup by that id returns.
pub proof fn lemma_owner_index_resolves(c: Contract, o: int, k: int)
    requires
        c.wf(),
        0 <= o < c.receipt_per_owner@.len(),
        0 <= k < c.receipt_per_owner@[o].receipt_ids@.len(),
    ensures
        has_stream(c.receipts@, c.receipt_per_owner@[o].receipt_ids@[k]@),
        spec_receipt_at(c.receipts@, c.receipt_per_owner@[o].receipt_ids@[k]@).stream_id@
            == c.receipt_per_owner@[o].receipt_ids@[k]@,
        spec_receipt_at(c.receipts@, c.receipt_per_owner@[o].receipt_ids@[k]@).owner@
            == c.receipt_per_owner@[o].owner@,
{
    let id = c.receipt_per_owner@[o].receipt_ids@[k]@;
    assert(entry_wf(c.receipt_per_owner@[o], c.receipts@));
    assert(resolves_to(c.receipts@, id, c.receipt_per_owner@[o].owner@));
    let w = choose|w: int|
        0 <= w < c.receipts@.len() && (#[trigger] c.receipts@[w]).stream_id@ == id
            && c.receipts@[w].owner@ == c.receipt_per_owner@[o].owner@;
    assert(has_stream(c.receipts@, id));
    let s = stream_index(c.receipts@, id);
    assert(c.receipts@[s].stream_id@ == id);
    assert(s == w);
}

/// Law: once a receipt is created under a stream id, that id is taken for the
/// lifetime of the ledger — a later creation with the same id meets the
/// conflict condition of `create_receipt`, which then fails with `Conflict`
/// and leaves the ledger unchanged.
pub proof fn lemma_stream_id_taken_after_create(receipts: Seq<RentalReceipt>, rcpt: RentalReceipt)
    ensures
        has_stream(receipts.push(rcpt), rcpt.stream_id@),
{
    assert(receipts.push(rcpt)[receipts.len() as int] == rcpt);
}

/// Law: a receipt closed by the service owner carries a stop timestamp that is
/// set and no earlier than the receipt's creation time, provided the clock has
/// not run backwards past that creation.
pub proof fn lemma_close_stamps_after_creation(rec: RentalReceipt, now: u64)
    requires
        rec.stopped_at is None,
        rec.created_at <= now,
    ensures
        spec_close(rec, now).stopped_at == Some(now),
        spec_close(rec, now).created_at <= now,
{
}

/// Law: `stopped_at` transitions at most once — closing an already-closed
/// receipt leaves the original stamp in place.
pub proof fn lemma_close_idempotent(rec: RentalReceipt, t1: u64, t2: u64)
    ensures
        spec_close(spec_close(rec, t1), t2) == spec_close(rec, t1),
{
}

} // verus!

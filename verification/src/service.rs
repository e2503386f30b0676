//! The service registry: listings keyed by a monotonically increasing numeric
//! id, with create and paginated read.

use vstd::prelude::*;
use crate::internal::{
    checked_storage_cost, reconcile_deposit, reconcile_ok, service_record_bytes, spec_offset,
    spec_page_limit, spec_service_bytes, spec_storage_cost, Transfer,
};
use crate::{Contract, Error};

verus! {

/// A listed rentable offering. Immutable once created; identified by the id the
/// registry assigned at creation.
#[derive(Debug, PartialEq)]
pub struct Service {
    pub title: String,
    pub description: String,
    pub owner: String,
    pub price_per_day: u128,
    pub deposit: u128,
}

impl Clone for Service {
    fn clone(&self) -> (r: Self)
        ensures
            r == *self,
    {
        Service {
            title: self.title.clone(),
            description: self.description.clone(),
            owner: self.owner.clone(),
            price_per_day: self.price_per_day,
            deposit: self.deposit,
        }
    }
}

/// The window a paginated registry read returns: the services at positions
/// `start` up to `start + lim`, each paired with its id.
pub open spec fn list_window(c: Contract, start: int, lim: int) -> Seq<(u64, Service)> {
    let len = c.services@.len() as int;
    let count = if start > len || lim < 0 {
        0
    } else if lim > len - start {
        len - start
    } else {
        lim
    };
    Seq::new(count as nat, |k: int| (((start + k + 1) as u64), c.services@[start + k]))
}

impl Contract {
    /// Lists a new service owned by the caller. The attachment must cover the
    /// marginal storage cost of the record (services require no further deposit);
    /// any excess is scheduled back to the caller. Returns the assigned id.
    pub fn create_service(
        &mut self,
        caller: String,
        attached: u128,
        title: String,
        description: String,
        price_per_day: u128,
        deposit: u128,
    ) -> (r: Result<(u64, Option<Transfer>), Error>)
        requires
            old(self).wf(),
            old(self).service_serial < u64::MAX,
        ensures
            final(self).wf(),
            ({
                let required = spec_storage_cost(spec_service_bytes(title@, description@, caller@));
                &&& (attached < required ==> {
                    &&& r == Err::<(u64, Option<Transfer>), Error>(Error::InsufficientPayment)
                    &&& *final(self) == *old(self)
                })
                &&& (attached >= required ==> (r matches Ok(pair) && {
                    &&& pair.0 == old(self).service_serial + 1
                    &&& final(self).service_serial == old(self).service_serial + 1
                    &&& final(self).services@ == old(self).services@.push((Service {
                        title: title,
                        description: description,
                        owner: caller,
                        price_per_day: price_per_day,
                        deposit: deposit,
                    }))
                    &&& final(self).receipts == old(self).receipts
                    &&& final(self).receipt_per_owner == old(self).receipt_per_owner
                    &&& final(self).owner_id == old(self).owner_id
                    &&& reconcile_ok(pair.1, attached, required, caller@)
                }))
            }),
    {
        let bytes = service_record_bytes(&title, &description, &caller);
        let refund = match checked_storage_cost(bytes) {
            Some(required) => match reconcile_deposit(attached, required, &caller) {
                Ok(t) => t,
                Err(e) => {
                    return Err(e);
                },
            },
            None => {
                // the cost alone exceeds anything the caller could have attached
                return Err(Error::InsufficientPayment);
            },
        };
        let service = Service { title, description, owner: caller, price_per_day, deposit };
        self.service_serial = self.service_serial + 1;
        self.services.push(service);
        Ok((self.service_serial, refund))
    }

    /// Reads one service by its id.
    pub fn get_service(&self, service_id: u64) -> (r: Option<Service>)
        ensures
            r is Some <==> self.spec_has_service(service_id),
            r matches Some(s) ==> s == self.spec_service(service_id),
    {
        if 1 <= service_id && service_id <= (self.services.len() as u64) {
            Some(self.services[(service_id - 1) as usize].clone())
        } else {
            None
        }
    }

    /// Paginated read over the registry in id order: skips `from_index` entries
    /// (0 when absent) and yields at most `limit` entries (50 when absent).
    pub fn get_services(&self, from_index: Option<u128>, limit: Option<u64>) -> (r: Vec<
        (u64, Service),
    >)
        ensures
            r@ == list_window(*self, spec_offset(from_index), spec_page_limit(limit)),
    {
        let start_wide: u128 = match from_index {
            Some(x) => x,
            None => 0,
        };
        let lim: u64 = match limit {
            Some(l) => l,
            None => 50,
        };
        let len = self.services.len();
        let mut r: Vec<(u64, Service)> = Vec::new();
        if start_wide >= (len as u128) {
            proof {
                assert(r@ =~= list_window(*self, spec_offset(from_index), spec_page_limit(limit)));
            }
            return r;
        }
        let start = start_wide as usize;
        let avail = len - start;
        let mut k: usize = 0;
        while k < avail && (k as u64) < lim
            invariant
                self.services@.len() <= usize::MAX,
                start + avail == self.services@.len(),
                start < self.services@.len(),
                k <= avail,
                k <= lim,
                r@ =~= Seq::new(
                    k as nat,
                    |j: int| (((start + j + 1) as u64), self.services@[start + j]),
                ),
            decreases avail - k,
        {
            let id = ((start + k) as u64) + 1;
            r.push((id, self.services[start + k].clone()));
            k = k + 1;
            proof {
                assert(r@ =~= Seq::new(
                    k as nat,
                    |j: int| (((start + j + 1) as u64), self.services@[start + j]),
                ));
            }
        }
        proof {
            assert(r@ =~= list_window(*self, spec_offset(from_index), spec_page_limit(limit)));
        }
        r
    }
}

/// Law: in a well-formed ledger the assigned service ids are exactly the
/// registry positions shifted by one — strictly increasing, starting at 1,
/// with no gaps and no repeats.
pub proof fn lemma_service_ids_strictly_increasing(c: Contract, i: int, j: int)
    requires
        c.wf(),
        0 <= i < j < c.services@.len(),
    ensures
        c.service_id_at(i) == i + 1,
        c.service_id_at(i) < c.service_id_at(j),
{
}

/// Law: two successive pagination windows neither overlap nor omit — reading
/// `n` entries from the start and then `m` entries from position `n` yields
/// exactly the first `n + m` entries, and the two windows share no id.
pub proof fn lemma_pagination_disjoint_cover(c: Contract, n: int, m: int)
    requires
        0 <= n,
        0 <= m,
    ensures
        list_window(c, 0, n) + list_window(c, n, m) == list_window(c, 0, n + m),
        forall|a: int, b: int|
            0 <= a < list_window(c, 0, n).len() && 0 <= b < list_window(c, n, m).len()
                ==> list_window(c, 0, n)[a].0 != list_window(c, n, m)[b].0,
{
    assert(list_window(c, 0, n) + list_window(c, n, m) =~= list_window(c, 0, n + m));
    let len = c.services@.len() as int;
    assert(c.services.len() == c.services@.len());
    assert forall|a: int, b: int|
        0 <= a < list_window(c, 0, n).len() && 0 <= b < list_window(c, n, m).len() implies list_window(
        c,
        0,
        n,
    )[a].0 != list_window(c, n, m)[b].0 by {
        assert(list_window(c, 0, n)[a].0 == (a + 1) as u64);
        assert(list_window(c, n, m)[b].0 == (n + b + 1) as u64);
        assert(a + 1 <= len);
        assert(n + b + 1 <= len);
    }
}

} // verus!

//! Surface-id leases: a module's small integer surface ids and the host
//! handles they stand for.
//!
//! Each module gets its own table.  `unique` leases the next counter value
//! (starting at 1) and records the two-way mapping to a host-side surface
//! handle; 0 is never leased, it is the "no id" and exhaustion sentinel.
//! A revoked id is never reissued: a stale callback can then never name a
//! new, unrelated surface by accident.

use vstd::prelude::*;

use std::collections::HashMap;

verus! {

broadcast use vstd::std_specs::hash::group_hash_axioms;

/// What kind of resource a module asks an id for.
#[derive(Debug, Clone, Copy, PartialEq, Eq, Structural)]
pub enum IdType {
    NoId,
    LayerSurface,
}

impl IdType {
    /// Decodes the id-type discriminant a guest passes across the
    /// boundary; unknown values are rejected.
    pub fn from_code(value: u32) -> (r: Option<IdType>)
        ensures
            r == (if value == 0 {
                Some(IdType::NoId)
            } else if value == 1 {
                Some(IdType::LayerSurface)
            } else {
                None::<IdType>
            }),
    {
        if value == 0 {
            Some(IdType::NoId)
        } else if value == 1 {
            Some(IdType::LayerSurface)
        } else {
            None
        }
    }
}

/// One module's surface-id lease table.
#[derive(Debug)]
pub struct WasmId {
    /// Next id to lease; only ever counts up.  Ids run from 1 to 254: once
    /// the counter reaches 255 the table is exhausted and leases return 0.
    current_id: u32,
    /// Currently leased ids, each mapped to its host surface handle.
    /// Revoked ids leave this map but are never leased again.
    leased_ids: HashMap<u32, u64>,
    /// The reverse lookup, host surface handle back to the module-local id.
    host_id_lut: HashMap<u64, u32>,
}

impl WasmId {
    /// The lease counter.
    pub closed spec fn spec_current(self) -> u32 {
        self.current_id
    }

    /// The id-to-handle map.
    pub closed spec fn spec_leased(self) -> Map<u32, u64> {
        self.leased_ids@
    }

    /// The handle-to-id map.
    pub closed spec fn spec_lut(self) -> Map<u64, u32> {
        self.host_id_lut@
    }

    /// Table sanity: the counter stays in its lane, every leased id was
    /// issued (nonzero and below the counter), and the two maps mirror
    /// each other.
    pub closed spec fn wf(self) -> bool {
        &&& 1 <= self.current_id <= 255
        &&& forall|k: u32|
            self.leased_ids@.contains_key(k) ==> 1 <= k < self.spec_current()
        &&& forall|k: u32|
            #[trigger] self.leased_ids@.contains_key(k) ==> self.host_id_lut@.contains_key(
                self.leased_ids@[k],
            ) && self.host_id_lut@[self.leased_ids@[k]] == k
        &&& forall|v: u64|
            #[trigger] self.host_id_lut@.contains_key(v) ==> self.leased_ids@.contains_key(
                self.host_id_lut@[v],
            ) && self.leased_ids@[self.host_id_lut@[v]] == v
    }

    /// The id the next lease will return: the counter value, or the
    /// exhaustion sentinel 0 once the counter has reached its maximum.
    pub open spec fn next_lease_id(self) -> u32 {
        if self.spec_current() == 255 {
            0
        } else {
            self.spec_current()
        }
    }

    /// An empty table whose first lease returns 1.
    pub fn new() -> (r: WasmId)
        ensures
            r.wf(),
            r.spec_current() == 1,
            r.spec_leased() == Map::<u32, u64>::empty(),
            r.spec_lut() == Map::<u64, u32>::empty(),
    {
        WasmId { current_id: 1, leased_ids: HashMap::new(), host_id_lut: HashMap::new() }
    }

    /// Leases the next id and records its mapping to `host_handle`, a
    /// freshly minted host surface handle.  Returns 0, changing nothing,
    /// once the table is exhausted; an id, once handed out, is never
    /// handed out again.
    #[verifier::rlimit(100)]
pub fn unique(&mut self, host_handle: u64) -> (r: u32)
        requires
            old(self).wf(),
            !old(self).spec_lut().contains_key(host_handle),
        ensures
            final(self).wf(),
            r == old(self).next_lease_id(),
            r == 0 <==> old(self).spec_current() == 255,
            final(self).spec_current() >= old(self).spec_current(),
            r == 0 ==> *final(self) == *old(self),
            r != 0 ==> {
                &&& 1 <= r < final(self).spec_current()
                &&& final(self).spec_current() == old(self).spec_current() + 1
                &&& final(self).spec_leased() == old(self).spec_leased().insert(r, host_handle)
                &&& final(self).spec_lut() == old(self).spec_lut().insert(host_handle, r)
            },
    {
        if self.current_id == 0 {
            self.current_id = self.current_id + 1;
        } else if self.current_id == 255 {
            return 0;
        }
        let id = self.current_id;
        self.leased_ids.insert(id, host_handle);
        self.host_id_lut.insert(host_handle, id);
        self.current_id = self.current_id + 1;
        proof {
            assert forall|k: u32| #[trigger] self.leased_ids@.contains_key(k) implies
                self.host_id_lut@.contains_key(self.leased_ids@[k])
                && self.host_id_lut@[self.leased_ids@[k]] == k by {
                if k != id {
                    assert(old(self).leased_ids@.contains_key(k));
                    assert(old(self).leased_ids@[k] != host_handle);
                }
            }
            assert forall|v: u64| #[trigger] self.host_id_lut@.contains_key(v) implies
                self.leased_ids@.contains_key(self.host_id_lut@[v])
                && self.leased_ids@[self.host_id_lut@[v]] == v by {
                if v != host_handle {
                    assert(old(self).host_id_lut@.contains_key(v));
                }
            }
        }
        id
    }

    /// Whether `id` is currently leased.
    pub fn has_lease(&self, id: u32) -> (r: bool)
        ensures
            r == self.spec_leased().contains_key(id),
    {
        self.leased_ids.contains_key(&id)
    }

    /// Revokes a lease: the two-way mapping is dropped, but the id itself
    /// is spent for good — the counter does not move back, so the id can
    /// never be reissued.  Returns whether the id was leased.
    #[verifier::rlimit(100)]
pub fn drop_id(&mut self, id: u32) -> (r: bool)
        requires
            old(self).wf(),
        ensures
            final(self).wf(),
            r == old(self).spec_leased().contains_key(id),
            final(self).spec_current() == old(self).spec_current(),
            final(self).spec_leased() == old(self).spec_leased().remove(id),
            final(self).spec_lut() == (if old(self).spec_leased().contains_key(id) {
                old(self).spec_lut().remove(old(self).spec_leased()[id])
            } else {
                old(self).spec_lut()
            }),
    {
        let handle = match self.leased_ids.get(&id) {
            Some(h) => *h,
            None => {
                proof {
                    assert(self.leased_ids@.remove(id) =~= self.leased_ids@);
                }
                return false;
            }
        };
        self.leased_ids.remove(&id);
        self.host_id_lut.remove(&handle);
        proof {
            assert forall|k: u32| #[trigger] self.leased_ids@.contains_key(k) implies
                self.host_id_lut@.contains_key(self.leased_ids@[k])
                && self.host_id_lut@[self.leased_ids@[k]] == k by {
                assert(old(self).leased_ids@.contains_key(k));
                assert(old(self).leased_ids@[k] != handle);
            }
            assert forall|v: u64| #[trigger] self.host_id_lut@.contains_key(v) implies
                self.leased_ids@.contains_key(self.host_id_lut@[v])
                && self.leased_ids@[self.host_id_lut@[v]] == v by {
                assert(old(self).host_id_lut@.contains_key(v));
            }
        }
        true
    }

    /// The host surface handle a leased id maps to.
    pub fn get_host_id(&self, id: u32) -> (r: Option<u64>)
        ensures
            r == (if self.spec_leased().contains_key(id) {
                Some(self.spec_leased()[id])
            } else {
                None::<u64>
            }),
    {
        match self.leased_ids.get(&id) {
            Some(h) => Some(*h),
            None => None,
        }
    }

    /// The module-local id a host surface handle maps back to.
    pub fn get_id(&self, handle: u64) -> (r: Option<u32>)
        ensures
            r == (if self.spec_lut().contains_key(handle) {
                Some(self.spec_lut()[handle])
            } else {
                None::<u32>
            }),
    {
        match self.host_id_lut.get(&handle) {
            Some(id) => Some(*id),
            None => None,
        }
    }
}

/// Id leasing never repeats itself: once an id has been issued — whether it
/// is still leased or was revoked since — the next lease returns either a
/// strictly larger id or the exhaustion sentinel 0, never that id again.
/// Together with `unique`'s postcondition that the counter only grows and
/// `drop_id`'s that revocation leaves the counter alone, this holds of
/// every later lease, not just the next one.
pub proof fn lemma_lease_never_reissues(t: WasmId, id: u32)
    requires
        t.wf(),
        1 <= id < t.spec_current(),
    ensures
        t.next_lease_id() == 0 || t.next_lease_id() > id,
{
}

} // verus!

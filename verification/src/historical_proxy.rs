//! The historical proxy: it forwards a request about a slot to the light
//! client that serves that slot.
//!
//! Every endpoint serves the slots from its first slot on, up to the first
//! slot of the endpoint after it. Endpoints are added in the order of their
//! first slots, by the administrator alone.

use vstd::prelude::*;
use crate::beacon::hashes_equal;

verus! {

/// The endpoints of the proxy, in the order of their first slots.
#[derive(Debug)]
pub struct EndpointList {
    endpoints: Vec<(u64, [u8; 32])>,
}

/// Whether the first slots of `endpoints` grow strictly.
pub open spec fn slots_grow(endpoints: Seq<(u64, [u8; 32])>) -> bool {
    forall|i: int, j: int| 0 <= i < j < endpoints.len() ==> endpoints[i].0 < endpoints[j].0
}

/// The endpoint among the first `count` that serves `slot`: the last of them
/// whose first slot does not lie behind `slot`.
pub open spec fn spec_endpoint_for(endpoints: Seq<(u64, [u8; 32])>, slot: u64, count: int)
    -> Option<[u8; 32]>
    decreases count,
{
    if count <= 0 {
        None
    } else if endpoints[count - 1].0 <= slot {
        Some(endpoints[count - 1].1)
    } else {
        spec_endpoint_for(endpoints, slot, count - 1)
    }
}

impl EndpointList {
    /// The endpoints, each with its first slot and the id of its actor.
    pub closed spec fn view(&self) -> Seq<(u64, [u8; 32])> {
        self.endpoints@
    }

    /// The first slots grow strictly.
    pub open spec fn well_formed(&self) -> bool {
        slots_grow(self@)
    }

    /// A list without endpoints.
    pub fn new() -> (list: EndpointList)
        ensures
            list.well_formed(),
            list@ == Seq::<(u64, [u8; 32])>::empty(),
    {
        EndpointList { endpoints: Vec::new() }
    }

    /// Adds an endpoint for the slots from `slot` on. An endpoint whose
    /// first slot does not lie behind the first slot of the last one is
    /// refused.
    pub fn push(&mut self, slot: u64, actor_id: [u8; 32]) -> (added: bool)
        requires
            old(self).well_formed(),
        ensures
            final(self).well_formed(),
            added == (old(self)@.len() == 0 || old(self)@.last().0 < slot),
            added ==> final(self)@ == old(self)@.push((slot, actor_id)),
            !added ==> final(self)@ == old(self)@,
    {
        let count = self.endpoints.len();
        if count > 0 && self.endpoints[count - 1].0 >= slot {
            return false;
        }
        self.endpoints.push((slot, actor_id));
        assert forall|i: int, j: int| 0 <= i < j < self@.len() implies self@[i].0
            < self@[j].0 by {
            if j == count {
                if i < count - 1 {
                    assert(old(self)@[i].0 < old(self)@[count - 1].0);
                }
            }
        }
        true
    }

    /// Finds the endpoint that serves `slot`.
    pub fn endpoint_for(&self, slot: u64) -> (actor_id: Option<[u8; 32]>)
        ensures
            actor_id == spec_endpoint_for(self@, slot, self@.len() as int),
    {
        let mut count: usize = self.endpoints.len();
        while count > 0
            invariant
                count <= self.endpoints@.len(),
                spec_endpoint_for(self@, slot, self@.len() as int) == spec_endpoint_for(
                    self@,
                    slot,
                    count as int,
                ),
            decreases count,
        {
            if self.endpoints[count - 1].0 <= slot {
                return Some(self.endpoints[count - 1].1);
            }
            count -= 1;
        }
        None
    }
}

/// The state of the proxy: its administrator and its endpoints.
#[derive(Debug)]
pub struct ProxyState {
    pub admin: [u8; 32],
    pub endpoints: EndpointList,
}

impl ProxyState {
    /// A proxy without endpoints, administered by `admin`.
    pub fn new(admin: [u8; 32]) -> (state: ProxyState)
        ensures
            state.admin == admin,
            state.endpoints.well_formed(),
            state.endpoints@ == Seq::<(u64, [u8; 32])>::empty(),
    {
        ProxyState { admin, endpoints: EndpointList::new() }
    }

    /// Adds an endpoint on behalf of `caller`. Only the administrator adds
    /// endpoints.
    pub fn add_endpoint(&mut self, caller: &[u8; 32], slot: u64, actor_id: [u8; 32]) -> (added:
        bool)
        requires
            old(self).endpoints.well_formed(),
        ensures
            final(self).endpoints.well_formed(),
            final(self).admin == old(self).admin,
            added == (caller@ == old(self).admin@ && (old(self).endpoints@.len() == 0 || old(
                self,
            ).endpoints@.last().0 < slot)),
            added ==> final(self).endpoints@ == old(self).endpoints@.push((slot, actor_id)),
            !added ==> final(self).endpoints@ == old(self).endpoints@,
    {
        if !hashes_equal(caller, &self.admin) {
            return false;
        }
        self.endpoints.push(slot, actor_id)
    }
}

} // verus!

//! The compute units that this gateway may still spend at each worker.

use vstd::prelude::*;
use crate::table::Table;
use crate::types::PeerId;

verus! {

/// What is left of `remaining` units after `n` more are given back.
pub open spec fn units_after_release(remaining: u32, n: u32) -> u32 {
    if remaining + n > u32::MAX {
        u32::MAX
    } else {
        (remaining + n) as u32
    }
}

/// The ledger of compute units, by worker.
pub struct AllocationsManager {
    remaining: Table<u32>,
}

impl AllocationsManager {
    /// The units left at each worker that the ledger knows.
    pub closed spec fn units(&self) -> Map<Seq<char>, u32> {
        self.remaining@
    }

    /// The ledger is consistent.
    pub closed spec fn wf(&self) -> bool {
        self.remaining.wf()
    }

    /// The units left at `worker`; none at a worker that the ledger does not
    /// know.
    pub open spec fn remaining(&self, worker: Seq<char>) -> u32 {
        if self.units().contains_key(worker) {
            self.units()[worker]
        } else {
            0
        }
    }

    /// A ledger in which no worker has units.
    pub fn new() -> (a: AllocationsManager)
        ensures
            a.wf(),
            a.units() == Map::<Seq<char>, u32>::empty(),
    {
        AllocationsManager { remaining: Table::new() }
    }

    /// Sets the units left at `worker`, as at the start of an allocation window.
    pub fn set_allocation(&mut self, worker: &PeerId, units: u32)
        requires
            old(self).wf(),
        ensures
            final(self).wf(),
            final(self).units() == old(self).units().insert(worker@, units),
    {
        self.remaining.insert(worker.0.clone(), units);
    }

    /// The units left at `worker`.
    pub fn remaining_cus(&self, worker: &PeerId) -> (units: u32)
        requires
            self.wf(),
        ensures
            units == self.remaining(worker@),
    {
        match self.remaining.get(&worker.0) {
            Some(units) => *units,
            None => 0,
        }
    }

    /// Spends `n` units at `worker` where that many are left, and says whether
    /// it did. Where fewer are left nothing changes.
    pub fn try_spend_cus(&mut self, worker: &PeerId, n: u32) -> (spent: bool)
        requires
            old(self).wf(),
        ensures
            final(self).wf(),
            spent == (old(self).remaining(worker@) >= n),
            spent ==> final(self).units() == old(self).units().insert(
                worker@,
                (old(self).remaining(worker@) - n) as u32,
            ),
            !spent ==> final(self).units() == old(self).units(),
    {
        let left = self.remaining_cus(worker);
        if left >= n {
            self.remaining.insert(worker.0.clone(), left - n);
            true
        } else {
            false
        }
    }

    /// Gives `n` units back to `worker`: the compensation for a reservation whose
    /// query was not delivered.
    pub fn release_cus(&mut self, worker: &PeerId, n: u32)
        requires
            old(self).wf(),
        ensures
            final(self).wf(),
            final(self).units() == old(self).units().insert(
                worker@,
                units_after_release(old(self).remaining(worker@), n),
            ),
    {
        let left = self.remaining_cus(worker);
        let back: u32 = if n > u32::MAX - left {
            u32::MAX
        } else {
            left + n
        };
        self.remaining.insert(worker.0.clone(), back);
    }
}

/// A release of the units that were spent leaves at every worker what was
/// there before the spending.
pub proof fn lemma_release_compensates_spend(
    before: AllocationsManager,
    spent: AllocationsManager,
    released: AllocationsManager,
    worker: Seq<char>,
    n: u32,
)
    requires
        before.remaining(worker) >= n,
        spent.units() == before.units().insert(worker, (before.remaining(worker) - n) as u32),
        released.units() == spent.units().insert(worker, units_after_release(spent.remaining(worker), n)),
    ensures
        forall|w: Seq<char>| released.remaining(w) == before.remaining(w),
{
    assert forall|w: Seq<char>| released.remaining(w) == before.remaining(w) by {
        if w == worker {
            assert(spent.units().contains_key(worker));
            assert(released.units().contains_key(worker));
        } else {
            assert(released.units().contains_key(w) == before.units().contains_key(w));
        }
    }
}

} // verus!

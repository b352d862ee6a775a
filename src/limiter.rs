use vstd::prelude::*;

use crate::model::Tier;

verus! {

/// Permits for balancer upserts.
pub const BALANCER_PERMITS: u64 = 100;

/// Permits for route configuration upserts.
pub const CONFIG_PERMITS: u64 = 100;

/// Permits for node upserts, the tier with the most entities.
pub const NODE_PERMITS: u64 = 200;

/// A counting permit pool: at most `capacity` upsert tasks of one tier hold
/// a permit at any moment.
pub struct PermitPool {
    capacity: u64,
    held: u64,
}

impl PermitPool {
    /// Well-formed: no more permits held than the pool has.
    pub closed spec fn wf(self) -> bool {
        self.held <= self.capacity
    }

    /// The number of permits the pool was made with.
    pub closed spec fn spec_capacity(self) -> nat {
        self.capacity as nat
    }

    /// The number of permits currently held by running tasks.
    pub closed spec fn spec_held(self) -> nat {
        self.held as nat
    }

    /// A pool of `capacity` permits, none held.
    pub fn new(capacity: u64) -> (r: PermitPool)
        ensures
            r.spec_capacity() == capacity,
            r.spec_held() == 0,
            r.wf(),
    {
        PermitPool { capacity, held: 0 }
    }

    pub fn capacity(&self) -> (r: u64)
        ensures
            r == self.spec_capacity(),
    {
        self.capacity
    }

    pub fn held(&self) -> (r: u64)
        ensures
            r == self.spec_held(),
    {
        self.held
    }

    /// Permits that can still be taken without waiting.
    pub fn available(&self) -> (r: u64)
        requires
            self.wf(),
        ensures
            r == self.spec_capacity() - self.spec_held(),
    {
        self.capacity - self.held
    }

    /// Takes one permit if any is free; `false` means the dispatcher must
    /// wait for a running task to release one.
    pub fn try_acquire(&mut self) -> (r: bool)
        requires
            old(self).wf(),
        ensures
            final(self).wf(),
            r == (old(self).spec_held() < old(self).spec_capacity()),
            final(self).spec_capacity() == old(self).spec_capacity(),
            final(self).spec_held() == old(self).spec_held() + if r { 1nat } else { 0nat },
    {
        if self.held < self.capacity {
            self.held = self.held + 1;
            true
        } else {
            false
        }
    }

    /// Gives back the permit of a task that has finished, whether its upsert
    /// succeeded or failed.
    pub fn release(&mut self)
        requires
            old(self).wf(),
            old(self).spec_held() > 0,
        ensures
            final(self).wf(),
            final(self).spec_capacity() == old(self).spec_capacity(),
            final(self).spec_held() == old(self).spec_held() - 1,
    {
        self.held = self.held - 1;
    }
}

/// The permit count of a tier.
pub open spec fn tier_permits(tier: Tier) -> nat {
    match tier {
        Tier::Balancers => BALANCER_PERMITS as nat,
        Tier::Configs => CONFIG_PERMITS as nat,
        Tier::Nodes => NODE_PERMITS as nat,
    }
}

/// A fresh pool sized for the upserts of `tier`.
pub fn pool_for(tier: Tier) -> (r: PermitPool)
    ensures
        r.wf(),
        r.spec_capacity() == tier_permits(tier),
        r.spec_held() == 0,
{
    match tier {
        Tier::Balancers => PermitPool::new(BALANCER_PERMITS),
        Tier::Configs => PermitPool::new(CONFIG_PERMITS),
        Tier::Nodes => PermitPool::new(NODE_PERMITS),
    }
}

/// Concurrency bound: no pool ever has more permits held than it was made with.
pub proof fn lemma_held_within_capacity(p: PermitPool)
    requires
        p.wf(),
    ensures
        p.spec_held() <= p.spec_capacity(),
{
}

} // verus!

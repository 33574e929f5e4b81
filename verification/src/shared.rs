//! The shared runtime core: an immutable snapshot of the configuration graph
//! published under a monotonically increasing version counter.

use vstd::prelude::*;

use crate::cron::{SimpleCron, MAX_TICK};
use crate::strutil::str_eq;

verus! {

/// Which capability of a configured store a purge exercises.
#[derive(Clone, Copy)]
pub enum PurgeKind {
    Data,
    Blob,
    Lookup,
}

/// A periodic purge of one configured store.
#[derive(Clone)]
pub struct PurgeSchedule {
    pub store_id: String,
    pub kind: PurgeKind,
    pub cron: SimpleCron,
}

/// The outcome of initializing one certificate provider: the delay until its
/// first renewal.
pub struct AcmeRenewal {
    pub provider_id: String,
    pub renew_in: u64,
}

/// An immutable snapshot of the runtime configuration read by the
/// housekeeper: purge frequencies, store purge schedules, certificate
/// providers, and the optional license expiry delay.
#[derive(Clone)]
pub struct CoreSnapshot {
    pub session_purge_frequency: SimpleCron,
    pub account_purge_frequency: SimpleCron,
    pub purge_schedules: Vec<PurgeSchedule>,
    pub acme_provider_ids: Vec<String>,
    pub license_expires_in: Option<u64>,
}

impl CoreSnapshot {
    pub open spec fn wf(self) -> bool {
        &&& self.session_purge_frequency.wf()
        &&& self.account_purge_frequency.wf()
        &&& forall|i: int|
            0 <= i < self.purge_schedules@.len() ==> (
            #[trigger] self.purge_schedules@[i]).cron.wf()
        &&& forall|i: int, j: int|
            0 <= i < j < self.acme_provider_ids@.len()
                ==> (#[trigger] self.acme_provider_ids@[i])@ != (
            #[trigger] self.acme_provider_ids@[j])@
        &&& match self.license_expires_in {
            Some(d) => d < MAX_TICK,
            None => true,
        }
    }

    pub open spec fn spec_has_provider(self, id: Seq<char>) -> bool {
        exists|i: int|
            0 <= i < self.acme_provider_ids@.len() && (#[trigger] self.acme_provider_ids@[i])@
                == id
    }

    /// Check well-formedness at run time, for callers outside the verifier:
    /// bounded non-zero periods, pairwise distinct provider ids, a bounded
    /// license expiry.
    pub fn check_wf(&self) -> (r: bool)
        ensures
            r == self.wf(),
    {
        if !(1 <= self.session_purge_frequency.period && self.session_purge_frequency.period
            < MAX_TICK) {
            return false;
        }
        if !(1 <= self.account_purge_frequency.period && self.account_purge_frequency.period
            < MAX_TICK) {
            return false;
        }
        let mut i: usize = 0;
        while i < self.purge_schedules.len()
            invariant
                i <= self.purge_schedules@.len(),
                forall|j: int|
                    0 <= j < i ==> (#[trigger] self.purge_schedules@[j]).cron.wf(),
            decreases self.purge_schedules@.len() - i,
        {
            let p = self.purge_schedules[i].cron.period;
            if !(1 <= p && p < MAX_TICK) {
                return false;
            }
            i += 1;
        }
        let mut a: usize = 0;
        while a < self.acme_provider_ids.len()
            invariant
                a <= self.acme_provider_ids@.len(),
                forall|x: int, y: int|
                    0 <= x < y < self.acme_provider_ids@.len() && x < a ==> (
                    #[trigger] self.acme_provider_ids@[x])@ != (
                    #[trigger] self.acme_provider_ids@[y])@,
            decreases self.acme_provider_ids@.len() - a,
        {
            let mut b: usize = a + 1;
            while b < self.acme_provider_ids.len()
                invariant
                    a < self.acme_provider_ids@.len(),
                    a + 1 <= b <= self.acme_provider_ids@.len(),
                    forall|x: int, y: int|
                        0 <= x < y < self.acme_provider_ids@.len() && x < a ==> (
                        #[trigger] self.acme_provider_ids@[x])@ != (
                        #[trigger] self.acme_provider_ids@[y])@,
                    forall|y: int|
                        (a as int) < y < b ==> (#[trigger] self.acme_provider_ids@[y])@
                            != self.acme_provider_ids@[a as int]@,
                decreases self.acme_provider_ids@.len() - b,
            {
                if str_eq(
                    self.acme_provider_ids[a].as_str(),
                    self.acme_provider_ids[b].as_str(),
                ) {
                    return false;
                }
                b += 1;
            }
            a += 1;
        }
        match self.license_expires_in {
            Option::Some(d) => d < MAX_TICK,
            Option::None => true,
        }
    }

    /// Is a certificate provider with this id still configured?
    pub fn has_provider(&self, id: &str) -> (r: bool)
        ensures
            r == self.spec_has_provider(id@),
    {
        let mut i: usize = 0;
        while i < self.acme_provider_ids.len()
            invariant
                i <= self.acme_provider_ids@.len(),
                forall|j: int|
                    0 <= j < i ==> (#[trigger] self.acme_provider_ids@[j])@ != id@,
            decreases self.acme_provider_ids@.len() - i,
        {
            if str_eq(self.acme_provider_ids[i].as_str(), id) {
                return true;
            }
            i += 1;
        }
        false
    }
}

/// The swappable holder of the current snapshot. Publishing a new snapshot
/// strictly increases the config version, so version-keyed caches can
/// invalidate themselves lazily.
pub struct SharedCore {
    core: CoreSnapshot,
    config_version: u64,
}

impl SharedCore {
    pub closed spec fn spec_core(self) -> CoreSnapshot {
        self.core
    }

    pub closed spec fn spec_config_version(self) -> u64 {
        self.config_version
    }

    /// Building the core at the end of boot is the first publication.
    pub fn new(core: CoreSnapshot) -> (r: SharedCore)
        ensures
            r.spec_core() == core,
            r.spec_config_version() == 1,
    {
        SharedCore { core, config_version: 1 }
    }

    /// The current snapshot, as a reader observes it.
    pub fn load(&self) -> (r: &CoreSnapshot)
        ensures
            *r == self.spec_core(),
    {
        &self.core
    }

    pub fn config_version(&self) -> (r: u64)
        ensures
            r == self.spec_config_version(),
    {
        self.config_version
    }

    /// Publish a new snapshot: the config version strictly increases.
    pub fn publish(&mut self, core: CoreSnapshot)
        requires
            old(self).spec_config_version() < u64::MAX,
        ensures
            final(self).spec_core() == core,
            final(self).spec_config_version() == old(self).spec_config_version() + 1,
            final(self).spec_config_version() > old(self).spec_config_version(),
    {
        self.core = core;
        self.config_version = self.config_version + 1;
    }

    /// Bump the version without replacing the snapshot, as after an in-place
    /// certificate renewal.
    pub fn increment_config_version(&mut self)
        requires
            old(self).spec_config_version() < u64::MAX,
        ensures
            final(self).spec_core() == old(self).spec_core(),
            final(self).spec_config_version() == old(self).spec_config_version() + 1,
    {
        self.config_version = self.config_version + 1;
    }
}

} // verus!

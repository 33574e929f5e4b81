//! The housekeeper scheduler: a single-owner event loop over a control inbox
//! and the action queue, modeled as a step function from state and event to
//! the next state and the work to start.
//!
//! The runtime around it performs the waiting and the spawning: it sleeps for
//! `Queue::wake_up_time`, feeds each arriving `Event` to `handle_event`, lets
//! `handle_timeout` drain due actions on a timer expiry, and starts one
//! background job per returned `Task`.

use vstd::prelude::*;

use crate::cron::MAX_TICK;
use crate::queue::{
    Action, ActionClass, Queue, distinct_classes, due_actions, lemma_distinct_of_class_at_most_one,
    lemma_distinct_remove, lemma_due_push, lemma_due_remove, lemma_min_index, lemma_of_class_push,
    lemma_of_class_of_without, lemma_remove_push_same_class_distinct, lemma_same_class_trans,
    lemma_without_class_push_distinct, min_index, of_class, same_class, without_class,
};
use crate::shared::{AcmeRenewal, CoreSnapshot, PurgeKind, SharedCore};

verus! {

/// A control message for the housekeeper's inbox.
pub enum Event {
    /// A request to index queued messages (single-flight).
    IndexStart,
    /// Posted by a finished indexing task.
    IndexDone,
    /// Re-initialize every certificate provider.
    AcmeReload,
    /// Move the renewal for this provider to a new due time.
    AcmeReschedule { provider_id: String, renew_at: u64 },
    /// A one-shot purge of the named store.
    Purge(PurgeType),
    /// Terminate the scheduler.
    Exit,
}

/// A one-shot purge request, naming stores by their configured ids.
pub enum PurgeType {
    Data(String),
    Blobs { store: String, blob_store: String },
    Lookup(String),
    Account(Option<u32>),
}

/// Work the runtime must start on the scheduler's behalf; the scheduler
/// itself never blocks on any of it.
pub enum Task {
    SpawnIndexer,
    SpawnAcmeReloader,
    SpawnAcmeRenewal(String),
    SpawnDataPurge(String),
    SpawnBlobPurge { store: String, blob_store: String },
    SpawnLookupPurge(String),
    SpawnAccountPurge(Option<u32>),
    SpawnStorePurge { index: usize, kind: PurgeKind, store_id: String },
    PurgeSessionCache,
    ReloadLicense,
    Shutdown,
}

/// The scheduler's state: the action queue plus the single-flight indexing
/// flags.
pub struct Housekeeper {
    pub queue: Queue,
    pub index_busy: bool,
    pub index_pending: bool,
}

/// The task a purge event maps to.
pub open spec fn purge_task(p: PurgeType) -> Task {
    match p {
        PurgeType::Data(id) => Task::SpawnDataPurge(id),
        PurgeType::Blobs { store, blob_store } => Task::SpawnBlobPurge { store, blob_store },
        PurgeType::Lookup(id) => Task::SpawnLookupPurge(id),
        PurgeType::Account(a) => Task::SpawnAccountPurge(a),
    }
}

/// What one control event does: the exact relation between the state before
/// the event, the state after it, and the work handed to the runtime.
pub open spec fn event_step(
    pre: Housekeeper,
    event: Event,
    post: Housekeeper,
    tasks: Seq<Task>,
) -> bool {
    match event {
        Event::IndexStart => {
            &&& post.queue@ == pre.queue@
            &&& post.index_busy
            &&& if pre.index_busy {
                post.index_pending && tasks =~= Seq::<Task>::empty()
            } else {
                post.index_pending == pre.index_pending && tasks =~= seq![Task::SpawnIndexer]
            }
        },
        Event::IndexDone => {
            &&& post.queue@ == pre.queue@
            &&& if pre.index_pending {
                &&& post.index_busy == pre.index_busy
                &&& !post.index_pending
                &&& tasks =~= seq![Task::SpawnIndexer]
            } else {
                &&& !post.index_busy
                &&& post.index_pending == pre.index_pending
                &&& tasks =~= Seq::<Task>::empty()
            }
        },
        Event::AcmeReload => {
            &&& post.queue@ == pre.queue@
            &&& post.index_busy == pre.index_busy
            &&& post.index_pending == pre.index_pending
            &&& tasks =~= seq![Task::SpawnAcmeReloader]
        },
        Event::AcmeReschedule { provider_id, renew_at } => {
            &&& post.queue@ == without_class(pre.queue@, ActionClass::Acme(provider_id)).push(
                Action { due: renew_at, event: ActionClass::Acme(provider_id) },
            )
            &&& post.index_busy == pre.index_busy
            &&& post.index_pending == pre.index_pending
            &&& tasks =~= Seq::<Task>::empty()
        },
        Event::Purge(p) => {
            &&& post.queue@ == pre.queue@
            &&& post.index_busy == pre.index_busy
            &&& post.index_pending == pre.index_pending
            &&& tasks =~= seq![purge_task(p)]
        },
        Event::Exit => {
            &&& post.queue@ == pre.queue@
            &&& post.index_busy == pre.index_busy
            &&& post.index_pending == pre.index_pending
            &&& tasks =~= seq![Task::Shutdown]
        },
    }
}

impl Housekeeper {
    /// Pairwise-distinct action classes, and a pending indexing request only
    /// while an indexer runs.
    pub open spec fn wf(self) -> bool {
        &&& distinct_classes(self.queue@)
        &&& (self.index_pending ==> self.index_busy)
    }

    /// A fresh scheduler. It starts with `index_busy` set: the runtime spawns
    /// one initial indexing task to drain any backlog, before the loop runs.
    pub fn new() -> (r: Housekeeper)
        ensures
            r.wf(),
            r.queue@ =~= Seq::<Action>::empty(),
            r.index_busy,
            !r.index_pending,
    {
        Housekeeper { queue: Queue::default(), index_busy: true, index_pending: false }
    }

    /// Apply one control event; the returned tasks are the work the runtime
    /// must start.
    pub fn handle_event(&mut self, event: Event) -> (tasks: Vec<Task>)
        requires
            old(self).wf(),
        ensures
            final(self).wf(),
            event_step(*old(self), event, *final(self), tasks@),
    {
        let mut tasks: Vec<Task> = Vec::new();
        match event {
            Event::IndexStart => {
                if !self.index_busy {
                    self.index_busy = true;
                    tasks.push(Task::SpawnIndexer);
                } else {
                    self.index_pending = true;
                }
            },
            Event::IndexDone => {
                if self.index_pending {
                    self.index_pending = false;
                    tasks.push(Task::SpawnIndexer);
                } else {
                    self.index_busy = false;
                }
            },
            Event::AcmeReload => {
                tasks.push(Task::SpawnAcmeReloader);
            },
            Event::AcmeReschedule { provider_id, renew_at } => {
                let action = ActionClass::Acme(provider_id);
                self.queue.remove_action(&action);
                self.queue.schedule(renew_at, action);
                proof {
                    lemma_without_class_push_distinct(
                        old(self).queue@,
                        ActionClass::Acme(provider_id),
                        Action { due: renew_at, event: ActionClass::Acme(provider_id) },
                    );
                }
            },
            Event::Purge(purge) => {
                match purge {
                    PurgeType::Data(store) => {
                        tasks.push(Task::SpawnDataPurge(store));
                    },
                    PurgeType::Blobs { store, blob_store } => {
                        tasks.push(Task::SpawnBlobPurge { store, blob_store });
                    },
                    PurgeType::Lookup(store) => {
                        tasks.push(Task::SpawnLookupPurge(store));
                    },
                    PurgeType::Account(account_id) => {
                        tasks.push(Task::SpawnAccountPurge(account_id));
                    },
                }
            },
            Event::Exit => {
                tasks.push(Task::Shutdown);
            },
        }
        tasks
    }
}

/// What dispatching the earliest action of the queue yields: the queue after
/// it (the action popped, its next occurrence rescheduled where the class is
/// periodic) and the work it emits, if any. Rescheduling happens in the same
/// step as popping, before the work runs, so a slow purge cannot postpone
/// its next fire.
pub open spec fn spec_dispatch(q: Seq<Action>, now: u64, core: CoreSnapshot) -> (
    Seq<Action>,
    Option<Task>,
) {
    let m = min_index(q);
    match q[m].event {
        ActionClass::Session => (
            q.remove(m).push(
                Action {
                    due: (now + core.session_purge_frequency.spec_time_to_next(now)) as u64,
                    event: ActionClass::Session,
                },
            ),
            Some(Task::PurgeSessionCache),
        ),
        ActionClass::Account => (
            q.remove(m).push(
                Action {
                    due: (now + core.account_purge_frequency.spec_time_to_next(now)) as u64,
                    event: ActionClass::Account,
                },
            ),
            Some(Task::SpawnAccountPurge(None::<u32>)),
        ),
        ActionClass::Store(idx) => if idx < core.purge_schedules@.len() {
            (
                q.remove(m).push(
                    Action {
                        due: (now + core.purge_schedules@[idx as int].cron.spec_time_to_next(
                            now,
                        )) as u64,
                        event: ActionClass::Store(idx),
                    },
                ),
                Some(
                    Task::SpawnStorePurge {
                        index: idx,
                        kind: core.purge_schedules@[idx as int].kind,
                        store_id: core.purge_schedules@[idx as int].store_id,
                    },
                ),
            )
        } else {
            (q.remove(m), None::<Task>)
        },
        ActionClass::Acme(id) => (
            q.remove(m),
            if core.spec_has_provider(id@) {
                Some(Task::SpawnAcmeRenewal(id))
            } else {
                None::<Task>
            },
        ),
        ActionClass::ReloadLicense => (q.remove(m), Some(Task::ReloadLicense)),
    }
}

/// What dispatching the earliest due action does to the scheduler state.
pub open spec fn dispatch_step(
    pre: Housekeeper,
    now: u64,
    core: CoreSnapshot,
    post: Housekeeper,
    task: Option<Task>,
) -> bool {
    let q = pre.queue@;
    &&& q.len() > 0
    &&& q[min_index(q)].due <= now
    &&& post.index_busy == pre.index_busy
    &&& post.index_pending == pre.index_pending
    &&& (post.queue@, task) == spec_dispatch(q, now, core)
}

/// Draining the queue at `now`: every due action is dispatched in pop order
/// until the earliest action lies in the future; the result is the final
/// queue and the emitted tasks in dispatch order. The due count guard
/// discharges termination for degenerate snapshots (a zero period); the
/// executable side's well-formedness makes it always pass.
pub open spec fn drain(q: Seq<Action>, now: u64, core: CoreSnapshot) -> (Seq<Action>, Seq<Task>)
    decreases due_actions(q, now).len(),
{
    if q.len() == 0 || q[min_index(q)].due > now {
        (q, Seq::<Task>::empty())
    } else {
        let (q2, t) = spec_dispatch(q, now, core);
        let head = match t {
            Some(t0) => seq![t0],
            None => Seq::<Task>::empty(),
        };
        if due_actions(q2, now).len() < due_actions(q, now).len() {
            let (qf, ts) = drain(q2, now, core);
            (qf, head + ts)
        } else {
            (q2, head)
        }
    }
}

impl Housekeeper {
    /// Pop and dispatch the earliest action if it is due: the result is the
    /// work to start, doubly wrapped so that "nothing was due" and "a due
    /// action needed no work" stay apart.
    pub fn dispatch_one(&mut self, now: u64, core: &CoreSnapshot) -> (r: Option<Option<Task>>)
        requires
            old(self).wf(),
            core.wf(),
            now < MAX_TICK,
        ensures
            final(self).wf(),
            r is None ==> ({
                &&& final(self).queue@ == old(self).queue@
                &&& final(self).index_busy == old(self).index_busy
                &&& final(self).index_pending == old(self).index_pending
                &&& (old(self).queue@.len() == 0 || old(self).queue@[min_index(
                    old(self).queue@,
                )].due > now)
            }),
            r matches Some(task) ==> ({
                &&& dispatch_step(*old(self), now, *core, *final(self), task)
                &&& due_actions(final(self).queue@, now).len() < due_actions(
                    old(self).queue@,
                    now,
                ).len()
                &&& forall|a: Action|
                    old(self).queue@.contains(a) && a.due > now
                        ==> final(self).queue@.contains(a)
            }),
    {
        let ghost q = self.queue@;
        let ghost m = min_index(q);
        let popped = self.queue.pop(now);
        match popped {
            Option::None => Option::None,
            Option::Some(action) => {
                proof {
                    lemma_min_index(q);
                    lemma_distinct_remove(q, m);
                    lemma_due_remove(q, m, now);
                }
                let task: Option<Task> = match action.event {
                    ActionClass::Session => {
                        let delay = core.session_purge_frequency.time_to_next(now);
                        self.queue.schedule(now + delay, ActionClass::Session);
                        proof {
                            let x = Action {
                                due: (now + delay) as u64,
                                event: ActionClass::Session,
                            };
                            lemma_remove_push_same_class_distinct(q, m, x);
                            lemma_due_push(q.remove(m), x, now);
                        }
                        Option::Some(Task::PurgeSessionCache)
                    },
                    ActionClass::Account => {
                        let delay = core.account_purge_frequency.time_to_next(now);
                        self.queue.schedule(now + delay, ActionClass::Account);
                        proof {
                            let x = Action {
                                due: (now + delay) as u64,
                                event: ActionClass::Account,
                            };
                            lemma_remove_push_same_class_distinct(q, m, x);
                            lemma_due_push(q.remove(m), x, now);
                        }
                        Option::Some(Task::SpawnAccountPurge(Option::None))
                    },
                    ActionClass::Store(idx) => {
                        if idx < core.purge_schedules.len() {
                            let delay = core.purge_schedules[idx].cron.time_to_next(now);
                            self.queue.schedule(now + delay, ActionClass::Store(idx));
                            proof {
                                let x = Action {
                                    due: (now + delay) as u64,
                                    event: ActionClass::Store(idx),
                                };
                                lemma_remove_push_same_class_distinct(q, m, x);
                                lemma_due_push(q.remove(m), x, now);
                            }
                            Option::Some(
                                Task::SpawnStorePurge {
                                    index: idx,
                                    kind: core.purge_schedules[idx].kind,
                                    store_id: core.purge_schedules[idx].store_id.clone(),
                                },
                            )
                        } else {
                            Option::None
                        }
                    },
                    ActionClass::Acme(provider_id) => {
                        if core.has_provider(provider_id.as_str()) {
                            Option::Some(Task::SpawnAcmeRenewal(provider_id))
                        } else {
                            Option::None
                        }
                    },
                    ActionClass::ReloadLicense => Option::Some(Task::ReloadLicense),
                };
                proof {
                    assert forall|a: Action| q.contains(a) && a.due > now implies self
                        .queue@.contains(a) by {
                        let i = choose|i: int| 0 <= i < q.len() && q[i] == a;
                        let r = q.remove(m);
                        if i < m {
                            assert(r[i] == a);
                        } else {
                            assert(i > m);
                            assert(r[i - 1] == a);
                        }
                        let k = choose|k: int| 0 <= k < r.len() && r[k] == a;
                        assert(self.queue@[k] == a);
                    }
                }
                Option::Some(task)
            },
        }
    }

    /// Drain every action that has fallen due at `now`: exactly the fold of
    /// `spec_dispatch` over the due actions in pop order, so the final queue
    /// and the returned work are both pinned by `drain`. Afterwards every
    /// queued action lies in the future, and every action that was not yet
    /// due is still queued unchanged.
    pub fn handle_timeout(&mut self, now: u64, core: &CoreSnapshot) -> (tasks: Vec<Task>)
        requires
            old(self).wf(),
            core.wf(),
            now < MAX_TICK,
        ensures
            final(self).wf(),
            final(self).index_busy == old(self).index_busy,
            final(self).index_pending == old(self).index_pending,
            (final(self).queue@, tasks@) == drain(old(self).queue@, now, *core),
            forall|i: int|
                0 <= i < final(self).queue@.len() ==> (#[trigger] final(self).queue@[i]).due
                    > now,
            forall|a: Action|
                old(self).queue@.contains(a) && a.due > now ==> final(self).queue@.contains(a),
    {
        let mut tasks: Vec<Task> = Vec::new();
        proof {
            assert(Seq::<Task>::empty() + drain(self.queue@, now, *core).1 =~= drain(
                self.queue@,
                now,
                *core,
            ).1);
        }
        loop
            invariant
                self.wf(),
                core.wf(),
                now < MAX_TICK,
                self.index_busy == old(self).index_busy,
                self.index_pending == old(self).index_pending,
                forall|a: Action|
                    old(self).queue@.contains(a) && a.due > now ==> self.queue@.contains(a),
                drain(old(self).queue@, now, *core).0 == drain(self.queue@, now, *core).0,
                drain(old(self).queue@, now, *core).1 == tasks@ + drain(
                    self.queue@,
                    now,
                    *core,
                ).1,
            ensures
                self.queue@.len() == 0 || self.queue@[min_index(self.queue@)].due > now,
                drain(old(self).queue@, now, *core).0 == self.queue@,
                drain(old(self).queue@, now, *core).1 == tasks@,
            decreases due_actions(self.queue@, now).len(),
        {
            let ghost pre_q = self.queue@;
            let ghost pre_tasks = tasks@;
            match self.dispatch_one(now, core) {
                Option::None => {
                    proof {
                        assert(drain(self.queue@, now, *core) == (
                            self.queue@,
                            Seq::<Task>::empty(),
                        ));
                        assert(tasks@ + Seq::<Task>::empty() =~= tasks@);
                    }
                    break ;
                },
                Option::Some(step_task) => {
                    let ghost head: Seq<Task> = if step_task is Some {
                        seq![step_task->Some_0]
                    } else {
                        Seq::<Task>::empty()
                    };
                    match step_task {
                        Option::Some(task) => {
                            tasks.push(task);
                        },
                        Option::None => {},
                    }
                    proof {
                        assert(tasks@ =~= pre_tasks + head);
                        let rest = drain(self.queue@, now, *core);
                        assert(drain(pre_q, now, *core) == (rest.0, head + rest.1));
                        assert(pre_tasks + (head + rest.1) =~= (pre_tasks + head) + rest.1);
                    }
                },
            }
        }
        proof {
            if self.queue@.len() > 0 {
                lemma_min_index(self.queue@);
            }
        }
        tasks
    }
}

/// The first two startup actions: the session and account cache purges.
pub open spec fn initial_head(now: u64, core: CoreSnapshot) -> Seq<Action> {
    seq![
        Action {
            due: (now + core.session_purge_frequency.spec_time_to_next(now)) as u64,
            event: ActionClass::Session,
        },
        Action {
            due: (now + core.account_purge_frequency.spec_time_to_next(now)) as u64,
            event: ActionClass::Account,
        },
    ]
}

/// One startup purge action per configured store schedule.
pub open spec fn store_actions(now: u64, core: CoreSnapshot) -> Seq<Action> {
    Seq::new(
        core.purge_schedules@.len(),
        |i: int|
            Action {
                due: (now + core.purge_schedules@[i].cron.spec_time_to_next(now)) as u64,
                event: ActionClass::Store(i as usize),
            },
    )
}

/// One startup renewal action per initialized certificate provider.
pub open spec fn acme_actions(now: u64, inits: Seq<AcmeRenewal>) -> Seq<Action> {
    Seq::new(
        inits.len(),
        |j: int|
            Action {
                due: (now + inits[j].renew_in) as u64,
                event: ActionClass::Acme(inits[j].provider_id),
            },
    )
}

/// The license reload action, when an enterprise license is loaded.
pub open spec fn license_actions(now: u64, core: CoreSnapshot) -> Seq<Action> {
    match core.license_expires_in {
        Some(d) => seq![
            Action { due: (now + d) as u64, event: ActionClass::ReloadLicense },
        ],
        None => Seq::<Action>::empty(),
    }
}

/// Everything enqueued at startup, in order.
pub open spec fn initial_actions(now: u64, core: CoreSnapshot, inits: Seq<AcmeRenewal>) -> Seq<
    Action,
> {
    initial_head(now, core) + store_actions(now, core) + acme_actions(now, inits)
        + license_actions(now, core)
}

/// The initialized providers carry pairwise different ids.
pub open spec fn distinct_renewals(inits: Seq<AcmeRenewal>) -> bool {
    forall|i: int, j: int|
        0 <= i < j < inits.len() ==> (#[trigger] inits[i].provider_id)@ != (
        #[trigger] inits[j].provider_id)@
}

/// The startup actions carry pairwise distinct classes.
pub proof fn lemma_initial_actions_distinct(now: u64, core: CoreSnapshot, inits: Seq<AcmeRenewal>)
    requires
        distinct_renewals(inits),
    ensures
        distinct_classes(initial_actions(now, core, inits)),
{
    let s = initial_actions(now, core, inits);
    let ns = core.purge_schedules@.len() as int;
    let na = inits.len() as int;
    assert(core.purge_schedules@.len() <= usize::MAX) by {
        assert(core.purge_schedules.len() == core.purge_schedules@.len());
    }
    assert forall|i: int, j: int| 0 <= i < j < s.len() implies !same_class(
        s[i].event,
        s[j].event,
    ) by {
        lemma_initial_actions_index(now, core, inits, i);
        lemma_initial_actions_index(now, core, inits, j);
        if 2 <= i < 2 + ns && 2 <= j < 2 + ns {
            assert(s[i].event == ActionClass::Store((i - 2) as usize));
            assert(s[j].event == ActionClass::Store((j - 2) as usize));
            assert((i - 2) as usize != (j - 2) as usize);
        }
        if 2 + ns <= i < 2 + ns + na && 2 + ns <= j < 2 + ns + na {
            assert(inits[i - 2 - ns].provider_id@ != inits[j - 2 - ns].provider_id@);
        }
    }
}

/// The class of each startup action, by its position.
proof fn lemma_initial_actions_index(now: u64, core: CoreSnapshot, inits: Seq<AcmeRenewal>, k: int)
    requires
        0 <= k < initial_actions(now, core, inits).len(),
    ensures
        ({
            let s = initial_actions(now, core, inits);
            let ns = core.purge_schedules@.len() as int;
            let na = inits.len() as int;
            if k == 0 {
                s[k].event == ActionClass::Session
            } else if k == 1 {
                s[k].event == ActionClass::Account
            } else if k < 2 + ns {
                s[k].event == ActionClass::Store((k - 2) as usize)
            } else if k < 2 + ns + na {
                s[k].event == ActionClass::Acme(inits[k - 2 - ns].provider_id)
            } else {
                s[k].event == ActionClass::ReloadLicense
            }
        }),
{
    let s = initial_actions(now, core, inits);
    let ns = core.purge_schedules@.len() as int;
    let na = inits.len() as int;
    let head = initial_head(now, core);
    let stores = store_actions(now, core);
    let acmes = acme_actions(now, inits);
    let lic = license_actions(now, core);
    if k < 2 {
        assert(s[k] == head[k]);
    } else if k < 2 + ns {
        assert(s[k] == stores[k - 2]);
    } else if k < 2 + ns + na {
        assert(s[k] == acmes[k - 2 - ns]);
    } else {
        assert(s[k] == lic[k - 2 - ns - na]);
    }
}

impl Housekeeper {
    /// Enqueue the startup schedule: the two cache purges, one purge per
    /// configured store schedule, one renewal per initialized certificate
    /// provider, and the license reload when a license is loaded.
    pub fn initial_schedule(&mut self, now: u64, core: &CoreSnapshot, acme: &Vec<AcmeRenewal>)
        requires
            old(self).wf(),
            old(self).queue@.len() == 0,
            core.wf(),
            now < MAX_TICK,
            distinct_renewals(acme@),
            forall|i: int| 0 <= i < acme@.len() ==> (#[trigger] acme@[i]).renew_in < MAX_TICK,
        ensures
            final(self).wf(),
            final(self).queue@ =~= initial_actions(now, *core, acme@),
            final(self).index_busy == old(self).index_busy,
            final(self).index_pending == old(self).index_pending,
    {
        let d1 = core.session_purge_frequency.time_to_next(now);
        self.queue.schedule(now + d1, ActionClass::Session);
        let d2 = core.account_purge_frequency.time_to_next(now);
        self.queue.schedule(now + d2, ActionClass::Account);
        proof {
            assert(self.queue@ =~= initial_head(now, *core));
        }
        let mut idx: usize = 0;
        while idx < core.purge_schedules.len()
            invariant
                core.wf(),
                now < MAX_TICK,
                idx <= core.purge_schedules@.len(),
                self.queue@ =~= initial_head(now, *core) + store_actions(now, *core).subrange(
                    0,
                    idx as int,
                ),
                self.index_busy == old(self).index_busy,
                self.index_pending == old(self).index_pending,
            decreases core.purge_schedules@.len() - idx,
        {
            let delay = core.purge_schedules[idx].cron.time_to_next(now);
            self.queue.schedule(now + delay, ActionClass::Store(idx));
            proof {
                assert(store_actions(now, *core).subrange(0, idx as int + 1) =~= store_actions(
                    now,
                    *core,
                ).subrange(0, idx as int).push(store_actions(now, *core)[idx as int]));
            }
            idx += 1;
        }
        proof {
            assert(store_actions(now, *core).subrange(0, core.purge_schedules@.len() as int)
                =~= store_actions(now, *core));
        }
        let mut k: usize = 0;
        while k < acme.len()
            invariant
                core.wf(),
                now < MAX_TICK,
                k <= acme@.len(),
                forall|i: int| 0 <= i < acme@.len() ==> (#[trigger] acme@[i]).renew_in
                    < MAX_TICK,
                self.queue@ =~= initial_head(now, *core) + store_actions(now, *core)
                    + acme_actions(now, acme@).subrange(0, k as int),
                self.index_busy == old(self).index_busy,
                self.index_pending == old(self).index_pending,
            decreases acme@.len() - k,
        {
            let id = acme[k].provider_id.clone();
            self.queue.schedule(now + acme[k].renew_in, ActionClass::Acme(id));
            proof {
                assert(acme_actions(now, acme@).subrange(0, k as int + 1) =~= acme_actions(
                    now,
                    acme@,
                ).subrange(0, k as int).push(acme_actions(now, acme@)[k as int]));
            }
            k += 1;
        }
        proof {
            assert(acme_actions(now, acme@).subrange(0, acme@.len() as int) =~= acme_actions(
                now,
                acme@,
            ));
        }
        match core.license_expires_in {
            Option::Some(d) => {
                self.queue.schedule(now + d, ActionClass::ReloadLicense);
            },
            Option::None => {},
        }
        proof {
            assert(self.queue@ =~= initial_actions(now, *core, acme@));
            lemma_initial_actions_distinct(now, *core, acme@);
        }
    }
}

/// How long a failed certificate renewal waits before the next attempt, in
/// milliseconds (one hour).
pub const ACME_RETRY_INTERVAL: u64 = 3_600_000;

/// The follow-up to one certificate renewal attempt: certificates are part
/// of the published snapshot, so the config version is bumped either way;
/// the returned event carries the provider back into the queue, due after
/// the renewal's own delay on success and after the retry interval on
/// failure.
pub fn acme_renewal_followup(
    shared: &mut SharedCore,
    provider_id: String,
    outcome: Result<u64, String>,
    now: u64,
) -> (ev: Event)
    requires
        old(shared).spec_config_version() < u64::MAX,
        now < MAX_TICK,
        outcome matches Ok(d) ==> d < MAX_TICK,
    ensures
        final(shared).spec_core() == old(shared).spec_core(),
        final(shared).spec_config_version() == old(shared).spec_config_version() + 1,
        ev == (Event::AcmeReschedule {
            provider_id,
            renew_at: (now + (match outcome {
                Ok(d) => d,
                Err(_) => ACME_RETRY_INTERVAL,
            })) as u64,
        }),
{
    let delay: u64 = match outcome {
        Result::Ok(d) => d,
        Result::Err(_) => ACME_RETRY_INTERVAL,
    };
    shared.increment_config_version();
    Event::AcmeReschedule { provider_id, renew_at: now + delay }
}

/// The events a provider re-initialization pass posts back: one reschedule
/// per successfully initialized provider, due after its returned delay.
pub fn acme_reload_events(outcomes: Vec<AcmeRenewal>, now: u64) -> (evs: Vec<Event>)
    requires
        now < MAX_TICK,
        forall|i: int| 0 <= i < outcomes@.len() ==> (#[trigger] outcomes@[i]).renew_in
            < MAX_TICK,
    ensures
        evs@.len() == outcomes@.len(),
        forall|i: int|
            0 <= i < evs@.len() ==> #[trigger] evs@[i] == (Event::AcmeReschedule {
                provider_id: outcomes@[i].provider_id,
                renew_at: (now + outcomes@[i].renew_in) as u64,
            }),
{
    let mut evs: Vec<Event> = Vec::new();
    let mut i: usize = 0;
    while i < outcomes.len()
        invariant
            i <= outcomes@.len(),
            now < MAX_TICK,
            forall|j: int| 0 <= j < outcomes@.len() ==> (#[trigger] outcomes@[j]).renew_in
                < MAX_TICK,
            evs@.len() == i,
            forall|j: int|
                0 <= j < i ==> #[trigger] evs@[j] == (Event::AcmeReschedule {
                    provider_id: outcomes@[j].provider_id,
                    renew_at: (now + outcomes@[j].renew_in) as u64,
                }),
        decreases outcomes@.len() - i,
    {
        evs.push(
            Event::AcmeReschedule {
                provider_id: outcomes[i].provider_id.clone(),
                renew_at: now + outcomes[i].renew_in,
            },
        );
        i += 1;
    }
    evs
}

/// Check at run time that a renewal list carries pairwise distinct provider
/// ids, for callers outside the verifier.
pub fn renewals_distinct(list: &Vec<AcmeRenewal>) -> (r: bool)
    ensures
        r == distinct_renewals(list@),
{
    let mut a: usize = 0;
    while a < list.len()
        invariant
            a <= list@.len(),
            forall|x: int, y: int|
                0 <= x < y < list@.len() && x < a ==> (#[trigger] list@[x].provider_id)@ != (
                #[trigger] list@[y].provider_id)@,
        decreases list@.len() - a,
    {
        let mut b: usize = a + 1;
        while b < list.len()
            invariant
                a < list@.len(),
                a + 1 <= b <= list@.len(),
                forall|x: int, y: int|
                    0 <= x < y < list@.len() && x < a ==> (#[trigger] list@[x].provider_id)@
                        != (#[trigger] list@[y].provider_id)@,
                forall|y: int|
                    (a as int) < y < b ==> (#[trigger] list@[y].provider_id)@
                        != list@[a as int].provider_id@,
            decreases list@.len() - b,
        {
            if crate::strutil::str_eq(
                list[a].provider_id.as_str(),
                list[b].provider_id.as_str(),
            ) {
                return false;
            }
            b += 1;
        }
        a += 1;
    }
    true
}

/// Install the outcome of a license reload: the new snapshot is published
/// (bumping the config version) and the reload is rescheduled at the new
/// license's expiry.
pub fn apply_license_reload(
    hk: &mut Housekeeper,
    shared: &mut SharedCore,
    new_core: CoreSnapshot,
    now: u64,
)
    requires
        old(hk).wf(),
        new_core.wf(),
        now < MAX_TICK,
        old(shared).spec_config_version() < u64::MAX,
    ensures
        final(hk).wf(),
        final(hk).index_busy == old(hk).index_busy,
        final(hk).index_pending == old(hk).index_pending,
        final(shared).spec_core() == new_core,
        final(shared).spec_config_version() == old(shared).spec_config_version() + 1,
        match new_core.license_expires_in {
            Some(d) => final(hk).queue@ == without_class(
                old(hk).queue@,
                ActionClass::ReloadLicense,
            ).push(Action { due: (now + d) as u64, event: ActionClass::ReloadLicense }),
            None => final(hk).queue@ == old(hk).queue@,
        },
{
    match new_core.license_expires_in {
        Option::Some(d) => {
            let cls = ActionClass::ReloadLicense;
            hk.queue.remove_action(&cls);
            hk.queue.schedule(now + d, cls);
            proof {
                lemma_without_class_push_distinct(
                    old(hk).queue@,
                    ActionClass::ReloadLicense,
                    Action { due: (now + d) as u64, event: ActionClass::ReloadLicense },
                );
            }
        },
        Option::None => {},
    }
    shared.publish(new_core);
}

/// A cached entry with an expiry tick.
#[derive(Clone, Copy)]
pub struct TtlEntry {
    pub id: u64,
    pub expires: u64,
}

/// A concurrency limiter, kept only while it still limits something.
#[derive(Clone, Copy)]
pub struct Limiter {
    pub id: u64,
    pub active: bool,
}

/// The entries still alive at `now`.
pub open spec fn live_entries(s: Seq<TtlEntry>, now: u64) -> Seq<TtlEntry> {
    s.filter(|e: TtlEntry| e.expires > now)
}

/// The limiters still active.
pub open spec fn active_limiters(s: Seq<Limiter>) -> Seq<Limiter> {
    s.filter(|l: Limiter| l.active)
}

proof fn lemma_live_entries_push(s: Seq<TtlEntry>, x: TtlEntry, now: u64)
    ensures
        live_entries(s.push(x), now) == if x.expires > now {
            live_entries(s, now).push(x)
        } else {
            live_entries(s, now)
        },
{
    reveal(Seq::filter);
    assert(s.push(x).drop_last() =~= s);
    assert(s.push(x).last() == x);
}

proof fn lemma_active_limiters_push(s: Seq<Limiter>, x: Limiter)
    ensures
        active_limiters(s.push(x)) == if x.active {
            active_limiters(s).push(x)
        } else {
            active_limiters(s)
        },
{
    reveal(Seq::filter);
    assert(s.push(x).drop_last() =~= s);
    assert(s.push(x).last() == x);
}

fn retain_live(v: &Vec<TtlEntry>, now: u64) -> (r: Vec<TtlEntry>)
    ensures
        r@ == live_entries(v@, now),
{
    let mut out: Vec<TtlEntry> = Vec::new();
    let mut i: usize = 0;
    while i < v.len()
        invariant
            i <= v@.len(),
            out@ =~= live_entries(v@.subrange(0, i as int), now),
        decreases v@.len() - i,
    {
        proof {
            assert(v@.subrange(0, i as int + 1) =~= v@.subrange(0, i as int).push(v@[i as int]));
            lemma_live_entries_push(v@.subrange(0, i as int), v@[i as int], now);
        }
        if v[i].expires > now {
            out.push(v[i]);
        }
        i += 1;
    }
    proof {
        assert(v@.subrange(0, v@.len() as int) =~= v@);
        assert(out@ =~= live_entries(v@, now));
    }
    out
}

/// The shared inner state whose caches the `Session` tick evicts.
pub struct Inner {
    pub sessions: Vec<TtlEntry>,
    pub access_tokens: Vec<TtlEntry>,
    pub concurrency_limiter: Vec<Limiter>,
}

impl Inner {
    /// Evict expired sessions and access tokens, and drop idle rate
    /// limiters.
    pub fn purge(&mut self, now: u64)
        ensures
            final(self).sessions@ == live_entries(old(self).sessions@, now),
            final(self).access_tokens@ == live_entries(old(self).access_tokens@, now),
            final(self).concurrency_limiter@ == active_limiters(
                old(self).concurrency_limiter@,
            ),
    {
        let new_sessions = retain_live(&self.sessions, now);
        self.sessions = new_sessions;
        let new_tokens = retain_live(&self.access_tokens, now);
        self.access_tokens = new_tokens;
        let mut out: Vec<Limiter> = Vec::new();
        let mut i: usize = 0;
        while i < self.concurrency_limiter.len()
            invariant
                i <= self.concurrency_limiter@.len(),
                out@ =~= active_limiters(self.concurrency_limiter@.subrange(0, i as int)),
                self.concurrency_limiter@ == old(self).concurrency_limiter@,
            decreases self.concurrency_limiter@.len() - i,
        {
            proof {
                assert(self.concurrency_limiter@.subrange(0, i as int + 1)
                    =~= self.concurrency_limiter@.subrange(0, i as int).push(
                    self.concurrency_limiter@[i as int],
                ));
                lemma_active_limiters_push(
                    self.concurrency_limiter@.subrange(0, i as int),
                    self.concurrency_limiter@[i as int],
                );
            }
            if self.concurrency_limiter[i].active {
                out.push(self.concurrency_limiter[i]);
            }
            i += 1;
        }
        proof {
            assert(self.concurrency_limiter@.subrange(0, self.concurrency_limiter@.len() as int)
                =~= self.concurrency_limiter@);
        }
        self.concurrency_limiter = out;
    }
}

/// Law: in a well-formed scheduler state, the queue holds at most one action
/// of any class.
pub proof fn lemma_queue_single_slot(hk: Housekeeper, c: ActionClass)
    requires
        hk.wf(),
    ensures
        of_class(hk.queue@, c).len() <= 1,
{
    lemma_distinct_of_class_at_most_one(hk.queue@, c);
}

/// Law: after an `AcmeReschedule { provider_id, renew_at }` event, the queue
/// holds exactly one renewal for that provider, due at `renew_at`.
pub proof fn lemma_acme_reschedule_collapses(
    pre: Housekeeper,
    post: Housekeeper,
    tasks: Seq<Task>,
    provider_id: String,
    renew_at: u64,
)
    requires
        event_step(pre, Event::AcmeReschedule { provider_id, renew_at }, post, tasks),
    ensures
        of_class(post.queue@, ActionClass::Acme(provider_id)) =~= seq![
            Action { due: renew_at, event: ActionClass::Acme(provider_id) },
        ],
{
    let c = ActionClass::Acme(provider_id);
    let w = without_class(pre.queue@, c);
    lemma_of_class_of_without(pre.queue@, c);
    lemma_of_class_push(w, Action { due: renew_at, event: c }, c);
}

/// Law: indexing is single-flight. Any one event starts at most one indexing
/// task; one is started only when none is running or the running one has just
/// finished with a collapsed request pending; and at most one request is ever
/// pending, remembered only while an indexer runs.
pub proof fn lemma_single_flight(
    pre: Housekeeper,
    event: Event,
    post: Housekeeper,
    tasks: Seq<Task>,
)
    requires
        pre.wf(),
        event_step(pre, event, post, tasks),
    ensures
        post.index_pending ==> post.index_busy,
        tasks.len() <= 1,
        tasks.contains(Task::SpawnIndexer) ==> ((event is IndexStart && !pre.index_busy) || (
        event is IndexDone && pre.index_pending)),
        event is IndexStart && pre.index_busy ==> tasks.len() == 0 && post.index_pending,
{
    match event {
        Event::IndexStart => {},
        Event::IndexDone => {},
        Event::AcmeReload => {
            assert(!tasks.contains(Task::SpawnIndexer)) by {
                assert(tasks =~= seq![Task::SpawnAcmeReloader]);
            }
        },
        Event::AcmeReschedule { provider_id, renew_at } => {},
        Event::Purge(p) => {
            assert(!tasks.contains(Task::SpawnIndexer)) by {
                assert(tasks =~= seq![purge_task(p)]);
                assert(purge_task(p) != Task::SpawnIndexer);
            }
        },
        Event::Exit => {
            assert(!tasks.contains(Task::SpawnIndexer)) by {
                assert(tasks =~= seq![Task::Shutdown]);
            }
        },
    }
}

} // verus!

use bootkeeper::cron::SimpleCron;
use bootkeeper::queue::{Action, ActionClass, Queue, LONG_SLUMBER};
use bootkeeper::scheduler::{
    acme_reload_events, acme_renewal_followup, apply_license_reload, renewals_distinct, Event,
    Housekeeper, Inner, Limiter, PurgeType, Task, TtlEntry, ACME_RETRY_INTERVAL,
};
use bootkeeper::shared::{AcmeRenewal, CoreSnapshot, PurgeKind, PurgeSchedule, SharedCore};

fn spawn_count(tasks: &[Task]) -> usize {
    tasks.iter().filter(|t| matches!(t, Task::SpawnIndexer)).count()
}

fn test_core() -> CoreSnapshot {
    CoreSnapshot {
        session_purge_frequency: SimpleCron::new(1000),
        account_purge_frequency: SimpleCron::new(2000),
        purge_schedules: vec![PurgeSchedule {
            store_id: "rocksdb".to_string(),
            kind: PurgeKind::Data,
            cron: SimpleCron::new(500),
        }],
        acme_provider_ids: vec!["a".to_string()],
        license_expires_in: Some(5000),
    }
}

#[test]
fn queue_ordering() {
    let now: u64 = 1_000_000;
    let mut queue = Queue::default();
    queue.schedule(now + 5000, ActionClass::Session);
    queue.schedule(now + 1000, ActionClass::Account);
    queue.schedule(now + 3000, ActionClass::Store(0));

    assert!(queue.pop(now + 900).is_none());
    let first = queue.pop(now + 1100).expect("account purge is due");
    assert!(matches!(first.event, ActionClass::Account));
    assert_eq!(first.due, now + 1000);
    let second = queue.pop(now + 4000).expect("store purge is due");
    assert!(matches!(second.event, ActionClass::Store(0)));
    let third = queue.pop(now + 6000).expect("session purge is due");
    assert!(matches!(third.event, ActionClass::Session));
    assert!(queue.pop(now + 6000).is_none());
}

#[test]
fn reschedule_collapses() {
    let now: u64 = 50_000;
    let mut hk = Housekeeper::new();
    hk.queue.schedule(now + 100_000, ActionClass::Acme("a".to_string()));
    let tasks = hk.handle_event(Event::AcmeReschedule {
        provider_id: "a".to_string(),
        renew_at: now + 10_000,
    });
    assert!(tasks.is_empty());

    let mut acme_entries: Vec<u64> = Vec::new();
    for i in 0..hk.queue.len() {
        let action: &Action = hk.queue.get(i);
        if let ActionClass::Acme(id) = &action.event {
            assert_eq!(id, "a");
            acme_entries.push(action.due);
        }
    }
    assert_eq!(acme_entries, vec![now + 10_000]);
}

#[test]
fn single_flight_indexing() {
    // A fresh housekeeper starts busy: the runtime spawns the initial
    // indexer that drains the backlog.
    let mut hk = Housekeeper::new();

    let mut spawned = 0;
    spawned += spawn_count(&hk.handle_event(Event::IndexStart));
    spawned += spawn_count(&hk.handle_event(Event::IndexStart));
    spawned += spawn_count(&hk.handle_event(Event::IndexStart));
    assert_eq!(spawned, 0);
    assert!(hk.index_busy && hk.index_pending);

    // The running indexer finishes: exactly one more is spawned, covering
    // the collapsed pending work.
    assert_eq!(spawn_count(&hk.handle_event(Event::IndexDone)), 1);
    assert!(hk.index_busy && !hk.index_pending);

    // That one finishes too with nothing pending: no further spawns.
    assert_eq!(spawn_count(&hk.handle_event(Event::IndexDone)), 0);
    assert!(!hk.index_busy);

    // From idle, one request spawns exactly one indexer.
    assert_eq!(spawn_count(&hk.handle_event(Event::IndexStart)), 1);
    assert_eq!(spawn_count(&hk.handle_event(Event::IndexStart)), 0);
}

#[test]
fn wake_up_time_long_slumber_iff_empty() {
    let now: u64 = 42;
    let queue = Queue::default();
    assert_eq!(queue.wake_up_time(now), LONG_SLUMBER);

    let mut queue = Queue::default();
    queue.schedule(now + 100, ActionClass::Session);
    assert_eq!(queue.wake_up_time(now), 100);
    assert_ne!(queue.wake_up_time(now), LONG_SLUMBER);

    // An overdue action yields an immediate wake-up.
    let mut queue = Queue::default();
    queue.schedule(10, ActionClass::Account);
    assert_eq!(queue.wake_up_time(now), 0);
}

#[test]
fn initial_schedule_and_timer_dispatch() {
    let core = test_core();
    let mut hk = Housekeeper::new();
    hk.initial_schedule(
        0,
        &core,
        &vec![AcmeRenewal { provider_id: "a".to_string(), renew_in: 700 }],
    );
    // Session at 1000, account at 2000, store purge at 500, renewal at 700,
    // license reload at 5000.
    assert_eq!(hk.queue.len(), 5);
    assert_eq!(hk.queue.wake_up_time(0), 500);

    let tasks = hk.handle_timeout(600, &core);
    assert_eq!(tasks.len(), 1);
    match &tasks[0] {
        Task::SpawnStorePurge { index, kind, store_id } => {
            assert_eq!(*index, 0);
            assert!(matches!(kind, PurgeKind::Data));
            assert_eq!(store_id, "rocksdb");
        }
        other => panic!("unexpected task: {:?}", task_name(other)),
    }
    // The store purge was rescheduled before its work started: the queue
    // still holds five actions, and the next wake-up is the renewal at 700.
    assert_eq!(hk.queue.len(), 5);
    assert_eq!(hk.queue.wake_up_time(600), 100);
}

fn task_name(task: &Task) -> &'static str {
    match task {
        Task::SpawnIndexer => "SpawnIndexer",
        Task::SpawnAcmeReloader => "SpawnAcmeReloader",
        Task::SpawnAcmeRenewal(_) => "SpawnAcmeRenewal",
        Task::SpawnDataPurge(_) => "SpawnDataPurge",
        Task::SpawnBlobPurge { .. } => "SpawnBlobPurge",
        Task::SpawnLookupPurge(_) => "SpawnLookupPurge",
        Task::SpawnAccountPurge(_) => "SpawnAccountPurge",
        Task::SpawnStorePurge { .. } => "SpawnStorePurge",
        Task::PurgeSessionCache => "PurgeSessionCache",
        Task::ReloadLicense => "ReloadLicense",
        Task::Shutdown => "Shutdown",
    }
}

#[test]
fn acme_renewal_dispatch() {
    let core = test_core();
    let mut hk = Housekeeper::new();
    hk.queue.schedule(100, ActionClass::Acme("a".to_string()));
    let tasks = hk.handle_timeout(100, &core);
    assert_eq!(tasks.len(), 1);
    assert!(matches!(&tasks[0], Task::SpawnAcmeRenewal(id) if id == "a"));
    // A renewal is rescheduled only via a posted AcmeReschedule event.
    assert_eq!(hk.queue.len(), 0);

    // A provider no longer configured is dropped silently.
    let mut hk = Housekeeper::new();
    hk.queue.schedule(100, ActionClass::Acme("gone".to_string()));
    let tasks = hk.handle_timeout(100, &core);
    assert!(tasks.is_empty());
    assert_eq!(hk.queue.len(), 0);
}

#[test]
fn purge_events_map_to_tasks() {
    let mut hk = Housekeeper::new();
    let tasks = hk.handle_event(Event::Purge(PurgeType::Data("d".to_string())));
    assert!(matches!(&tasks[0], Task::SpawnDataPurge(id) if id == "d"));
    let tasks = hk.handle_event(Event::Purge(PurgeType::Blobs {
        store: "s".to_string(),
        blob_store: "b".to_string(),
    }));
    assert!(matches!(&tasks[0], Task::SpawnBlobPurge { store, blob_store }
        if store == "s" && blob_store == "b"));
    let tasks = hk.handle_event(Event::Purge(PurgeType::Lookup("l".to_string())));
    assert!(matches!(&tasks[0], Task::SpawnLookupPurge(id) if id == "l"));
    let tasks = hk.handle_event(Event::Purge(PurgeType::Account(Some(7))));
    assert!(matches!(&tasks[0], Task::SpawnAccountPurge(Some(7))));
    let tasks = hk.handle_event(Event::Exit);
    assert!(matches!(&tasks[0], Task::Shutdown));
    assert_eq!(hk.queue.len(), 0);
}

#[test]
fn config_version_strictly_increases() {
    let mut shared = SharedCore::new(test_core());
    assert_eq!(shared.config_version(), 1);
    let v1 = shared.config_version();
    shared.publish(test_core());
    assert!(shared.config_version() > v1);
    assert_eq!(shared.config_version(), 2);
    shared.increment_config_version();
    assert_eq!(shared.config_version(), 3);
}

#[test]
fn license_reload_publishes_and_reschedules() {
    let mut shared = SharedCore::new(test_core());
    let mut hk = Housekeeper::new();
    let mut new_core = test_core();
    new_core.license_expires_in = Some(9000);
    apply_license_reload(&mut hk, &mut shared, new_core, 100);
    assert_eq!(shared.config_version(), 2);
    assert_eq!(hk.queue.len(), 1);
    let action = hk.queue.get(0);
    assert!(matches!(action.event, ActionClass::ReloadLicense));
    assert_eq!(action.due, 9100);
}

#[test]
fn session_cache_purge() {
    let mut inner = Inner {
        sessions: vec![
            TtlEntry { id: 1, expires: 100 },
            TtlEntry { id: 2, expires: 300 },
        ],
        access_tokens: vec![TtlEntry { id: 3, expires: 150 }],
        concurrency_limiter: vec![
            Limiter { id: 4, active: true },
            Limiter { id: 5, active: false },
        ],
    };
    inner.purge(200);
    assert_eq!(inner.sessions.len(), 1);
    assert_eq!(inner.sessions[0].id, 2);
    assert!(inner.access_tokens.is_empty());
    assert_eq!(inner.concurrency_limiter.len(), 1);
    assert_eq!(inner.concurrency_limiter[0].id, 4);
}

#[test]
fn cron_time_to_next() {
    let cron = SimpleCron::new(1000);
    assert_eq!(cron.time_to_next(250), 750);
    assert_eq!(cron.time_to_next(0), 1000);
    assert_eq!(cron.time_to_next(1000), 1000);
    assert_eq!(cron.time_to_next(1999), 1);
}

#[test]
fn remove_action_drops_every_entry_of_the_class() {
    let mut queue = Queue::default();
    queue.schedule(10, ActionClass::Acme("x".to_string()));
    queue.schedule(20, ActionClass::Session);
    queue.schedule(30, ActionClass::Acme("x".to_string()));
    queue.remove_action(&ActionClass::Acme("x".to_string()));
    assert_eq!(queue.len(), 1);
    assert!(matches!(queue.get(0).event, ActionClass::Session));
}

#[test]
fn at_most_one_action_per_class() {
    let core = test_core();
    let mut hk = Housekeeper::new();
    hk.initial_schedule(
        0,
        &core,
        &vec![AcmeRenewal { provider_id: "a".to_string(), renew_in: 700 }],
    );
    hk.handle_event(Event::AcmeReschedule { provider_id: "a".to_string(), renew_at: 50 });
    hk.handle_timeout(2000, &core);
    hk.handle_event(Event::AcmeReschedule { provider_id: "a".to_string(), renew_at: 9000 });
    for i in 0..hk.queue.len() {
        for j in 0..hk.queue.len() {
            if i != j {
                assert!(!hk.queue.get(i).event.matches_class(&hk.queue.get(j).event));
            }
        }
    }
}

// Among equal due times the pop order is a detail of this queue (first
// minimal position); callers must not rely on it, the scheduler does not.
#[test]
fn equal_due_times_pop_in_insertion_order() {
    let mut queue = Queue::default();
    queue.schedule(100, ActionClass::Session);
    queue.schedule(100, ActionClass::Account);
    let first = queue.pop(100).expect("due");
    assert!(matches!(first.event, ActionClass::Session));
    let second = queue.pop(100).expect("due");
    assert!(matches!(second.event, ActionClass::Account));
}

#[test]
fn acme_renewal_followup_reschedules() {
    let mut shared = SharedCore::new(test_core());
    let v0 = shared.config_version();
    let ev = acme_renewal_followup(&mut shared, "a".to_string(), Ok(250), 1000);
    assert_eq!(shared.config_version(), v0 + 1);
    assert!(matches!(&ev, Event::AcmeReschedule { provider_id, renew_at }
        if provider_id == "a" && *renew_at == 1250));

    // A failed renewal retries one hour out, and still bumps the version.
    let ev = acme_renewal_followup(&mut shared, "a".to_string(), Err("boom".to_string()), 1000);
    assert_eq!(shared.config_version(), v0 + 2);
    assert!(matches!(&ev, Event::AcmeReschedule { renew_at, .. }
        if *renew_at == 1000 + ACME_RETRY_INTERVAL));
}

#[test]
fn acme_reload_posts_one_reschedule_per_provider() {
    let outcomes = vec![
        AcmeRenewal { provider_id: "a".to_string(), renew_in: 100 },
        AcmeRenewal { provider_id: "b".to_string(), renew_in: 200 },
    ];
    let events = acme_reload_events(outcomes, 50);
    assert_eq!(events.len(), 2);
    assert!(matches!(&events[0], Event::AcmeReschedule { provider_id, renew_at }
        if provider_id == "a" && *renew_at == 150));
    assert!(matches!(&events[1], Event::AcmeReschedule { provider_id, renew_at }
        if provider_id == "b" && *renew_at == 250));
}

#[test]
fn runtime_well_formedness_checks() {
    assert!(test_core().check_wf());
    let mut bad = test_core();
    bad.acme_provider_ids = vec!["a".to_string(), "a".to_string()];
    assert!(!bad.check_wf());

    assert!(renewals_distinct(&vec![
        AcmeRenewal { provider_id: "a".to_string(), renew_in: 1 },
        AcmeRenewal { provider_id: "b".to_string(), renew_in: 2 },
    ]));
    assert!(!renewals_distinct(&vec![
        AcmeRenewal { provider_id: "a".to_string(), renew_in: 1 },
        AcmeRenewal { provider_id: "a".to_string(), renew_in: 2 },
    ]));
}

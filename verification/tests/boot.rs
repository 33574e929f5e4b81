use bootkeeper::boot::{
    core_snapshot_from, extend_config, resolve_config_source, needs_spam_filter,
    record_webadmin_outcome, seed_missing_settings, BootSequencer, BootStage, ConfigSource,
    WebadminOutcome,
};
use bootkeeper::config::resolve_macro_value;
use bootkeeper::shared::PurgeKind;
use bootkeeper::patterns::{Pattern, Patterns};
use bootkeeper::config::{Config, ConfigKey, ExternalConfig};
use bootkeeper::cron::SimpleCron;
use bootkeeper::shared::{CoreSnapshot, SharedCore};

fn is_alnum(c: char) -> bool {
    c.is_ascii_alphanumeric()
}

#[test]
fn missing_config_parameter() {
    let r = resolve_config_source(None, None, &vec![]);
    let message = r.err().expect("no configuration source resolves to an error");
    assert!(message.contains("--config"));
    assert_eq!(message, "Missing parameter --config=<path-to-config>.");

    // A first argument that is no flag leaves the parameter missing too.
    let r = resolve_config_source(None, None, &vec!["serve".to_string()]);
    assert!(r.err().expect("still missing").contains("--config"));
}

#[test]
fn config_source_precedence() {
    let args = vec!["--config=/from/args".to_string()];
    let r = resolve_config_source(Some("/explicit".to_string()), Some("/env".to_string()), &args);
    assert!(matches!(r, Ok(ConfigSource::File(p)) if p == "/explicit"));

    let r = resolve_config_source(None, Some("/env".to_string()), &args);
    assert!(matches!(r, Ok(ConfigSource::File(p)) if p == "/env"));

    let r = resolve_config_source(None, None, &args);
    assert!(matches!(r, Ok(ConfigSource::File(p)) if p == "/from/args"));
}

#[test]
fn config_source_flag_forms() {
    let r = resolve_config_source(None, None, &vec!["--config= /tmp/x ".to_string()]);
    assert!(matches!(r, Ok(ConfigSource::File(p)) if p == "/tmp/x"));

    let r = resolve_config_source(
        None,
        None,
        &vec!["--config".to_string(), "/tmp/y".to_string()],
    );
    assert!(matches!(r, Ok(ConfigSource::File(p)) if p == "/tmp/y"));

    let r = resolve_config_source(None, None, &vec!["--init=/tmp/q".to_string()]);
    assert!(matches!(r, Ok(ConfigSource::Quickstart(d)) if d == "/tmp/q"));

    let r = resolve_config_source(None, None, &vec!["--init".to_string(), "/tmp/r".to_string()]);
    assert!(matches!(r, Ok(ConfigSource::Quickstart(d)) if d == "/tmp/r"));

    let r = resolve_config_source(None, None, &vec!["--bogus=1".to_string()]);
    assert_eq!(r.err().expect("unknown flag"), "Invalid command line argument: bogus");

    let r = resolve_config_source(None, None, &vec!["--config".to_string()]);
    assert_eq!(r.err().expect("flag without value"), "Invalid command line argument: config");
}

#[test]
fn remote_fetch_failure_degrades() {
    let mut config = Config::new();
    assert!(needs_spam_filter(&config));
    let inserts = seed_missing_settings(
        &mut config,
        Some(Err("connection refused".to_string())),
    );
    // The boot continues: hostname and OAuth key are seeded...
    assert!(!config.value("lookup.default.hostname").expect("seeded").is_empty());
    assert!(!config.value("oauth.key").expect("seeded").is_empty());
    // ...the failure is recorded as a build error naming the fetch...
    let err = config.build_errors.last().expect("one build error");
    assert!(err.message.contains("Failed to fetch spam filter"));
    assert!(err.message.contains("connection refused"));
    assert_eq!(err.pattern, "*");
    // ...and the throttle defaults are not inserted.
    assert!(config.value("queue.quota.size.messages").is_none());
    assert!(config.value("session.throttle.ip.key").is_none());
    assert_eq!(inserts.len(), 2);
    // Boot still completes: the first shared-core publication happens.
    let core = SharedCore::new(CoreSnapshot {
        session_purge_frequency: SimpleCron::new(3_600_000),
        account_purge_frequency: SimpleCron::new(3_600_000),
        purge_schedules: vec![],
        acme_provider_ids: vec![],
        license_expires_in: None,
    });
    assert!(core.config_version() >= 1);
}

#[test]
fn seeding_installs_missing_settings() {
    let mut config = Config::new();
    let pack = ExternalConfig {
        version: "3".to_string(),
        keys: vec![
            ConfigKey::new("version.spam-filter", "3".to_string()),
            ConfigKey::new("spam.rule.one", "score 5".to_string()),
        ],
    };
    let inserts = seed_missing_settings(&mut config, Some(Ok(pack)));

    let hostname = config.value("lookup.default.hostname").expect("hostname seeded");
    assert!(!hostname.is_empty());
    let oauth = config.value("oauth.key").expect("oauth key seeded");
    assert_eq!(oauth.chars().count(), 64);
    assert!(oauth.chars().all(is_alnum));
    assert_eq!(config.value("version.spam-filter").expect("pack key"), "3");
    assert_eq!(config.value("spam.rule.one").expect("pack key"), "score 5");
    assert_eq!(config.value("queue.quota.size.messages").expect("default"), "100000");
    assert_eq!(config.value("queue.quota.size.size").expect("default"), "10737418240");
    assert_eq!(config.value("session.throttle.sender.rate").expect("default"), "25/1h");
    assert_eq!(config.value("report.analysis.addresses").expect("default"), "postmaster@*");

    // The persistence batch agrees with the configuration: replaying it into
    // a fresh map yields the same values the configuration now holds.
    assert_eq!(inserts.len(), 2 + 2 + 14);
    for item in &inserts {
        let stored = inserts
            .iter()
            .rev()
            .find(|other| other.key == item.key)
            .expect("its own entry");
        assert_eq!(config.value(&item.key).expect("inserted key present"), &stored.value);
    }
}

#[test]
fn seeding_twice_is_a_no_op() {
    let mut config = Config::new();
    let pack = ExternalConfig {
        version: "3".to_string(),
        keys: vec![ConfigKey::new("version.spam-filter", "3".to_string())],
    };
    let first = seed_missing_settings(&mut config, Some(Ok(pack)));
    assert!(!first.is_empty());
    let oauth_before = config.value("oauth.key").expect("seeded").clone();
    let keys_before = config.keys.len();

    assert!(!needs_spam_filter(&config));
    let second = seed_missing_settings(&mut config, None);
    assert!(second.is_empty());
    assert_eq!(config.keys.len(), keys_before);
    assert_eq!(config.value("oauth.key").expect("unchanged"), &oauth_before);
}

#[test]
fn webadmin_failures_become_build_errors() {
    let mut config = Config::new();
    record_webadmin_outcome(&mut config, WebadminOutcome::AlreadyPresent);
    record_webadmin_outcome(&mut config, WebadminOutcome::Stored);
    assert!(config.build_errors.is_empty());

    record_webadmin_outcome(&mut config, WebadminOutcome::AccessFailed("boom".to_string()));
    assert_eq!(
        config.build_errors.last().expect("recorded").message,
        "Failed to access webadmin blob: boom"
    );
    record_webadmin_outcome(&mut config, WebadminOutcome::DownloadFailed("404".to_string()));
    assert_eq!(
        config.build_errors.last().expect("recorded").message,
        "Failed to download webadmin: 404"
    );
    record_webadmin_outcome(&mut config, WebadminOutcome::StoreFailed("disk".to_string()));
    assert_eq!(
        config.build_errors.last().expect("recorded").message,
        "Failed to store webadmin blob: disk"
    );
    assert_eq!(config.build_errors.len(), 3);
    assert!(config.keys.is_empty());
}

#[test]
fn boot_stages_bind_before_dropping_before_opening() {
    let mut sequencer = BootSequencer::new();
    let mut seen: Vec<BootStage> = vec![sequencer.current()];
    while sequencer.current() != BootStage::Done {
        assert_eq!(
            sequencer.may_open_stores(),
            sequencer.current() == BootStage::OpenStores
        );
        sequencer.advance();
        seen.push(sequencer.current());
    }
    let position = |stage: BootStage| seen.iter().position(|s| *s == stage).expect("stage runs");
    assert!(position(BootStage::BindPorts) < position(BootStage::DropPrivileges));
    assert!(position(BootStage::DropPrivileges) < position(BootStage::OpenStores));
    assert!(position(BootStage::OpenStores) < position(BootStage::BuildSharedCore));
    assert_eq!(seen.len(), 15);
}

#[test]
fn parse_config_text() {
    let mut config = Config::new();
    let text = "top = 1\n[server.listener.smtp]\nbind = \"[::]:25\"\nprotocol = smtp\n\n# comment\n[storage]\ndata = \"rocksdb\"\n";
    assert!(config.parse(text).is_ok());
    assert_eq!(config.value("top").expect("top level"), "1");
    assert_eq!(config.value("server.listener.smtp.bind").expect("quoted"), "[::]:25");
    assert_eq!(config.value("server.listener.smtp.protocol").expect("bare"), "smtp");
    assert_eq!(config.value("storage.data").expect("second section"), "rocksdb");
    assert!(config.value("missing").is_none());

    // Last write wins on duplicate keys.
    let mut config = Config::new();
    assert!(config.parse("x = 1\nx = 2").is_ok());
    assert_eq!(config.value("x").expect("bound"), "2");

    // A malformed line rejects the file.
    let mut config = Config::new();
    let err = config.parse("nonsense without equals").err().expect("rejected");
    assert_eq!(err, "Invalid configuration file");
    let mut config = Config::new();
    assert!(config.parse("[unclosed\n").is_err());
}

#[test]
fn empty_rule_pack_still_installs_defaults() {
    let mut config = Config::new();
    config.insert(ConfigKey::new("lookup.default.hostname", "mail.example.org".to_string()));
    config.insert(ConfigKey::new("oauth.key", "k".repeat(64)));
    let inserts = seed_missing_settings(
        &mut config,
        Some(Ok(ExternalConfig { version: "0".to_string(), keys: vec![] })),
    );
    assert_eq!(inserts.len(), 14);
    assert_eq!(config.value("queue.throttle.rcpt.key").expect("default"), "rcpt_domain");
    assert_eq!(
        config.value("lookup.default.hostname").expect("untouched"),
        "mail.example.org"
    );
}

#[test]
fn stored_settings_extend_the_config() {
    let mut config = Config::new();
    config.insert(ConfigKey::new("server.hostname", "file.example.org".to_string()));
    config.insert(ConfigKey::new("local.only", "file".to_string()));

    let stored = vec![
        ConfigKey::new("server.hostname", "store.example.org".to_string()),
        ConfigKey::new("spam.rule.two", "score 1".to_string()),
        ConfigKey::new("local.only", "store".to_string()),
    ];

    // With no configured patterns every stored key is imported and the
    // store wins on conflict.
    let all = Patterns::match_all();
    let mut merged = Config::new();
    merged.insert(ConfigKey::new("server.hostname", "file.example.org".to_string()));
    extend_config(&mut merged, &all, &stored);
    assert_eq!(merged.value("server.hostname").expect("store wins"), "store.example.org");
    assert_eq!(merged.value("spam.rule.two").expect("imported"), "score 1");

    // An exclusion keeps the matching keys file-local; the first matching
    // pattern decides.
    let patterns = Patterns::parse_items(&vec!["!local.*".to_string(), "*".to_string()]);
    extend_config(&mut config, &patterns, &stored);
    assert_eq!(config.value("server.hostname").expect("store wins"), "store.example.org");
    assert_eq!(config.value("spam.rule.two").expect("imported"), "score 1");
    assert_eq!(config.value("local.only").expect("kept"), "file");
}

#[test]
fn pattern_forms() {
    let exact = Pattern::parse("oauth.key");
    assert!(!exact.exclude && !exact.prefix);
    assert!(exact.covers("oauth.key"));
    assert!(!exact.covers("oauth.keys"));

    let prefix = Pattern::parse("queue.*");
    assert!(!prefix.exclude && prefix.prefix);
    assert!(prefix.covers("queue.quota.size.messages"));
    assert!(!prefix.covers("session.throttle.ip.key"));

    let negated = Pattern::parse("!certificate.*");
    assert!(negated.exclude && negated.prefix);

    let patterns = Patterns::parse_items(&vec!["!certificate.*".to_string(), "*".to_string()]);
    assert!(patterns.is_imported("queue.quota.size.enable"));
    assert!(!patterns.is_imported("certificate.default.key"));
    // A key nothing covers stays out.
    let only = Patterns::parse_items(&vec!["queue.*".to_string()]);
    assert!(!only.is_imported("session.throttle.ip.key"));
}

#[test]
fn macros_resolve_from_env_file_and_config() {
    let mut config = Config::new();
    assert!(config
        .parse("base = \"/srv\"\npath = \"%{cfg:base}/data\"\nuser = \"%{env:RUN_AS}\"\nmotd = \"%{file:/etc/motd}\"\nbad = \"%{env:MISSING} and %{oops\"")
        .is_ok());
    let env = vec![ConfigKey::new("RUN_AS", "mail".to_string())];
    let files = vec![ConfigKey::new("/etc/motd", "hello".to_string())];
    config.resolve_macros(&env, &files);

    assert_eq!(config.value("path").expect("cfg macro"), "/srv/data");
    assert_eq!(config.value("user").expect("env macro"), "mail");
    assert_eq!(config.value("motd").expect("file macro"), "hello");
    // An unresolved macro stays verbatim and is recorded once; a macro with
    // no closing brace is plain text.
    assert_eq!(config.value("bad").expect("kept"), "%{env:MISSING} and %{oops");
    assert_eq!(config.build_errors.len(), 1);
    assert_eq!(config.build_errors[0].message, "Unresolved macro: env:MISSING");
    assert_eq!(config.build_errors[0].pattern, "*");

    // Resolution of a single value, directly.
    let (resolved, missing) = resolve_macro_value("a %{env:RUN_AS} b", &env, &files, &vec![]);
    assert_eq!(resolved, "a mail b");
    assert!(missing.is_empty());
}

#[test]
fn core_snapshot_reads_periods_and_stores() {
    let mut config = Config::new();
    config.insert(ConfigKey::new("jmap.session.purge.frequency", "60000".to_string()));
    config.insert(ConfigKey::new("jmap.account.purge.frequency", "oops".to_string()));
    config.insert(ConfigKey::new("storage.data", "rocksdb".to_string()));
    config.insert(ConfigKey::new("storage.lookup", "redis".to_string()));
    let core = core_snapshot_from(&config);
    assert!(core.check_wf());
    assert_eq!(core.session_purge_frequency.period, 60000);
    // A malformed period falls back to one hour.
    assert_eq!(core.account_purge_frequency.period, 3_600_000);
    assert_eq!(core.purge_schedules.len(), 2);
    assert_eq!(core.purge_schedules[0].store_id, "rocksdb");
    assert!(matches!(core.purge_schedules[0].kind, PurgeKind::Data));
    assert_eq!(core.purge_schedules[1].store_id, "redis");
    assert!(matches!(core.purge_schedules[1].kind, PurgeKind::Lookup));
    assert!(core.acme_provider_ids.is_empty());
    assert!(core.license_expires_in.is_none());
}

#[test]
fn flag_values_trim_unicode_whitespace() {
    // The original trims with the std Unicode trim; a no-break space padded
    // value loses its padding too.
    let arg = format!("--config=\u{a0}/tmp/z\u{2003} ");
    let r = resolve_config_source(None, None, &vec![arg]);
    assert!(matches!(r, Ok(ConfigSource::File(p)) if p == "/tmp/z"));
}

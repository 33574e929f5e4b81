use bootkeeper::config::Config;
use bootkeeper::quickstart::{
    password_matches, quickstart_plan, quickstart_secret, render_quickstart_config, replace_all,
    QUICKSTART_CONFIG,
};

#[test]
fn quickstart_admin_secret() {
    let (password, hash) =
        quickstart_secret(Some("hunter2".to_string())).expect("hashing succeeds");
    assert_eq!(password, "hunter2");
    assert!(hash.starts_with("$6$"));
    assert!(password_matches("hunter2", &hash));
    assert!(!password_matches("wrong", &hash));

    let (generated, generated_hash) = quickstart_secret(None).expect("hashing succeeds");
    assert_eq!(generated.chars().count(), 10);
    assert!(generated.chars().all(|c| c.is_ascii_alphanumeric()));
    assert!(password_matches(&generated, &generated_hash));
}

#[test]
fn quickstart_config_round_trip() {
    let (_, hash) = quickstart_secret(Some("hunter2".to_string())).expect("hashing succeeds");
    let rendered = render_quickstart_config("/tmp/q", &hash);
    assert!(rendered.contains("path = \"/tmp/q/data\""));
    assert!(rendered.contains("path = \"/tmp/q/logs\""));
    assert!(!rendered.contains("_P_"));
    assert!(!rendered.contains("_S_"));

    let mut config = Config::new();
    assert!(config.parse(&rendered).is_ok());
    assert_eq!(config.value("authentication.fallback-admin.user").expect("admin user"), "admin");
    let secret = config.value("authentication.fallback-admin.secret").expect("admin secret");
    assert_eq!(secret, &hash);
    assert!(password_matches("hunter2", secret));
    assert_eq!(config.value("server.listener.smtp.bind").expect("listener"), "[::]:25");
    assert_eq!(config.value("storage.data").expect("storage"), "rocksdb");
    assert_eq!(config.value("store.rocksdb.path").expect("store path"), "/tmp/q/data");
    assert_eq!(config.value("tracer.log.path").expect("tracer path"), "/tmp/q/logs");
}

#[test]
fn quickstart_preserves_existing_directories() {
    let plan = quickstart_plan(true, true, false, true);
    assert!(!plan.create_root);
    assert!(!plan.create_etc);
    assert!(plan.create_data);
    assert!(!plan.create_logs);

    let fresh = quickstart_plan(false, false, false, false);
    assert!(fresh.create_root && fresh.create_etc && fresh.create_data && fresh.create_logs);
}

#[test]
fn replace_all_substitutes_every_occurrence() {
    assert_eq!(replace_all("a_X_b_X_", "_X_", "YY"), "aYYbYY");
    assert_eq!(replace_all("no markers", "_X_", "YY"), "no markers");
    assert_eq!(replace_all("_X__X_", "_X_", ""), "");
    // Replacement scans left to right and never re-scans replaced text.
    assert_eq!(replace_all("aaa", "aa", "b"), "ba");
    assert_eq!(replace_all("abab", "ab", "ba"), "baba");
    // The template carries both markers.
    assert!(QUICKSTART_CONFIG.contains("_P_"));
    assert!(QUICKSTART_CONFIG.contains("_S_"));
}

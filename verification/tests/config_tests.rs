use std::time::Duration;

use csp_service::config::{
    BuildError, Config, Manager, Pool, PoolConfig, Runtime, Timeouts,
};
use csp_service::state::{AppState, StartupError};
use csp_service::text::{
    join_path, opt_clone, opt_eq, or_empty, starts_with_ignore_ascii_case, str_lt, take_prefix,
};

#[test]
fn config_new_has_the_path_and_no_pool_settings() {
    let c = Config::new("/data/tokens.db".to_string());
    assert_eq!(c.path, "/data/tokens.db");
    assert_eq!(c.pool, None);
}

#[test]
fn get_pool_config_returns_what_was_configured() {
    let own = PoolConfig { max_size: 7, timeouts: Timeouts { wait: Some(Duration::from_millis(5)), create: None, recycle: None } };
    let c = Config { path: "p".to_string(), pool: Some(own) };
    assert_eq!(c.get_pool_config(), own);
}

#[test]
fn get_pool_config_defaults_to_no_timeouts_and_some_room() {
    let c = Config::new("p".to_string());
    let d = c.get_pool_config();
    assert_eq!(d.timeouts, Timeouts::new());
    assert!(d.max_size >= 4);
    assert_eq!(d.max_size % 4, 0);
}

#[test]
fn pool_config_new_sets_size_and_no_timeouts() {
    let c = PoolConfig::new(9);
    assert_eq!(c.max_size, 9);
    assert_eq!(c.timeouts, Timeouts { wait: None, create: None, recycle: None });
}

#[test]
fn builder_carries_path_settings_and_runtime() {
    let own = PoolConfig::new(3);
    let c = Config { path: "/data/tokens.db".to_string(), pool: Some(own) };
    let b = c.builder(Runtime::Tokio1).unwrap();
    assert_eq!(b.manager, Manager { config: c.clone(), runtime: Runtime::Tokio1 });
    assert_eq!(b.config, own);
    assert_eq!(b.runtime, Some(Runtime::Tokio1));
}

#[test]
fn create_pool_builds_the_described_pool() {
    let own = PoolConfig { max_size: 5, timeouts: Timeouts { wait: None, create: Some(Duration::from_secs(1)), recycle: None } };
    let c = Config { path: "/data/tokens.db".to_string(), pool: Some(own) };
    let pool = c.create_pool(Runtime::AsyncStd1).unwrap();
    assert_eq!(
        pool,
        Pool {
            manager: Manager { config: c.clone(), runtime: Runtime::AsyncStd1 },
            config: own,
            runtime: Some(Runtime::AsyncStd1),
        }
    );
}

#[test]
fn build_fails_with_timeouts_and_no_runtime() {
    let manager = Manager::from_config(&Config::new("p".to_string()), Runtime::Tokio1);
    let waits = Timeouts { wait: Some(Duration::from_secs(1)), create: None, recycle: None };
    let creates = Timeouts { wait: None, create: Some(Duration::from_secs(1)), recycle: None };
    let recycles = Timeouts { wait: None, create: None, recycle: Some(Duration::from_secs(1)) };
    for t in [waits, creates, recycles] {
        let b = Pool::builder(manager.clone()).config(PoolConfig { max_size: 1, timeouts: t });
        assert_eq!(b.build(), Err(BuildError::NoRuntimeSpecified));
        let b = Pool::builder(manager.clone())
            .config(PoolConfig { max_size: 1, timeouts: t })
            .runtime(Runtime::Tokio1);
        assert!(b.build().is_ok());
    }
    let b = Pool::builder(manager.clone());
    assert_eq!(b.runtime, None);
    assert_eq!(b.config.timeouts, Timeouts::new());
    let pool = b.config(PoolConfig::new(2)).build().unwrap();
    assert_eq!(pool.config.max_size, 2);
    assert_eq!(pool.runtime, None);
}

#[test]
fn resize_changes_only_the_size() {
    let c = Config::new("p".to_string());
    let mut pool = c.create_pool(Runtime::Tokio1).unwrap();
    let before = pool.clone();
    pool.resize(2);
    assert_eq!(pool.config.max_size, 2);
    assert_eq!(pool.config.timeouts, before.config.timeouts);
    assert_eq!(pool.manager, before.manager);
    assert_eq!(pool.runtime, before.runtime);
}

#[test]
fn make_app_state_uses_the_default_data_directory() {
    let s = AppState::make_app_state(None, Some("k".to_string())).unwrap();
    assert_eq!(s.secret_key, "k");
    assert_eq!(s.db_pool.manager.config.path, "/tmp/metlo_csp/metlo_csp.db");
    assert_eq!(s.db_pool.manager.config.pool, None);
    assert_eq!(s.db_pool.manager.runtime, Runtime::Tokio1);
    assert_eq!(s.db_pool.runtime, Some(Runtime::Tokio1));
    assert_eq!(s.db_pool.config.max_size, 2);
    assert_eq!(s.db_pool.config.timeouts, Timeouts::new());
    assert_eq!(s.duckdb_path, "/tmp/metlo_csp/metlo_csp.duckdb");
    assert_eq!(s.duckdb_pool_size, 4);
}

#[test]
fn make_app_state_puts_the_stores_under_the_given_directory() {
    let s = AppState::make_app_state(Some("/var/lib/csp".to_string()), Some("k".to_string())).unwrap();
    assert_eq!(s.db_pool.manager.config.path, "/var/lib/csp/metlo_csp.db");
    assert_eq!(s.duckdb_path, "/var/lib/csp/metlo_csp.duckdb");
    let s = AppState::make_app_state(Some("data/".to_string()), Some("k".to_string())).unwrap();
    assert_eq!(s.db_pool.manager.config.path, "data/metlo_csp.db");
    assert_eq!(s.duckdb_path, "data/metlo_csp.duckdb");
    let s = AppState::make_app_state(Some(String::new()), Some("k".to_string())).unwrap();
    assert_eq!(s.db_pool.manager.config.path, "metlo_csp.db");
    assert_eq!(s.duckdb_path, "metlo_csp.duckdb");
}

#[test]
fn make_app_state_needs_the_secret() {
    assert_eq!(AppState::make_app_state(None, None), Err(StartupError::MissingSecretKey));
    assert_eq!(
        AppState::make_app_state(Some("/x".to_string()), None),
        Err(StartupError::MissingSecretKey)
    );
    assert!(AppState::make_app_state(None, Some(String::new())).is_ok());
}

#[test]
fn join_path_puts_one_slash_between() {
    assert_eq!(join_path("/a", "b"), "/a/b");
    assert_eq!(join_path("/a/", "b"), "/a/b");
    assert_eq!(join_path("", "b"), "b");
    assert_eq!(join_path("/", "b"), "/b");
    assert_eq!(join_path("d\u{e9}p\u{f4}t", "b"), "d\u{e9}p\u{f4}t/b");
}

#[test]
fn take_prefix_counts_characters() {
    assert_eq!(take_prefix("abcdefg", 5), "abcde");
    assert_eq!(take_prefix("abc", 5), "abc");
    assert_eq!(take_prefix("abcde", 5), "abcde");
    assert_eq!(take_prefix("", 5), "");
    assert_eq!(take_prefix("abc", 0), "");
    assert_eq!(take_prefix("\u{e9}\u{e9}\u{e9}\u{e9}\u{e9}\u{e9}", 5), "\u{e9}\u{e9}\u{e9}\u{e9}\u{e9}");
}

#[test]
fn str_lt_is_the_lexicographic_order() {
    assert!(str_lt("2024-01-01", "2024-01-02"));
    assert!(!str_lt("2024-01-02", "2024-01-01"));
    assert!(!str_lt("abc", "abc"));
    assert!(str_lt("ab", "abc"));
    assert!(!str_lt("abc", "ab"));
    assert!(str_lt("", "a"));
    assert!(!str_lt("", ""));
    assert!(str_lt("Z", "a"));
    assert!(str_lt("z", "\u{e9}"));
    for (a, b) in [("a", "b"), ("10", "9"), ("x", "x"), ("\u{10000}", "\u{ffff}")] {
        assert_eq!(str_lt(a, b), a < b);
    }
}

#[test]
fn starts_with_ignore_ascii_case_compares_letters_only_loosely() {
    assert!(starts_with_ignore_ascii_case("script-src-elem", "script-src"));
    assert!(starts_with_ignore_ascii_case("SCRIPT-SRC", "script-src"));
    assert!(starts_with_ignore_ascii_case("script-src", "SCRIPT-src"));
    assert!(starts_with_ignore_ascii_case("anything", ""));
    assert!(!starts_with_ignore_ascii_case("script", "script-src"));
    assert!(!starts_with_ignore_ascii_case("script_src", "script-src"));
    assert!(!starts_with_ignore_ascii_case("@bc", "`bc"));
    assert!(!starts_with_ignore_ascii_case("[x", "{x"));
    assert!(!starts_with_ignore_ascii_case("\u{c9}", "\u{e9}"));
}

#[test]
fn optional_text_helpers() {
    let a = Some("x".to_string());
    let b = Some("y".to_string());
    assert!(opt_eq(&a, &a.clone()));
    assert!(!opt_eq(&a, &b));
    assert!(!opt_eq(&a, &None));
    assert!(opt_eq(&None, &None));
    assert_eq!(opt_clone(&a), a);
    assert_eq!(opt_clone(&None), None);
    assert_eq!(or_empty(a), "x");
    assert_eq!(or_empty(None), "");
}

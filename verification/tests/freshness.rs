use dq::cache::CacheMeta;
use dq::cache::CachesManager;
use dq::config::Config;
use dq::update::UpdateArgs;

fn manager(last: u64, interval: u64, force: bool) -> CachesManager {
    CachesManager::new(
        String::from("root"),
        interval,
        force,
        Some(CacheMeta { last_modified: last }),
    )
}

#[test]
fn refresh_is_strictly_after_interval() {
    let m = manager(1000, 3600, false);
    assert!(!m.should_refresh_cache(1000));
    assert!(!m.should_refresh_cache(1000 + 3600));
    assert!(m.should_refresh_cache(1000 + 3601));
}

#[test]
fn refresh_boundary_is_fresh() {
    let m = manager(50, 10, false);
    assert!(!m.should_refresh_cache(60));
    assert!(m.should_refresh_cache(61));
}

#[test]
fn force_always_refreshes() {
    let m = manager(1000, 3600, true);
    assert!(m.should_refresh_cache(1000));
    assert!(m.should_refresh_cache(0));
}

#[test]
fn clock_before_last_refresh_is_fresh() {
    let m = manager(1000, 10, false);
    assert!(!m.should_refresh_cache(500));
}

#[test]
fn missing_meta_counts_as_epoch_zero() {
    let m = CachesManager::new(String::from("root"), 86400, false, None);
    assert_eq!(m.last_modified, 0);
    assert!(m.should_refresh_cache(86401));
    assert!(!m.should_refresh_cache(86400));
}

#[test]
fn flush_meta_records_now() {
    let mut m = manager(1000, 3600, false);
    let meta = m.flush_meta(5000);
    assert_eq!(meta.last_modified, 5000);
    assert_eq!(m.last_modified, 5000);
    assert!(!m.should_refresh_cache(5000 + 3600));
}

#[test]
fn config_defaults() {
    let c = Config::default();
    assert_eq!(c.cache_dir("/fallback"), "/fallback");
    assert!(c.progress());
    assert_eq!(c.update_interval(), 86400);
    assert!(!c.force());
    assert_eq!(c.limit(), 5);
}

#[test]
fn config_set_values_win() {
    let c = Config {
        cache_dir: Some(String::from("/cache")),
        progress: Some(false),
        update_interval: Some(60),
        force: Some(true),
        limit: Some(2),
    };
    assert_eq!(c.cache_dir("/fallback"), "/cache");
    assert!(!c.progress());
    assert_eq!(c.update_interval(), 60);
    assert!(c.force());
    assert_eq!(c.limit(), 2);
}

#[test]
fn config_extends_overlays_set_fields() {
    let base = Config {
        cache_dir: Some(String::from("/base")),
        progress: Some(true),
        update_interval: Some(60),
        force: None,
        limit: None,
    };
    let over = Config {
        cache_dir: None,
        progress: Some(false),
        update_interval: None,
        force: Some(true),
        limit: Some(7),
    };
    let merged = base.extends(over);
    assert_eq!(merged.cache_dir, Some(String::from("/base")));
    assert_eq!(merged.progress, Some(false));
    assert_eq!(merged.update_interval, Some(60));
    assert_eq!(merged.force, Some(true));
    assert_eq!(merged.limit, Some(7));
}

#[test]
fn config_new_from_file_falls_back_to_default() {
    let loaded = Config::new_from_file(Some(Config {
        cache_dir: None,
        progress: None,
        update_interval: Some(30),
        force: None,
        limit: None,
    }));
    assert_eq!(loaded.update_interval(), 30);
    let missing = Config::new_from_file(None);
    assert_eq!(missing.update_interval(), 86400);
    assert!(missing.cache_dir.is_none());
}

#[test]
fn update_args_become_config_overrides() {
    let args = UpdateArgs {
        force: true,
        all: false,
        no_progress: true,
        cache_dir: Some(String::from("/tmp/dq")),
        limit: 3,
        slugs: vec![String::from("rust")],
    };
    let c = Config::from(args);
    assert_eq!(c.cache_dir, Some(String::from("/tmp/dq")));
    assert_eq!(c.progress, Some(false));
    assert_eq!(c.update_interval, None);
    assert_eq!(c.force, Some(true));
    assert_eq!(c.limit, Some(3));
}

#[test]
fn update_args_without_flags_override_nothing() {
    let args = UpdateArgs {
        force: false,
        all: true,
        no_progress: false,
        cache_dir: None,
        limit: 5,
        slugs: Vec::new(),
    };
    let c = Config::from(args);
    assert_eq!(c.progress, None);
    assert_eq!(c.force, None);
    assert_eq!(c.cache_dir, None);
}

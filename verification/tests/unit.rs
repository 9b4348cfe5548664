use dq::cache::CacheMeta;
use dq::cache::CachesManager;
use dq::entity::devdocs_meta_url;
use dq::entity::Docset;
use dq::entity::Entry;
use dq::paths::build_cache_path;
use dq::paths::join_path;
use dq::paths::page_file_path;
use dq::store::FileSys;
use dq::update::join_fetch_results;
use dq::update::ContentBundle;
use dq::StoreError;

fn docset(slug: &str, mtime: i64) -> Docset {
    Docset {
        name: String::from(slug),
        slug: String::from(slug),
        doc_type: String::from("api"),
        links: None,
        version: None,
        release: None,
        mtime,
        db_size: 0,
    }
}

#[test]
fn paths_and_urls_embed_slug_and_generation() {
    let d = docset("rust", 1702414201);
    assert_eq!(d.base_directory(), "rust/1702414201");
    assert_eq!(d.index_filename(), "rust/1702414201/index.json");
    assert_eq!(d.db_filename(), "rust/1702414201/db.json");
    assert_eq!(d.db_directory(), "rust/1702414201/db");
    assert_eq!(
        d.index_url(),
        "https://documents.devdocs.io/rust/index.json?1702414201"
    );
    assert_eq!(d.db_url(), "https://documents.devdocs.io/rust/db.json?1702414201");
    assert_eq!(devdocs_meta_url(), "https://devdocs.io/docs.json");
}

#[test]
fn negative_modification_token_renders_with_sign() {
    let d = docset("x", -5);
    assert_eq!(d.base_directory(), "x/-5");
}

#[test]
fn zero_token_renders_as_single_digit() {
    let d = docset("x", 0);
    assert_eq!(d.base_directory(), "x/0");
}

#[test]
fn extreme_tokens_render_fully() {
    let low = docset("x", i64::MIN);
    assert_eq!(low.base_directory(), "x/-9223372036854775808");
    let high = docset("x", i64::MAX);
    assert_eq!(high.base_directory(), "x/9223372036854775807");
}

#[test]
fn path_helpers_join_with_separators() {
    assert_eq!(join_path("a", "b"), "a/b");
    assert_eq!(build_cache_path("/home/u/.cache/dq", "docsets.json"), "/home/u/.cache/dq/docsets.json");
    assert_eq!(page_file_path("rust/1/db", "std/vec"), "rust/1/db/std/vec/_index");
}

#[test]
fn join_prefers_the_index_error() {
    let both: Result<(String, ContentBundle), StoreError> = join_fetch_results(
        Err(StoreError::NetworkError),
        Err(StoreError::IoError),
    );
    assert!(matches!(both, Err(StoreError::NetworkError)));

    let db_side = join_fetch_results(
        Ok(String::from("idx")),
        Err(StoreError::IoError),
    );
    assert!(matches!(db_side, Err(StoreError::IoError)));

    let ok = join_fetch_results(
        Ok(String::from("idx")),
        Ok(ContentBundle { raw: String::from("raw"), pages: Vec::new() }),
    );
    let (idx, bundle) = ok.unwrap();
    assert_eq!(idx, "idx");
    assert_eq!(bundle.raw, "raw");
}

#[test]
fn unpack_writes_one_file_per_page() {
    // Content bundle {"a/b": "hello", "c": "world"}: unpacking produces
    // .../db/a/b/_index holding "hello" and .../db/c/_index holding "world".
    let d = docset("s", 1);
    let mut fs = FileSys::new();
    let bundle = ContentBundle {
        raw: String::from("{\"a/b\":\"hello\",\"c\":\"world\"}"),
        pages: vec![
            (String::from("a/b"), String::from("hello")),
            (String::from("c"), String::from("world")),
        ],
    };
    let out = d.update_all(&mut fs, Ok(String::from("IDX")), Ok(bundle), "tmp-1", "tmp-2");
    assert_eq!(out.unwrap(), "IDX");
    assert_eq!(fs.read_from_cache("s/1/index.json").unwrap(), "IDX");
    assert_eq!(
        fs.read_from_cache("s/1/db.json").unwrap(),
        "{\"a/b\":\"hello\",\"c\":\"world\"}"
    );
    assert_eq!(fs.read_from_cache("s/1/db/a/b/_index").unwrap(), "hello");
    assert_eq!(fs.read_from_cache("s/1/db/c/_index").unwrap(), "world");
}

#[test]
fn failed_bundle_fetch_fails_the_unit_and_writes_no_page() {
    // Index fetch succeeds, bundle fetch fails: the unit fails with the
    // bundle's error, no per-page file is written, and the unit's index
    // result is discarded by the caller.
    let d = docset("s", 1);
    let mut fs = FileSys::new();
    let out = d.update_all(
        &mut fs,
        Ok(String::from("IDX")),
        Err(StoreError::NetworkError),
        "tmp-1",
        "tmp-2",
    );
    assert!(matches!(out, Err(StoreError::NetworkError)));
    assert!(!fs.cache_file_exists("s/1/db.json"));
    assert!(!fs.cache_file_exists("s/1/db/a/b/_index"));
    // The successfully fetched index is cached completely, never partially.
    assert_eq!(fs.read_from_cache("s/1/index.json").unwrap(), "IDX");
}

#[test]
fn failed_index_fetch_takes_precedence() {
    let d = docset("s", 1);
    let mut fs = FileSys::new();
    let out = d.update_all(
        &mut fs,
        Err(StoreError::ParseError { key: String::from("s/1/index.json") }),
        Ok(ContentBundle {
            raw: String::from("{}"),
            pages: Vec::new(),
        }),
        "tmp-1",
        "tmp-2",
    );
    match out {
        Err(StoreError::ParseError { key }) => assert_eq!(key, "s/1/index.json"),
        _ => panic!("expected the index fetch's parse error"),
    }
    assert!(!fs.cache_file_exists("s/1/index.json"));
    assert_eq!(fs.read_from_cache("s/1/db.json").unwrap(), "{}");
}

#[test]
fn fresh_catalog_is_read_from_cache_without_network() {
    // Cache meta timestamp equals the current instant and the interval is
    // an hour: the catalog is served from the cache with zero fetches.
    let now = 1_700_000_000;
    let mut fs = FileSys::new();
    fs.write_to_cache("docsets.json", "tmp-0", "[catalog]");
    let mut caches = CachesManager::new(
        String::from("root"),
        3600,
        false,
        Some(CacheMeta { last_modified: now }),
    );
    let r = Docset::try_to_fetch_docsets(
        &mut fs,
        &mut caches,
        now,
        Ok(String::from("[remote catalog]")),
        "tmp-1",
    );
    assert!(!r.fetched);
    assert_eq!(r.outcome.unwrap(), "[catalog]");
    assert!(r.new_meta.is_none());
    assert_eq!(caches.last_modified, now);
}

#[test]
fn stale_catalog_is_refetched_and_meta_advances() {
    let now = 1_700_000_000;
    let mut fs = FileSys::new();
    fs.write_to_cache("docsets.json", "tmp-0", "[old catalog]");
    let mut caches = CachesManager::new(
        String::from("root"),
        3600,
        false,
        Some(CacheMeta { last_modified: now - 7200 }),
    );
    let r = Docset::try_to_fetch_docsets(
        &mut fs,
        &mut caches,
        now,
        Ok(String::from("[new catalog]")),
        "tmp-1",
    );
    assert!(r.fetched);
    assert_eq!(r.outcome.unwrap(), "[new catalog]");
    assert_eq!(r.new_meta.unwrap().last_modified, now);
    assert_eq!(caches.last_modified, now);
    assert_eq!(fs.read_from_cache("docsets.json").unwrap(), "[new catalog]");
}

#[test]
fn failed_refresh_leaves_freshness_untouched() {
    let now = 1_700_000_000;
    let mut fs = FileSys::new();
    let mut caches = CachesManager::new(String::from("root"), 3600, false, None);
    let r = Docset::try_to_fetch_docsets(
        &mut fs,
        &mut caches,
        now,
        Err(StoreError::NetworkError),
        "tmp-1",
    );
    assert!(r.fetched);
    assert!(matches!(r.outcome, Err(StoreError::NetworkError)));
    assert!(r.new_meta.is_none());
    assert_eq!(caches.last_modified, 0);
    assert!(!fs.cache_file_exists("docsets.json"));
    // The next invocation retries the same refresh.
    assert!(caches.should_refresh_cache(now));
}

#[test]
fn forced_refresh_ignores_freshness() {
    let now = 1_700_000_000;
    let mut fs = FileSys::new();
    fs.write_to_cache("docsets.json", "tmp-0", "[catalog]");
    let mut caches = CachesManager::new(
        String::from("root"),
        3600,
        true,
        Some(CacheMeta { last_modified: now }),
    );
    let r = Docset::try_to_fetch_docsets(
        &mut fs,
        &mut caches,
        now,
        Ok(String::from("[forced catalog]")),
        "tmp-1",
    );
    assert!(r.fetched);
    assert_eq!(r.outcome.unwrap(), "[forced catalog]");
}

#[test]
fn entry_update_reuses_cached_index() {
    let d = docset("rust", 7);
    let mut fs = FileSys::new();
    fs.write_to_cache("rust/7/index.json", "tmp-0", "[entries]");
    let (value, fetched) = Entry::try_to_update(
        &mut fs,
        &d,
        Ok(String::from("[remote entries]")),
        "tmp-1",
    );
    assert!(!fetched);
    assert_eq!(value.unwrap(), "[entries]");
}

#[test]
fn entry_update_fetches_missing_index() {
    let d = docset("rust", 7);
    let mut fs = FileSys::new();
    let (value, fetched) = Entry::try_to_update(
        &mut fs,
        &d,
        Ok(String::from("[remote entries]")),
        "tmp-1",
    );
    assert!(fetched);
    assert_eq!(value.unwrap(), "[remote entries]");
    assert_eq!(fs.read_from_cache("rust/7/index.json").unwrap(), "[remote entries]");
}

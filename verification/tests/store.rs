use dq::store::FileSys;
use dq::StoreError;

#[test]
fn write_then_read_round_trips() {
    let mut fs = FileSys::new();
    fs.write_to_cache("docsets.json", "tmp-1", "[{\"slug\":\"rust\"}]");
    assert!(fs.cache_file_exists("docsets.json"));
    let back = fs.read_from_cache("docsets.json").unwrap();
    assert_eq!(back, "[{\"slug\":\"rust\"}]");
}

#[test]
fn write_replaces_previous_complete_value() {
    let mut fs = FileSys::new();
    fs.write_to_cache("k", "tmp-1", "one");
    fs.write_to_cache("k", "tmp-2", "two");
    assert_eq!(fs.read_from_cache("k").unwrap(), "two");
}

#[test]
fn read_missing_key_is_not_found() {
    let fs = FileSys::new();
    assert!(!fs.cache_file_exists("absent"));
    assert!(matches!(fs.read_from_cache("absent"), Err(StoreError::NotFound)));
}

#[test]
fn interrupted_write_leaves_destination_unchanged() {
    let mut fs = FileSys::new();
    fs.write_to_cache("k", "tmp-0", "old value");

    // The protocol stops after the temp file was created and partly
    // filled; the destination still holds the previous complete value.
    fs.create_temp("tmp-1");
    fs.append_temp("tmp-1", "new va");
    assert_eq!(fs.read_from_cache("k").unwrap(), "old value");

    // Resuming and renaming publishes the complete new value at once.
    fs.append_temp("tmp-1", "lue");
    fs.rename_file("tmp-1", "k");
    assert_eq!(fs.read_from_cache("k").unwrap(), "new value");
    assert!(!fs.cache_file_exists("tmp-1"));
}

#[test]
fn interrupted_first_write_leaves_destination_absent() {
    let mut fs = FileSys::new();
    fs.create_temp("tmp-1");
    fs.append_temp("tmp-1", "partial");
    assert!(!fs.cache_file_exists("k"));
    assert!(matches!(fs.read_from_cache("k"), Err(StoreError::NotFound)));
}

#[test]
fn fetch_or_read_skips_network_when_cached() {
    let mut fs = FileSys::new();
    fs.write_to_cache("k", "tmp-0", "cached");
    let (value, fetched) = fs.download_file(
        "k",
        Ok(String::from("remote")),
        "tmp-1",
        true,
    );
    assert!(!fetched);
    assert_eq!(value.unwrap(), "cached");
}

#[test]
fn fetch_or_read_twice_fetches_exactly_once() {
    let mut fs = FileSys::new();
    let (first, fetched1) = fs.download_file(
        "k",
        Ok(String::from("payload")),
        "tmp-1",
        true,
    );
    assert!(fetched1);
    assert_eq!(first.unwrap(), "payload");

    let (second, fetched2) = fs.download_file(
        "k",
        Ok(String::from("other payload")),
        "tmp-2",
        true,
    );
    assert!(!fetched2);
    assert_eq!(second.unwrap(), "payload");
}

#[test]
fn unconditional_fetch_refetches() {
    let mut fs = FileSys::new();
    fs.write_to_cache("k", "tmp-0", "cached");
    let (value, fetched) = fs.download_file(
        "k",
        Ok(String::from("remote")),
        "tmp-1",
        false,
    );
    assert!(fetched);
    assert_eq!(value.unwrap(), "remote");
    assert_eq!(fs.read_from_cache("k").unwrap(), "remote");
}

#[test]
fn failed_fetch_writes_nothing() {
    let mut fs = FileSys::new();
    let (value, fetched) = fs.download_file("k", Err(StoreError::NetworkError), "tmp-1", true);
    assert!(fetched);
    assert!(matches!(value, Err(StoreError::NetworkError)));
    assert!(!fs.cache_file_exists("k"));
    assert!(!fs.cache_file_exists("tmp-1"));
}

#[test]
fn parse_failure_is_surfaced_with_its_key() {
    let mut fs = FileSys::new();
    let (value, _) = fs.download_file(
        "rust/1/index.json",
        Err(StoreError::ParseError { key: String::from("rust/1/index.json") }),
        "tmp-1",
        false,
    );
    match value {
        Err(StoreError::ParseError { key }) => assert_eq!(key, "rust/1/index.json"),
        _ => panic!("expected a parse error"),
    }
}

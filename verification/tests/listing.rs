//! End-to-end tests of the listing engine: resolution, partial-failure
//! tolerance, ordering, the wire schema, and the response mapping.

use rindex::{
    path_within_root, query_directory, scan_entries, serialize_entries, sort_entries, DirLookup,
    ExplorerEntry, ExplorerError, MetaOutcome, QueryResult, RawEntry,
};

const EPOCH_DATE: &str = "Thu, 01 Jan 1970 00:00:00 GMT";
const OCT_2016_SECS: u64 = 1475419451;
const OCT_2016_DATE: &str = "Sun, 02 Oct 2016 14:44:11 GMT";
const NOV_1994_DATE: &str = "Sun, 06 Nov 1994 08:49:37 GMT";

fn raw_found(name: &str, is_dir: bool, size: u64, mtime_secs: u64) -> RawEntry {
    RawEntry {
        name: Some(name.to_string()),
        path: format!("/srv/{}", name),
        meta: MetaOutcome::Found { is_dir, size, mtime_secs },
    }
}

fn raw_broken_symlink(name: &str) -> RawEntry {
    RawEntry {
        name: Some(name.to_string()),
        path: format!("/srv/{}", name),
        meta: MetaOutcome::TargetMissing,
    }
}

fn dir_entry(name: &str, mtime: &str) -> ExplorerEntry {
    ExplorerEntry::Directory { mtime: mtime.to_string(), name: name.to_string() }
}

fn file_entry(name: &str, mtime: &str, size: u64) -> ExplorerEntry {
    ExplorerEntry::File { mtime: mtime.to_string(), name: name.to_string(), size }
}

fn success_body(lookup: DirLookup) -> String {
    match query_directory(lookup) {
        Ok(report) => match report.result {
            QueryResult::Success(body) => body,
            _ => panic!("expected a successful listing"),
        },
        Err(e) => panic!("expected a successful listing, got {}", e.describe()),
    }
}

#[test]
fn resolves_a_directory_child() {
    let raw = raw_found("music", true, 4096, 0);
    let entry = ExplorerEntry::new(raw).unwrap();
    assert_eq!(entry, dir_entry("music", EPOCH_DATE));
    assert!(entry.is_directory());
}

#[test]
fn resolves_a_file_child_with_its_size_and_mtime() {
    let raw = raw_found("song.flac", false, 123456, OCT_2016_SECS);
    let entry = ExplorerEntry::new(raw).unwrap();
    assert_eq!(entry, file_entry("song.flac", OCT_2016_DATE, 123456));
    assert!(!entry.is_directory());
}

#[test]
fn broken_symlink_resolves_to_its_error() {
    let raw = raw_broken_symlink("dangling");
    match ExplorerEntry::new(raw) {
        Err(ExplorerError::MissingSymlinkTarget(path)) => assert_eq!(path, "/srv/dangling"),
        _ => panic!("expected a missing-symlink-target error"),
    }
}

#[test]
fn nameless_child_resolves_to_invalid_file_name() {
    let raw = RawEntry {
        name: None,
        path: "/srv/\u{fffd}garbled".to_string(),
        meta: MetaOutcome::Found { is_dir: false, size: 1, mtime_secs: 0 },
    };
    match ExplorerEntry::new(raw) {
        Err(ExplorerError::InvalidFileName(path)) => assert_eq!(path, "/srv/\u{fffd}garbled"),
        _ => panic!("expected an invalid-file-name error"),
    }
}

#[test]
fn metadata_failure_resolves_to_metadata_error() {
    let raw = RawEntry {
        name: Some("secret".to_string()),
        path: "/srv/secret".to_string(),
        meta: MetaOutcome::Failed { detail: "permission denied".to_string() },
    };
    match ExplorerEntry::new(raw) {
        Err(ExplorerError::Metadata(detail)) => assert_eq!(detail, "permission denied"),
        _ => panic!("expected a metadata error"),
    }
}

#[test]
fn error_descriptions_name_the_failure() {
    let e = ExplorerError::MissingSymlinkTarget("/srv/x".to_string());
    assert_eq!(e.describe(), "Symlink to a non-existent target: /srv/x");
    let e = ExplorerError::InvalidFileName("/srv/y".to_string());
    assert_eq!(e.describe(), "Invalid file name: /srv/y");
    let e = ExplorerError::Metadata("boom".to_string());
    assert_eq!(e.describe(), "Metadata failure: boom");
}

#[test]
fn scan_drops_only_broken_symlinks() {
    let raws = vec![
        raw_found("a", false, 1, 0),
        raw_broken_symlink("ghost"),
        raw_found("b", true, 0, 0),
    ];
    let (entries, skipped) = scan_entries(raws).unwrap();
    assert_eq!(entries.len(), 2);
    assert_eq!(skipped, vec!["/srv/ghost".to_string()]);
}

#[test]
fn scan_aborts_on_a_metadata_failure() {
    let raws = vec![
        raw_found("a", false, 1, 0),
        RawEntry {
            name: Some("locked".to_string()),
            path: "/srv/locked".to_string(),
            meta: MetaOutcome::Failed { detail: "permission denied".to_string() },
        },
        raw_broken_symlink("ghost"),
    ];
    match scan_entries(raws) {
        Err(ExplorerError::Metadata(detail)) => assert_eq!(detail, "permission denied"),
        _ => panic!("expected the scan to abort"),
    }
}

#[test]
fn scan_aborts_on_an_invalid_name() {
    let raws = vec![
        raw_found("a", false, 1, 0),
        RawEntry {
            name: None,
            path: "/srv/garbled".to_string(),
            meta: MetaOutcome::Found { is_dir: false, size: 0, mtime_secs: 0 },
        },
    ];
    match scan_entries(raws) {
        Err(ExplorerError::InvalidFileName(path)) => assert_eq!(path, "/srv/garbled"),
        _ => panic!("expected the scan to abort"),
    }
}

#[test]
fn sort_puts_directories_first_then_names_bytewise() {
    let mut entries = vec![
        file_entry("b.txt", EPOCH_DATE, 1),
        dir_entry("z", EPOCH_DATE),
        file_entry("A.txt", EPOCH_DATE, 2),
        dir_entry("a", EPOCH_DATE),
        file_entry("a.txt", EPOCH_DATE, 3),
    ];
    sort_entries(&mut entries);
    let expected = vec![
        dir_entry("a", EPOCH_DATE),
        dir_entry("z", EPOCH_DATE),
        file_entry("A.txt", EPOCH_DATE, 2),
        file_entry("a.txt", EPOCH_DATE, 3),
        file_entry("b.txt", EPOCH_DATE, 1),
    ];
    assert_eq!(entries, expected);
}

#[test]
fn entry_order_is_bytewise_not_case_folded() {
    // 'Z' (0x5a) sorts before 'a' (0x61) byte-wise.
    let upper = file_entry("Zebra", EPOCH_DATE, 0);
    let lower = file_entry("apple", EPOCH_DATE, 0);
    assert!(upper.le(&lower));
    assert!(!lower.le(&upper));
    // A directory precedes a file whatever the names say.
    let dir = dir_entry("zzz", EPOCH_DATE);
    let file = file_entry("aaa", EPOCH_DATE, 0);
    assert!(dir.le(&file));
    assert!(!file.le(&dir));
    // A prefix precedes its extension.
    let short = file_entry("a", EPOCH_DATE, 0);
    let long = file_entry("ab", EPOCH_DATE, 0);
    assert!(short.le(&long));
    assert!(!long.le(&short));
}

#[test]
fn serializer_renders_the_schema_exactly() {
    let entries = vec![
        dir_entry("b", NOV_1994_DATE),
        file_entry("a.txt", OCT_2016_DATE, 10),
        file_entry("c.txt", EPOCH_DATE, 0),
    ];
    let body = serialize_entries(&entries);
    let expected = format!(
        "[{{\"type\":\"directory\",\"name\":\"b\",\"mtime\":\"{}\"}},\
         {{\"type\":\"file\",\"name\":\"a.txt\",\"mtime\":\"{}\",\"size\":10}},\
         {{\"type\":\"file\",\"name\":\"c.txt\",\"mtime\":\"{}\",\"size\":0}}]",
        NOV_1994_DATE, OCT_2016_DATE, EPOCH_DATE
    );
    assert_eq!(body, expected);
}

#[test]
fn serializer_escapes_quotes_backslashes_and_controls() {
    let entries = vec![file_entry("a\"b\\c\nd\u{1f}", EPOCH_DATE, 7)];
    let body = serialize_entries(&entries);
    let expected = format!(
        "[{{\"type\":\"file\",\"name\":\"a\\\"b\\\\c\\u000ad\\u001f\",\"mtime\":\"{}\",\"size\":7}}]",
        EPOCH_DATE
    );
    assert_eq!(body, expected);
}

#[test]
fn mixed_listing_example() {
    let lookup = DirLookup::Children(vec![
        raw_found("c.txt", false, 0, 0),
        raw_found("a.txt", false, 10, 0),
        raw_found("b", true, 4096, 0),
    ]);
    let body = success_body(lookup);
    let expected = format!(
        "[{{\"type\":\"directory\",\"name\":\"b\",\"mtime\":\"{d}\"}},\
         {{\"type\":\"file\",\"name\":\"a.txt\",\"mtime\":\"{d}\",\"size\":10}},\
         {{\"type\":\"file\",\"name\":\"c.txt\",\"mtime\":\"{d}\",\"size\":0}}]",
        d = EPOCH_DATE
    );
    assert_eq!(body, expected);
}

#[test]
fn empty_directory_lists_as_empty_array() {
    let report = query_directory(DirLookup::Children(Vec::new())).unwrap();
    assert_eq!(report.entry_count, 0);
    assert!(report.skipped.is_empty());
    match &report.result {
        QueryResult::Success(body) => assert_eq!(body, "[]"),
        _ => panic!("expected a successful listing"),
    }
    let (status, body) = report.result.response();
    assert_eq!(status, 200);
    assert_eq!(body, "[]");
}

#[test]
fn last_second_of_year_9999_still_formats() {
    let raw = raw_found("old", false, 1, rindex::HTTP_DATE_SECS_LIMIT - 1);
    let entry = ExplorerEntry::new(raw).unwrap();
    let body = serialize_entries(&vec![entry]);
    assert!(body.contains("9999 23:59:59 GMT"));
}

#[test]
fn containment_check_stops_paths_outside_the_root() {
    assert!(path_within_root("/srv", "/srv"));
    assert!(path_within_root("/srv", "/srv/music"));
    assert!(path_within_root("/srv", "/srv/music/live"));
    assert!(!path_within_root("/srv", "/srvx"));
    assert!(!path_within_root("/srv", "/etc/passwd"));
    assert!(!path_within_root("/srv", "/"));
    assert!(path_within_root("/", "/etc"));
    assert!(path_within_root("/", "/"));
}

#[test]
fn missing_path_maps_to_404() {
    let report = query_directory(DirLookup::Missing).unwrap();
    assert!(matches!(report.result, QueryResult::PathNotFound));
    let (status, body) = report.result.response();
    assert_eq!(status, 404);
    assert_eq!(body, "Path not found!");
}

#[test]
fn non_directory_path_maps_to_400() {
    let report = query_directory(DirLookup::NotDirectory).unwrap();
    assert!(matches!(report.result, QueryResult::NotDirectory));
    let (status, body) = report.result.response();
    assert_eq!(status, 400);
    assert_eq!(body, "Not a directory!");
}

#[test]
fn broken_symlink_is_tolerated_and_reported() {
    let lookup = DirLookup::Children(vec![
        raw_found("one", false, 1, 0),
        raw_found("two", false, 2, 0),
        raw_broken_symlink("ghost"),
        raw_found("three", true, 0, 0),
    ]);
    let report = query_directory(lookup).unwrap();
    assert_eq!(report.entry_count, 3);
    assert_eq!(report.skipped, vec!["/srv/ghost".to_string()]);
    match &report.result {
        QueryResult::Success(body) => {
            assert!(body.contains("\"one\""));
            assert!(body.contains("\"two\""));
            assert!(body.contains("\"three\""));
            assert!(!body.contains("ghost"));
        },
        _ => panic!("expected a successful listing"),
    }
}

#[test]
fn fatal_scan_failure_propagates_from_query() {
    let lookup = DirLookup::Children(vec![
        raw_found("fine", false, 1, 0),
        RawEntry {
            name: Some("locked".to_string()),
            path: "/srv/locked".to_string(),
            meta: MetaOutcome::Failed { detail: "io error".to_string() },
        },
    ]);
    match query_directory(lookup) {
        Err(ExplorerError::Metadata(detail)) => assert_eq!(detail, "io error"),
        _ => panic!("expected the query to fail"),
    }
}

#[test]
fn concurrent_style_scans_share_no_state() {
    // The engine is a pure function of its input: two interleaved queries
    // over different directories cannot mix entries or mtimes.
    let first = DirLookup::Children(vec![raw_found("alpha", false, 1, 0)]);
    let second = DirLookup::Children(vec![raw_found("beta", true, 0, OCT_2016_SECS)]);
    let body_one = success_body(first);
    let body_two = success_body(second);
    assert!(body_one.contains("alpha") && !body_one.contains("beta"));
    assert!(body_two.contains("beta") && !body_two.contains("alpha"));
    assert!(!body_one.contains(OCT_2016_DATE));
    assert!(body_two.contains(OCT_2016_DATE));
    // Running the first query again gives the identical answer.
    let again = DirLookup::Children(vec![raw_found("alpha", false, 1, 0)]);
    assert_eq!(success_body(again), body_one);
}

//! The serialized listing must round-trip through an independent JSON
//! parser: decoding reconstructs every entry, in order, with its variant,
//! name, mtime and (for files) size.

use rindex::{serialize_entries, ExplorerEntry};
use sonic_rs::{JsonContainerTrait, JsonValueTrait, Value};

fn entries_sample() -> Vec<ExplorerEntry> {
    vec![
        ExplorerEntry::Directory {
            mtime: "Sun, 06 Nov 1994 08:49:37 GMT".to_string(),
            name: "b".to_string(),
        },
        ExplorerEntry::File {
            mtime: "Sun, 02 Oct 2016 14:44:11 GMT".to_string(),
            name: "a \"quoted\" \\ name\n".to_string(),
            size: 10,
        },
        ExplorerEntry::File {
            mtime: "Thu, 01 Jan 1970 00:00:00 GMT".to_string(),
            name: "c.txt".to_string(),
            size: 0,
        },
    ]
}

fn decode(body: &str) -> Vec<ExplorerEntry> {
    let value: Value = sonic_rs::from_str(body).expect("the listing must be valid JSON");
    let array = value.as_array().expect("the listing must be a JSON array");
    let mut decoded = Vec::new();
    for item in array.iter() {
        let kind_value = item.get("type");
        let kind = kind_value.as_str().expect("every object carries a type tag");
        let name = item.get("name").as_str().expect("every object carries a name").to_string();
        let mtime = item.get("mtime").as_str().expect("every object carries an mtime").to_string();
        match kind {
            "directory" => {
                assert!(item.get("size").is_none(), "directory objects carry no size");
                decoded.push(ExplorerEntry::Directory { mtime, name });
            },
            "file" => {
                let size = item.get("size").as_u64().expect("file objects carry a size");
                decoded.push(ExplorerEntry::File { mtime, name, size });
            },
            other => panic!("unexpected type tag {}", other),
        }
    }
    decoded
}

#[test]
fn listing_round_trips_through_a_json_parser() {
    let entries = entries_sample();
    let body = serialize_entries(&entries);
    let decoded = decode(&body);
    assert_eq!(decoded, entries);
}

#[test]
fn empty_listing_round_trips() {
    let entries: Vec<ExplorerEntry> = Vec::new();
    let body = serialize_entries(&entries);
    assert_eq!(body, "[]");
    let decoded = decode(&body);
    assert!(decoded.is_empty());
}

#[test]
fn control_characters_survive_the_round_trip() {
    let entries = vec![ExplorerEntry::File {
        mtime: "Thu, 01 Jan 1970 00:00:00 GMT".to_string(),
        name: "tab\there\u{1}\u{1f}".to_string(),
        size: 9,
    }];
    let body = serialize_entries(&entries);
    let decoded = decode(&body);
    assert_eq!(decoded, entries);
}

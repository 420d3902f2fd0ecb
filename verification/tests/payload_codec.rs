//! The plaintext payload codec: serialization, first-line extraction,
//! metadata parsing and the edit rebuild.

use rspass::payload::{
    first_line_of, pair_is_storable, parse_payload_pairs, rebuild_payload, secret_is_storable,
    serialize_payload, Metadata,
};
use rspass::ErrorKind;

fn meta(pairs: &[(&str, &str)]) -> Vec<(String, String)> {
    pairs.iter().map(|(k, v)| (k.to_string(), v.to_string())).collect()
}

fn changes(cs: &[(&str, Option<&str>)]) -> Vec<(String, Option<String>)> {
    cs.iter().map(|(k, v)| (k.to_string(), v.map(|s| s.to_string()))).collect()
}

#[test]
fn serialize_layout() {
    let payload = serialize_payload("s3cret", &meta(&[("user", "alice"), ("url", "a=b")]));
    assert_eq!(payload, "s3cret\nuser=alice\nurl=a=b");
    assert_eq!(serialize_payload("bare", &meta(&[])), "bare");
    assert_eq!(serialize_payload("", &meta(&[("k", "")])), "\nk=");
}

#[test]
fn first_line_is_the_secret() {
    assert_eq!(first_line_of("s3cret\nuser=alice"), "s3cret");
    assert_eq!(first_line_of("no-metadata"), "no-metadata");
    assert_eq!(first_line_of(""), "");
    assert_eq!(first_line_of("\nk=v"), "");
}

#[test]
fn parse_pairs_round_trip() {
    let payload = serialize_payload(
        "top",
        &meta(&[("user", "alice"), ("url", "https://e.com?a=b"), ("user", "bob")]),
    );
    let parsed = parse_payload_pairs(&payload);
    assert_eq!(
        parsed,
        meta(&[("user", "alice"), ("url", "https://e.com?a=b"), ("user", "bob")])
    );
}

#[test]
fn parse_skips_lines_without_separator() {
    let parsed = parse_payload_pairs("secret\nplain line\nk=v");
    assert_eq!(parsed, meta(&[("k", "v")]));
    assert_eq!(parse_payload_pairs("only-secret"), meta(&[]));
}

#[test]
fn storability_checks() {
    assert!(secret_is_storable("p@ss=word"));
    assert!(!secret_is_storable("two\nlines"));
    assert!(pair_is_storable("user", "ali=ce"));
    assert!(!pair_is_storable("us=er", "alice"));
    assert!(!pair_is_storable("us\ner", "alice"));
    assert!(!pair_is_storable("user", "ali\nce"));
}

#[test]
fn rebuild_keeps_secret_and_applies_changes() {
    let current = "old\nuser=alice\nenv=prod";
    let rebuilt = rebuild_payload(
        current,
        None,
        &changes(&[("env", Some("dev")), ("team", Some("blue"))]),
    )
    .unwrap();
    assert_eq!(first_line_of(&rebuilt), "old");
    let parsed = parse_payload_pairs(&rebuilt);
    assert!(parsed.contains(&("user".to_string(), "alice".to_string())));
    assert!(parsed.contains(&("env".to_string(), "dev".to_string())));
    assert!(parsed.contains(&("team".to_string(), "blue".to_string())));
    assert_eq!(parsed.len(), 3);
}

#[test]
fn rebuild_deletion_removes_key() {
    let rebuilt = rebuild_payload(
        "s\nuser=alice\nenv=prod",
        Some("new"),
        &changes(&[("user", None)]),
    )
    .unwrap();
    assert_eq!(first_line_of(&rebuilt), "new");
    let parsed = parse_payload_pairs(&rebuilt);
    assert_eq!(parsed, meta(&[("env", "prod")]));
}

#[test]
fn rebuild_collapses_duplicate_keys_to_the_last() {
    let rebuilt = rebuild_payload("s\nuser=alice\nuser=bob", None, &changes(&[])).unwrap();
    let parsed = parse_payload_pairs(&rebuilt);
    assert_eq!(parsed, meta(&[("user", "bob")]));
}

#[test]
fn rebuild_rejects_unstorable_inputs() {
    let err = rebuild_payload("s", Some("a\nb"), &changes(&[])).unwrap_err();
    assert_eq!(err.kind, ErrorKind::InsertionError);
    let err = rebuild_payload("s", None, &changes(&[("a=b", Some("v"))])).unwrap_err();
    assert_eq!(err.kind, ErrorKind::InsertionError);
    let err = rebuild_payload("s", None, &changes(&[("k", Some("a\nb"))])).unwrap_err();
    assert_eq!(err.kind, ErrorKind::InsertionError);
}

#[test]
fn metadata_mapping_overwrites_and_deletes() {
    let mut m = Metadata::new();
    m.set("user".to_string(), "alice".to_string());
    m.set("env".to_string(), "prod".to_string());
    m.set("user".to_string(), "bob".to_string());
    m.delete(&"env".to_string());
    let entries = m.into_entries();
    assert_eq!(entries, meta(&[("user", "bob")]));
}

//! The op log wire format: writing, parsing, and the log blob operations.

use weft::entry::{parse_entry, serialize_entry, OpLogEntry};
use weft::error::Fault;
use weft::oplog::{append_entry, append_line, last_entry, read_all};
use weft::save::make_save_entry;

fn pairs(ps: &[(&str, &str)]) -> Vec<(String, String)> {
    ps.iter().map(|(k, v)| (k.to_string(), v.to_string())).collect()
}

#[test]
fn save_entry_serializes_to_canonical_line() {
    let e = make_save_entry("m", "abc123", 42);
    let line = serialize_entry(&e);
    assert_eq!(
        line,
        "{\"args\":{\"message\":\"m\"},\"command\":\"save\",\"inverse\":{\"commit\":\"abc123\",\"op\":\"delete-commit\"},\"timestamp\":42}"
    );
}

#[test]
fn entry_round_trips_through_its_line() {
    let e = make_save_entry("first checkpoint", "0a1b2c3d4e", 1700000000);
    let line = serialize_entry(&e);
    let back = parse_entry(&line).expect("own line must parse");
    assert_eq!(back, e);
}

#[test]
fn entry_round_trips_awkward_text() {
    let msg = "a \"quoted\" message\\with\nnewline\tand tab\u{8}\u{1}and caf\u{e9}";
    let e = make_save_entry(msg, "deadbeef", -7);
    let line = serialize_entry(&e);
    assert!(!line.contains('\n'), "the line must stay a single line");
    let back = parse_entry(&line).expect("escaped line must parse");
    assert_eq!(back.args[0].1, msg);
    assert_eq!(back.timestamp, -7);
}

#[test]
fn entry_with_empty_payload_round_trips() {
    let e = OpLogEntry {
        timestamp: 0,
        command: "noop".to_string(),
        args: Vec::new(),
        inverse: pairs(&[("op", "reset-ref"), ("ref", "refs/weft/u/head"), ("old", "c0")]),
    };
    let line = serialize_entry(&e);
    let back = parse_entry(&line).expect("empty args object must parse");
    assert_eq!(back, e);
}

#[test]
fn garbage_lines_do_not_parse() {
    assert!(parse_entry("").is_none());
    assert!(parse_entry("not json at all").is_none());
    assert!(parse_entry("{\"args\":{}}").is_none());
    assert!(parse_entry("{\"args\":{},\"command\":\"save\",\"inverse\":{},\"timestamp\":1} ").is_none());
    assert!(parse_entry("{\"args\":{},\"command\":\"save\",\"inverse\":{},\"timestamp\":}").is_none());
}

#[test]
fn serde_reads_the_line_we_write() {
    let e = make_save_entry("hello \"world\"", "cafe0123", 99);
    let line = serialize_entry(&e);
    let v: serde_json::Value = serde_json::from_str(&line).expect("serde must accept the line");
    assert_eq!(v["command"].as_str(), Some("save"));
    assert_eq!(v["timestamp"].as_i64(), Some(99));
    assert_eq!(v["args"]["message"].as_str(), Some("hello \"world\""));
    assert_eq!(v["inverse"]["op"].as_str(), Some("delete-commit"));
    assert_eq!(v["inverse"]["commit"].as_str(), Some("cafe0123"));
}

#[test]
fn we_read_the_line_serde_writes() {
    // serde_json's maps are ordered by key, which is exactly the canonical
    // order this crate writes and reads.
    let mut inverse = serde_json::Map::new();
    inverse.insert("commit".to_string(), serde_json::Value::String("abc".to_string()));
    inverse.insert("op".to_string(), serde_json::Value::String("delete-commit".to_string()));
    let mut args = serde_json::Map::new();
    args.insert("message".to_string(), serde_json::Value::String("hi\nthere".to_string()));
    let mut top = serde_json::Map::new();
    top.insert("args".to_string(), serde_json::Value::Object(args));
    top.insert("command".to_string(), serde_json::Value::String("save".to_string()));
    top.insert("inverse".to_string(), serde_json::Value::Object(inverse));
    top.insert("timestamp".to_string(), serde_json::Value::Number(123.into()));
    let line = serde_json::to_string(&serde_json::Value::Object(top)).unwrap();
    let e = parse_entry(&line).expect("serde's canonical output must parse");
    assert_eq!(e.command, "save");
    assert_eq!(e.timestamp, 123);
    assert_eq!(e.args, pairs(&[("message", "hi\nthere")]));
}

#[test]
fn append_to_empty_log_writes_one_line() {
    let e = make_save_entry("m", "c1", 1);
    let log = append_entry("", &e);
    assert_eq!(log, format!("{}\n", serialize_entry(&e)));
    let entries = read_all(&log).expect("one-entry log must read");
    assert_eq!(entries.len(), 1);
    assert_eq!(entries[0], e);
}

#[test]
fn append_separates_a_dangling_last_line() {
    let e = make_save_entry("m", "c1", 1);
    let log = append_line("dangling", &serialize_entry(&e));
    assert!(log.starts_with("dangling\n{\"args\":"));
    assert!(log.ends_with("}\n"));
}

#[test]
fn read_all_returns_entries_in_append_order() {
    let a = make_save_entry("one", "c1", 1);
    let b = make_save_entry("two", "c2", 2);
    let log = append_entry(&append_entry("", &a), &b);
    let entries = read_all(&log).expect("two-entry log must read");
    assert_eq!(entries, vec![a, b]);
}

#[test]
fn read_all_skips_blank_lines() {
    let a = make_save_entry("one", "c1", 1);
    let log = format!("\n   \n{}\n\t\n", serialize_entry(&a));
    let entries = read_all(&log).expect("blank lines are not entries");
    assert_eq!(entries, vec![a]);
}

#[test]
fn read_all_reports_a_corrupt_line() {
    let a = make_save_entry("one", "c1", 1);
    let log = format!("{}\nbroken line\n", serialize_entry(&a));
    assert_eq!(read_all(&log), Err(Fault::CorruptLog));
}

#[test]
fn last_entry_returns_the_most_recent() {
    let a = make_save_entry("one", "c1", 1);
    let b = make_save_entry("two", "c2", 2);
    let log = append_entry(&append_entry("", &a), &b);
    assert_eq!(last_entry(&log), Ok(b));
}

#[test]
fn last_entry_on_empty_log_is_empty_log() {
    assert_eq!(last_entry(""), Err(Fault::EmptyLog));
    assert_eq!(last_entry("\n  \n\t\n"), Err(Fault::EmptyLog));
}

#[test]
fn last_entry_on_corrupt_tail_is_corrupt_log() {
    let a = make_save_entry("one", "c1", 1);
    let log = format!("{}\nnot an entry\n", serialize_entry(&a));
    assert_eq!(last_entry(&log), Err(Fault::CorruptLog));
}

#[test]
fn timestamp_extremes_round_trip() {
    for ts in [i64::MIN, -1, 0, 1, i64::MAX] {
        let e = make_save_entry("m", "c", ts);
        let back = parse_entry(&serialize_entry(&e)).expect("extreme timestamps must parse");
        assert_eq!(back.timestamp, ts);
    }
}

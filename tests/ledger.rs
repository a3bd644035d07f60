use vvtv_ledger::cid::compute_cid;
use vvtv_ledger::facts::{admit_fact, create_fact, determine_stream};
use vvtv_ledger::ledger::{LedgerError, LedgerManager};
use vvtv_ledger::lines::{has_no_newline, split_lines, to_record};
use vvtv_ledger::stream::{route_stream, str_eq, Stream};

fn parse(text: &str) -> serde_json::Value {
    serde_json::from_str(text).unwrap()
}

fn is_lower_hex(s: &str) -> bool {
    s.chars().all(|c| c.is_ascii_digit() || ('a'..='f').contains(&c))
}

#[test]
fn every_listed_type_routes_to_its_stream() {
    let table = [
        ("PlanCreated", Stream::Plans),
        ("PlanScheduledForDownload", Stream::Plans),
        ("PlanArchived", Stream::Plans),
        ("AssetCreated", Stream::Assets),
        ("AssetDownloadStarted", Stream::Assets),
        ("AssetDownloadCompleted", Stream::Assets),
        ("AssetDownloadFailed", Stream::Assets),
        ("AssetReady", Stream::Assets),
        ("QCReport", Stream::Assets),
        ("QueueItemAdded", Stream::Queue),
        ("QueueItemPromoted", Stream::Queue),
        ("QueueItemRemoved", Stream::Queue),
        ("CuratorDecision", Stream::Queue),
        ("PlayoutSegmentAppended", Stream::Playout),
        ("PlayoutRotated", Stream::Playout),
        ("PlayoutEmergencyLoop", Stream::Playout),
        ("StreamEvent", Stream::Playout),
        ("PolicyPatched", Stream::Policy),
        ("PolicyRollback", Stream::Policy),
        ("AutopilotApplied", Stream::Policy),
        ("AutopilotRollback", Stream::Policy),
    ];
    for (t, s) in table {
        assert_eq!(route_stream(t), Some(s), "{}", t);
    }
}

#[test]
fn unlisted_types_are_unknown() {
    for t in ["", "plancreated", "PlanCreated ", "Plan", "Unknown", "PlanCreatedX"] {
        assert_eq!(route_stream(t), None);
    }
    assert_eq!(
        determine_stream(Some("Mystery")),
        Err(LedgerError::UnknownFactType("Mystery".to_string()))
    );
}

#[test]
fn missing_type_is_reported() {
    assert_eq!(
        determine_stream(None),
        Err(LedgerError::MissingField("type".to_string()))
    );
}

#[test]
fn stream_names_and_order() {
    let names: Vec<&str> = (0..5).map(|i| Stream::from_index(i).name()).collect();
    assert_eq!(names, vec!["plans", "assets", "queue", "playout", "policy"]);
    assert_eq!(Stream::from_name("queue"), Some(Stream::Queue));
    assert_eq!(Stream::from_name("queues"), None);
    assert_eq!(Stream::Policy.index(), 4);
}

#[test]
fn str_eq_compares_characters() {
    assert!(str_eq("abc", "abc"));
    assert!(!str_eq("abc", "abd"));
    assert!(!str_eq("abc", "ab"));
    assert!(str_eq("", ""));
}

#[test]
fn cid_of_empty_input_is_blake3_hex() {
    assert_eq!(
        compute_cid(b""),
        "af1349b9f5f9a1a6a0404dea36dcc9499bcb25c9adc112b7cc9a93cae41f3262"
    );
}

#[test]
fn cid_is_stable_and_sensitive() {
    let a = compute_cid(b"{\"type\":\"PlanCreated\"}");
    let b = compute_cid(b"{\"type\":\"PlanCreated\"}");
    let c = compute_cid(b"{\"type\":\"PlanArchived\"}");
    assert_eq!(a, b);
    assert_ne!(a, c);
    assert_eq!(a.len(), 64);
    assert!(is_lower_hex(&a));
}

#[test]
fn lines_split_on_newlines() {
    let lines = split_lines(b"a\nbc\n\nd");
    assert_eq!(lines, vec![b"a".to_vec(), b"bc".to_vec(), b"".to_vec(), b"d".to_vec()]);
    assert!(split_lines(b"").is_empty());
    assert_eq!(split_lines(b"x\n"), vec![b"x".to_vec()]);
}

#[test]
fn record_is_line_and_newline() {
    assert_eq!(to_record(b"{}"), b"{}\n".to_vec());
    assert!(has_no_newline(b"{\"a\":1}"));
    assert!(!has_no_newline(b"a\nb"));
}

#[test]
fn never_written_stream_lists_empty() {
    let ledger = LedgerManager::new("/data");
    assert!(ledger.list_stream(&None).is_empty());
    assert_eq!(ledger.base_dir(), "/data");
}

#[test]
fn appends_register_stream_and_build_records() {
    let mut ledger = LedgerManager::new("/data");
    assert!(!ledger.is_registered(Stream::Queue));
    let rec = ledger.append(Stream::Queue, b"{\"n\":1}");
    assert_eq!(rec, b"{\"n\":1}\n".to_vec());
    assert!(ledger.is_registered(Stream::Queue));
    assert!(!ledger.is_registered(Stream::Plans));
}

#[test]
fn many_appends_give_as_many_whole_lines() {
    let mut ledger = LedgerManager::new("/data");
    let mut log: Vec<u8> = Vec::new();
    let n = 50;
    for i in 0..n {
        let canonical = format!("{{\"i\":{},\"type\":\"QueueItemAdded\"}}", i);
        log.extend(ledger.append(Stream::Queue, canonical.as_bytes()));
    }
    let lines = ledger.list_stream(&Some(log));
    assert_eq!(lines.len(), n);
    for (i, l) in lines.iter().enumerate() {
        assert_eq!(l, format!("{{\"i\":{},\"type\":\"QueueItemAdded\"}}", i).as_bytes());
    }
}

#[test]
fn get_finds_record_by_cid() {
    let ledger = LedgerManager::new("/data");
    let rec = b"{\"type\":\"AssetCreated\"}".to_vec();
    let cid = compute_cid(&rec);
    let logs = vec![
        Some(b"{\"type\":\"PlanCreated\"}\n".to_vec()),
        Some([b"{\"a\":1}\n".to_vec(), rec.clone(), b"\n".to_vec()].concat()),
        None,
        None,
        None,
    ];
    let found = ledger.get(&logs, &cid).unwrap();
    assert_eq!(found, rec);
    assert_eq!(compute_cid(&found), cid);
}

#[test]
fn get_prefers_earlier_stream() {
    let ledger = LedgerManager::new("/data");
    let rec = b"{\"x\":2}".to_vec();
    let cid = compute_cid(&rec);
    let logs = vec![None, None, Some(b"{\"x\":2}\n".to_vec()), None, Some(b"{\"x\":2}\n".to_vec())];
    assert_eq!(ledger.get(&logs, &cid), Ok(rec));
}

#[test]
fn get_reports_missing_cid() {
    let ledger = LedgerManager::new("/data");
    let logs = vec![Some(b"{\"a\":1}\n".to_vec()), None, None, None, None];
    let missing = "0".repeat(64);
    assert_eq!(ledger.get(&logs, &missing), Err(LedgerError::NotFound(missing.clone())));
}

#[test]
fn stats_count_lines_per_stream() {
    let ledger = LedgerManager::new("/data");
    let logs = vec![
        Some(b"a\nb\n".to_vec()),
        None,
        Some(b"c\n".to_vec()),
        Some(Vec::new()),
        Some(b"d\ne\nf\n".to_vec()),
    ];
    assert_eq!(ledger.stats(&logs), vec![2, 0, 1, 0, 3]);
}

#[test]
fn admit_fact_checks_in_order() {
    let mut ledger = LedgerManager::new("/data");
    assert_eq!(
        admit_fact(&mut ledger, Err("bad".to_string()), None).err(),
        Some(LedgerError::Canonicalization("bad".to_string()))
    );
    assert_eq!(
        admit_fact(&mut ledger, Ok(b"{}".to_vec()), None).err(),
        Some(LedgerError::MissingField("type".to_string()))
    );
    assert_eq!(
        admit_fact(&mut ledger, Ok(b"{}".to_vec()), Some("Nope".to_string())).err(),
        Some(LedgerError::UnknownFactType("Nope".to_string()))
    );
    assert!(!ledger.is_registered(Stream::Policy));
    let rc = admit_fact(&mut ledger, Ok(b"{\"k\":1}".to_vec()), Some("PolicyPatched".to_string()))
        .ok()
        .unwrap();
    assert_eq!(rc.stream, Stream::Policy);
    assert_eq!(rc.cid, compute_cid(b"{\"k\":1}"));
    assert_eq!(rc.record, b"{\"k\":1}\n".to_vec());
    assert!(ledger.is_registered(Stream::Policy));
}

#[test]
fn submitted_plan_is_canonical_and_retrievable() {
    let mut ledger = LedgerManager::new("/data");
    let v = parse(
        r#"{"type":"PlanCreated","timestamp":"2024-01-01T00:00:00Z","plan_id":"p1","source":"yt","url":"https://x","tags":[]}"#,
    );
    let rc = create_fact(&mut ledger, &v).ok().unwrap();
    assert_eq!(rc.stream, Stream::Plans);
    assert_eq!(rc.cid.len(), 64);
    assert!(is_lower_hex(&rc.cid));
    let canonical = String::from_utf8(rc.canonical.clone()).unwrap();
    assert_eq!(
        canonical,
        r#"{"plan_id":"p1","source":"yt","tags":[],"timestamp":"2024-01-01T00:00:00Z","type":"PlanCreated","url":"https://x"}"#
    );
    assert!(!canonical.contains("bucket"));
    let logs = vec![Some(rc.record.clone()), None, None, None, None];
    let found = ledger.get(&logs, &rc.cid).unwrap();
    assert_eq!(found, rc.canonical);
    let listed = ledger.list_stream(&logs[0]);
    assert_eq!(listed.last(), Some(&rc.canonical));
}

#[test]
fn key_order_does_not_change_canonical_form() {
    let mut ledger = LedgerManager::new("/data");
    let a = parse(r#"{"type":"AssetReady","b":{"y":1,"x":[2,3]},"a":"s"}"#);
    let b = parse(r#"{ "a" : "s", "b" : {"x":[2,3],"y":1}, "type":"AssetReady" }"#);
    let ra = create_fact(&mut ledger, &a).ok().unwrap();
    let rb = create_fact(&mut ledger, &b).ok().unwrap();
    assert_eq!(ra.canonical, rb.canonical);
    assert_eq!(ra.cid, rb.cid);
    assert_eq!(ra.canonical, br#"{"a":"s","b":{"x":[2,3],"y":1},"type":"AssetReady"}"#.to_vec());
}

#[test]
fn float_payload_is_a_canonicalization_error() {
    let mut ledger = LedgerManager::new("/data");
    let v = parse(r#"{"type":"QCReport","vmaf":93.5}"#);
    assert!(matches!(create_fact(&mut ledger, &v), Err(LedgerError::Canonicalization(_))));
    assert!(!ledger.is_registered(Stream::Assets));
}

#[test]
fn non_string_type_is_missing() {
    let mut ledger = LedgerManager::new("/data");
    let v = parse(r#"{"type":7}"#);
    assert!(matches!(create_fact(&mut ledger, &v), Err(LedgerError::MissingField(_))));
}

#[test]
fn same_value_submitted_twice_gives_same_result() {
    let mut ledger = LedgerManager::new("/data");
    let v = parse(r#"{"type":"StreamEvent","slot":"s1","event_type":"started"}"#);
    let r1 = create_fact(&mut ledger, &v).ok().unwrap();
    let r2 = create_fact(&mut ledger, &v).ok().unwrap();
    assert_eq!(r1.cid, r2.cid);
    assert_eq!(r1.canonical, r2.canonical);
    assert_eq!(r1.stream, Stream::Playout);
    assert_eq!(r2.stream, Stream::Playout);
}

#[test]
fn malformed_cid_is_never_found() {
    let ledger = LedgerManager::new("/data");
    let rec = b"{\"z\":0}".to_vec();
    let cid = compute_cid(&rec);
    let logs = vec![Some(b"{\"z\":0}\n".to_vec()), None, None, None, None];
    let upper = cid.to_uppercase();
    assert!(matches!(ledger.get(&logs, &upper), Err(LedgerError::NotFound(_))));
    assert!(matches!(ledger.get(&logs, &cid[..63]), Err(LedgerError::NotFound(_))));
    assert_eq!(ledger.get(&logs, &cid), Ok(rec));
}

use rdl::gate::{gate_action, hash_verdict, GateAction, HashVerdict, VerifyMode};
use rdl::hashing::{calculate_hash, calculate_hash_chunks};
use rdl::state::{init_state, DownloadState, PartState};
use rdl::statefile::{parse_state_json, serialize_state};
use rdl::tasks::{
    check_hashes_present, expected_hash_for, format_task_line, format_task_list,
    missing_hash_urls, parse_task_line, parse_task_list, DownloadItem,
};
use rdl::errors::DlError;
use sha2::Digest;

#[test]
fn gate_decisions() {
    assert_eq!(gate_action(VerifyMode::Off, true), GateAction::CommitNow);
    assert_eq!(gate_action(VerifyMode::Off, false), GateAction::CommitNow);
    assert_eq!(gate_action(VerifyMode::On, true), GateAction::HashAndCompare);
    assert_eq!(gate_action(VerifyMode::On, false), GateAction::Fatal);
    assert_eq!(gate_action(VerifyMode::Auto, true), GateAction::HashAndCompare);
    assert_eq!(gate_action(VerifyMode::Auto, false), GateAction::CommitNow);
}

#[test]
fn hash_comparison_ignores_case() {
    assert_eq!(hash_verdict("DEADbeef", "deadBEEF"), HashVerdict::Commit);
    assert_eq!(hash_verdict("deadbeef", "deadbee5"), HashVerdict::RejectCorrupt);
}

#[test]
fn digest_matches_reference() {
    let empty: Vec<u8> = vec![];
    assert_eq!(
        calculate_hash(&empty),
        "e3b0c44298fc1c149afbf4c8996fb92427ae41e4649b934ca495991b7852b855"
    );
    let abc: Vec<u8> = b"abc".to_vec();
    let got = calculate_hash(&abc);
    let want = hex::encode(sha2::Sha256::digest(b"abc"));
    assert_eq!(got, want);
    assert_ne!(got, "abc616263");
}

#[test]
fn digest_over_chunks_equals_whole() {
    let chunks: Vec<Vec<u8>> = vec![b"hello ".to_vec(), vec![], b"world".to_vec()];
    let whole: Vec<u8> = b"hello world".to_vec();
    assert_eq!(calculate_hash_chunks(&chunks), calculate_hash(&whole));
}

#[test]
fn record_round_trip() {
    let mut st = init_state(String::from("http://host/a.bin"), 100, 4);
    rdl::state::apply_chunk(&mut st, 2, 7).unwrap();
    let text = serialize_state(&st);
    let back = parse_state_json(text.as_str()).unwrap();
    assert_eq!(back, st);
}

#[test]
fn record_round_trip_empty_parts() {
    let st = init_state(String::from("http://host/u"), 0, 8);
    let text = serialize_state(&st);
    assert_eq!(parse_state_json(text.as_str()).unwrap(), st);
}

#[test]
fn empty_record_literal_reads_back() {
    // The canonical rendering of a record without segments is always accepted.
    let text = "{\"url\":\"http://host/u\",\"total_size\":0,\"parts\":[]}";
    let st = parse_state_json(text).unwrap();
    assert_eq!(st.url, "http://host/u");
    assert_eq!(st.total_size, 0);
    assert!(st.parts.is_empty());
    // A positive total with no segments is ill-formed and counts as corrupt.
    assert!(parse_state_json("{\"url\":\"u\",\"total_size\":5,\"parts\":[]}").is_none());
}

#[test]
fn corrupt_records_rejected() {
    let st = init_state(String::from("http://host/a.bin"), 100, 2);
    let good = serialize_state(&st);
    assert!(parse_state_json(&good[..good.len() - 1]).is_none());
    assert!(parse_state_json("").is_none());
    assert!(parse_state_json("{}").is_none());
    assert!(parse_state_json("{\"url\":\"u\",\"total_size\":01,\"parts\":[]}").is_none());
    let spaced = good.replace(":", ": ");
    assert!(parse_state_json(&spaced).is_none());
    let escaped = good.replace("a.bin", "a\\u0062in");
    assert!(parse_state_json(&escaped).is_none());
}

#[test]
fn ill_formed_record_rejected() {
    // Syntactically canonical, but the segments leave a gap at byte 5.
    let bad = DownloadState {
        url: String::from("http://host/x"),
        total_size: 10,
        parts: vec![
            PartState { index: 0, start_byte: 0, end_byte: 4, current_byte: 0, completed: false },
            PartState { index: 1, start_byte: 6, end_byte: 9, current_byte: 6, completed: false },
        ],
    };
    let text = serialize_state(&bad);
    assert!(parse_state_json(&text).is_none());
    // And one whose completion flag disagrees with its cursor.
    let lying = DownloadState {
        url: String::from("http://host/x"),
        total_size: 10,
        parts: vec![
            PartState { index: 0, start_byte: 0, end_byte: 9, current_byte: 0, completed: true },
        ],
    };
    assert!(parse_state_json(&serialize_state(&lying)).is_none());
}

#[test]
fn task_line_forms() {
    assert_eq!(parse_task_line("").unwrap(), None);
    assert_eq!(parse_task_line("   \t").unwrap(), None);
    let it = parse_task_line(" http://h/a |  ABC123 ").unwrap().unwrap();
    assert_eq!(it.url, "http://h/a");
    assert_eq!(it.hash.as_deref(), Some("ABC123"));
    let bare = parse_task_line("http://h/a").unwrap().unwrap();
    assert_eq!(bare.url, "http://h/a");
    assert_eq!(bare.hash, None);
    let empty_hash = parse_task_line("http://h/a|").unwrap().unwrap();
    assert_eq!(empty_hash.hash, None);
    assert!(matches!(parse_task_line("http://h/a|x|y"), Err(DlError::ExtraColumn)));
    assert_eq!(parse_task_line("|abc").unwrap(), None);
}

#[test]
fn task_list_round_trip() {
    let items = vec![
        DownloadItem { url: String::from("http://h/a"), hash: Some(String::from("00ff")) },
        DownloadItem { url: String::from("http://h/b"), hash: None },
    ];
    let text = format_task_list(&items);
    assert_eq!(text, "http://h/a|00ff\nhttp://h/b\n");
    let lines: Vec<String> = text.lines().map(String::from).collect();
    let back = parse_task_list(&lines).unwrap();
    assert_eq!(back, items);
}

#[test]
fn format_single_line() {
    let it = DownloadItem { url: String::from("u"), hash: Some(String::from("h")) };
    assert_eq!(format_task_line(&it), "u|h");
    let bare = DownloadItem { url: String::from("u"), hash: None };
    assert_eq!(format_task_line(&bare), "u");
}

#[test]
fn mandatory_hash_checked_before_any_download() {
    let items = vec![
        DownloadItem { url: String::from("http://h/a"), hash: Some(String::from("00")) },
        DownloadItem { url: String::from("http://h/b"), hash: None },
    ];
    assert!(matches!(
        check_hashes_present(&items, VerifyMode::On),
        Err(DlError::MissingHash)
    ));
    assert!(check_hashes_present(&items, VerifyMode::Auto).is_ok());
    assert!(check_hashes_present(&items, VerifyMode::Off).is_ok());
    let all = vec![items[0].clone()];
    assert!(check_hashes_present(&all, VerifyMode::On).is_ok());
    // The failure names every offending URL, in list order.
    assert_eq!(missing_hash_urls(&items), vec![String::from("http://h/b")]);
    assert_eq!(missing_hash_urls(&all), Vec::<String>::new());
}

#[test]
fn expected_hash_lookup() {
    let items = vec![
        DownloadItem { url: String::from("http://h/a"), hash: None },
        DownloadItem { url: String::from("http://h/a"), hash: Some(String::from("aa")) },
        DownloadItem { url: String::from("http://h/b"), hash: Some(String::from("bb")) },
    ];
    assert_eq!(expected_hash_for(&items, "http://h/a").as_deref(), Some("aa"));
    assert_eq!(expected_hash_for(&items, "http://h/b").as_deref(), Some("bb"));
    assert_eq!(expected_hash_for(&items, "http://h/c"), None);
}

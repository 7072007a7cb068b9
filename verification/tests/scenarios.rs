use rdl::engine::{classify_ranged_status, incomplete_indices};
use rdl::errors::DlError;
use rdl::gate::{gate_action, hash_verdict, GateAction, HashVerdict, VerifyMode};
use rdl::hashing::calculate_hash;
use rdl::provider::{
    default_list_path, items_from_listing, modelscope_api_url, modelscope_file_url,
    provider_supported,
};
use rdl::rate::TokenBucket;
use rdl::slab::Slab;
use rdl::state::{all_completed, apply_chunk, init_state, segment_stream_ended, DownloadState};
use rdl::statefile::{parse_state_json, serialize_state};
use sha2::Digest;

const MIB: usize = 1_048_576;

fn run_segment(slab: &mut Slab, st: &mut DownloadState, i: usize, content: &[u8]) {
    let from = st.parts[i].current_byte as usize;
    let to = st.parts[i].end_byte as usize;
    let chunk = content[from..=to].to_vec();
    slab.write_at(from, &chunk);
    apply_chunk(st, i, chunk.len() as u64).unwrap();
    segment_stream_ended(st, i).unwrap();
}

#[test]
fn one_mib_of_zeros_verifies_and_commits() {
    let content = vec![0u8; MIB];
    let expected = hex::encode(sha2::Sha256::digest(&content));
    let mut st = init_state(String::from("http://host/a.bin"), MIB as u64, 4);
    let mut slab = Slab::new(MIB);
    assert_eq!(st.parts.len(), 4);
    for i in 0..4 {
        run_segment(&mut slab, &mut st, i, &content);
    }
    assert!(all_completed(&st));
    assert_eq!(slab.bytes().len(), MIB);
    assert_eq!(slab.bytes(), &content);
    assert_eq!(gate_action(VerifyMode::Auto, true), GateAction::HashAndCompare);
    let digest = calculate_hash(slab.bytes());
    assert_eq!(hash_verdict(&expected, &digest), HashVerdict::Commit);
}

#[test]
fn truncated_run_resumes_to_identical_bytes() {
    let mut content = vec![0u8; MIB];
    for (i, b) in content.iter_mut().enumerate() {
        *b = (i % 251) as u8;
    }
    let mut st = init_state(String::from("http://host/a.bin"), MIB as u64, 4);
    let mut slab = Slab::new(MIB);
    // First run: segments 0, 2, 3 complete; the connection closes after
    // 100_000 bytes of segment 1, so that file fails but stays resumable.
    run_segment(&mut slab, &mut st, 0, &content);
    run_segment(&mut slab, &mut st, 2, &content);
    run_segment(&mut slab, &mut st, 3, &content);
    let cut = 100_000u64;
    let from = st.parts[1].current_byte as usize;
    let partial = content[from..from + cut as usize].to_vec();
    slab.write_at(from, &partial);
    apply_chunk(&mut st, 1, cut).unwrap();
    assert!(matches!(segment_stream_ended(&st, 1), Err(DlError::ShortStream)));
    assert!(!all_completed(&st));

    // The record and the slab survive; a second run loads both.
    let persisted = serialize_state(&st);
    let disk = slab.bytes().clone();
    let mut st2 = parse_state_json(&persisted).unwrap();
    assert_eq!(st2, st);
    let mut slab2 = Slab::from_bytes(disk);
    let todo = incomplete_indices(&st2);
    assert_eq!(todo, vec![1]);
    for &i in todo.iter() {
        run_segment(&mut slab2, &mut st2, i, &content);
    }
    assert!(all_completed(&st2));
    assert_eq!(slab2.bytes(), &content);
}

#[test]
fn wrong_hash_rejects_slab_and_record() {
    let content = vec![7u8; 4096];
    let mut st = init_state(String::from("http://host/b"), 4096, 4);
    let mut slab = Slab::new(4096);
    for i in 0..4 {
        run_segment(&mut slab, &mut st, i, &content);
    }
    assert_eq!(gate_action(VerifyMode::On, true), GateAction::HashAndCompare);
    let digest = calculate_hash(slab.bytes());
    let wrong = "deadbeefdeadbeefdeadbeefdeadbeefdeadbeefdeadbeefdeadbeefdeadbeef";
    // RejectCorrupt means: delete the slab and the state record; no final file.
    assert_eq!(hash_verdict(wrong, &digest), HashVerdict::RejectCorrupt);
}

#[test]
fn rate_cap_over_ten_mib() {
    // Rate 1 MiB/s, 10 MiB in 64 KiB chunks: the bucket starts with one
    // second of burst, so the simulated clock must pass at least nine
    // simulated seconds, and the cap law caps every window after that.
    let rate = MIB as u64;
    let chunk = 65_536u64;
    let total = 10 * MIB as u64;
    let mut now: u64 = 0;
    let mut bucket = TokenBucket::new(rate, now);
    let mut granted: u64 = 0;
    while granted < total {
        bucket.refill(now);
        if bucket.try_acquire(chunk) {
            granted += chunk;
        } else {
            let wait = bucket.wait_hint_ns(chunk);
            assert!(wait > 0);
            now += wait;
        }
    }
    let elapsed_ns = now;
    assert!(elapsed_ns >= 9_000_000_000, "completed in {} ns", elapsed_ns);
    // And not absurdly slow either: the hints keep the limiter busy.
    assert!(elapsed_ns <= 10_500_000_000, "took {} ns", elapsed_ns);
}

#[test]
fn range_ignored_fails_file_with_state_preserved() {
    let st = init_state(String::from("http://host/c.bin"), 5 * MIB as u64, 4);
    assert_eq!(st.parts.len(), 4);
    // The server answers 200 to the ranged GET: the engine fails the file
    // before writing anything, so the record keeps every cursor at its start.
    assert!(matches!(classify_ranged_status(200), Err(DlError::RangeNotHonored)));
    for p in st.parts.iter() {
        assert_eq!(p.current_byte, p.start_byte);
        assert!(!p.completed);
    }
}

#[test]
fn provider_urls_and_dispatch() {
    assert_eq!(
        modelscope_api_url("org/model"),
        "https://modelscope.cn/api/v1/models/org/model/repo/files"
    );
    assert_eq!(
        modelscope_file_url("org/model", "master", "weights/a.bin"),
        "https://modelscope.cn/models/org/model/resolve/master/weights/a.bin"
    );
    assert!(provider_supported("modelscope"));
    assert!(provider_supported("ModelScope"));
    assert!(!provider_supported("huggingface"));
    assert_eq!(
        default_list_path("ModelScope", "org/model"),
        "downloads/modelscope/org/model/download.txt"
    );
}

#[test]
fn listing_becomes_items() {
    let files = vec![
        (String::from("a.bin"), String::from("00ff")),
        (String::from("sub/b.bin"), String::from("11ee")),
    ];
    let items = items_from_listing("org/m", "master", &files);
    assert_eq!(items.len(), 2);
    assert_eq!(items[0].url, "https://modelscope.cn/models/org/m/resolve/master/a.bin");
    assert_eq!(items[0].hash.as_deref(), Some("00ff"));
    assert_eq!(items[1].url, "https://modelscope.cn/models/org/m/resolve/master/sub/b.bin");
}

#[test]
fn bucket_never_overdraws() {
    let mut b = TokenBucket::new(100, 0);
    assert!(b.try_acquire(100));
    assert!(!b.try_acquire(1));
    b.refill(500_000_000);
    assert!(b.try_acquire(50));
    assert!(!b.try_acquire(1));
    b.refill(10_000_000_000);
    assert!(b.try_acquire(100));
}

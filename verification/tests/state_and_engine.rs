use rdl::counters::{known_sizes, size_known_for, sum_sizes, GlobalCounters};
use rdl::engine::{
    classify_plain_status, classify_ranged_status, fallback_request, head_size,
    incomplete_indices, next_subchunk, plan_file, record_size_learned, record_skip, FilePlan,
};
use rdl::errors::DlError;
use rdl::state::{all_completed, apply_chunk, downloaded_bytes, init_state, segment_stream_ended};

#[test]
fn partition_even_split() {
    let st = init_state(String::from("http://host/a.bin"), 100, 4);
    assert_eq!(st.total_size, 100);
    assert_eq!(st.parts.len(), 4);
    let bounds: Vec<(u64, u64)> = st.parts.iter().map(|p| (p.start_byte, p.end_byte)).collect();
    assert_eq!(bounds, vec![(0, 24), (25, 49), (50, 74), (75, 99)]);
    for (i, p) in st.parts.iter().enumerate() {
        assert_eq!(p.index, i);
        assert_eq!(p.current_byte, p.start_byte);
        assert!(!p.completed);
    }
}

#[test]
fn partition_last_absorbs_remainder() {
    let st = init_state(String::from("u"), 10, 3);
    let bounds: Vec<(u64, u64)> = st.parts.iter().map(|p| (p.start_byte, p.end_byte)).collect();
    assert_eq!(bounds, vec![(0, 2), (3, 5), (6, 9)]);
}

#[test]
fn partition_small_file_single_segment() {
    let st = init_state(String::from("u"), 3, 8);
    assert_eq!(st.parts.len(), 1);
    assert_eq!((st.parts[0].start_byte, st.parts[0].end_byte), (0, 2));
}

#[test]
fn partition_unknown_size_empty() {
    let st = init_state(String::from("u"), 0, 8);
    assert_eq!(st.parts.len(), 0);
    assert_eq!(st.total_size, 0);
}

#[test]
fn chunk_advances_and_completes() {
    let mut st = init_state(String::from("u"), 10, 2);
    assert!(apply_chunk(&mut st, 0, 3).is_ok());
    assert_eq!(st.parts[0].current_byte, 3);
    assert!(!st.parts[0].completed);
    assert!(matches!(segment_stream_ended(&st, 0), Err(DlError::ShortStream)));
    assert!(apply_chunk(&mut st, 0, 2).is_ok());
    assert!(st.parts[0].completed);
    assert!(segment_stream_ended(&st, 0).is_ok());
    assert_eq!(downloaded_bytes(&st), 5);
    assert!(!all_completed(&st));
    assert!(apply_chunk(&mut st, 1, 5).is_ok());
    assert!(all_completed(&st));
    assert_eq!(downloaded_bytes(&st), 10);
}

#[test]
fn chunk_past_segment_end_rejected() {
    let mut st = init_state(String::from("u"), 10, 2);
    assert!(matches!(apply_chunk(&mut st, 0, 6), Err(DlError::OverlongStream)));
    assert_eq!(st.parts[0].current_byte, 0);
}

#[test]
fn skip_existing_file_plan() {
    let st = init_state(String::from("u"), 10, 2);
    assert_eq!(plan_file(true, &st), FilePlan::SkipExisting);
    assert_eq!(plan_file(false, &st), FilePlan::Segmented);
    let unknown = init_state(String::from("u"), 0, 2);
    assert_eq!(plan_file(false, &unknown), FilePlan::Fallback);
}

#[test]
fn skip_counts_as_completed() {
    let mut c = GlobalCounters::new(0);
    record_skip(&mut c, 1_048_576, false);
    assert_eq!(c.completed_files, 1);
    assert_eq!(c.bytes_downloaded, 1_048_576);
    assert_eq!(c.bytes_known, 1_048_576);
    // A size the pre-scan already counted is not counted again.
    let mut c2 = GlobalCounters::new(1_048_576);
    record_skip(&mut c2, 1_048_576, true);
    assert_eq!(c2.bytes_known, 1_048_576);
}

#[test]
fn counters_monotonic() {
    let mut c = GlobalCounters::new(7);
    let mut last = (c.completed_files, c.bytes_downloaded, c.bytes_known);
    c.add_downloaded(10);
    assert!(c.bytes_downloaded >= last.1);
    last = (c.completed_files, c.bytes_downloaded, c.bytes_known);
    c.add_known(100);
    assert!(c.bytes_known >= last.2);
    last = (c.completed_files, c.bytes_downloaded, c.bytes_known);
    c.add_completed();
    assert!(c.completed_files >= last.0);
    c.add_downloaded(u64::MAX);
    assert_eq!(c.bytes_downloaded, u64::MAX);
    c.add_downloaded(1);
    assert_eq!(c.bytes_downloaded, u64::MAX);
}

#[test]
fn head_sizes_trust_2xx_only() {
    assert_eq!(head_size(200, Some(42)), 42);
    assert_eq!(head_size(206, Some(42)), 42);
    assert_eq!(head_size(200, None), 0);
    assert_eq!(head_size(404, Some(42)), 0);
    assert_eq!(head_size(301, Some(42)), 0);
}

#[test]
fn ranged_status_rules() {
    assert!(classify_ranged_status(206).is_ok());
    assert!(matches!(classify_ranged_status(200), Err(DlError::RangeNotHonored)));
    assert!(matches!(classify_ranged_status(404), Err(DlError::HttpStatus(404))));
    assert!(classify_plain_status(200).is_ok());
    assert!(matches!(classify_plain_status(500), Err(DlError::HttpStatus(500))));
}

#[test]
fn fallback_resumes_from_existing_length() {
    assert_eq!(fallback_request(0, Some(100)), (None, 100));
    assert_eq!(fallback_request(40, Some(60)), (Some(40), 100));
    assert_eq!(fallback_request(40, None), (Some(40), 40));
}

#[test]
fn incomplete_indices_in_order() {
    let mut st = init_state(String::from("u"), 100, 4);
    assert!(apply_chunk(&mut st, 1, 25).is_ok());
    let idx = incomplete_indices(&st);
    assert_eq!(idx, vec![0, 2, 3]);
}

#[test]
fn size_learned_only_once() {
    let mut c = GlobalCounters::new(50);
    record_size_learned(&mut c, 100, true);
    assert_eq!(c.bytes_known, 50);
    record_size_learned(&mut c, 100, false);
    assert_eq!(c.bytes_known, 150);
    record_size_learned(&mut c, 0, false);
    assert_eq!(c.bytes_known, 150);
}

#[test]
fn subchunks_bounded_by_burst() {
    assert_eq!(next_subchunk(100, 1024), 100);
    assert_eq!(next_subchunk(5000, 1024), 1024);
    assert_eq!(next_subchunk(5000, 0), 1);
    assert_eq!(next_subchunk(1, 1024), 1);
}

#[test]
fn prescan_map_keeps_positive_sizes() {
    let results = vec![
        (String::from("http://h/a"), 10u64),
        (String::from("http://h/b"), 0u64),
        (String::from("http://h/c"), 5u64),
    ];
    let entries = known_sizes(&results);
    let urls: Vec<&str> = entries.iter().map(|e| e.0.as_str()).collect();
    assert_eq!(urls, vec!["http://h/a", "http://h/c"]);
    assert_eq!(sum_sizes(&entries), 15);
    assert!(size_known_for(&entries, "http://h/a"));
    assert!(!size_known_for(&entries, "http://h/b"));
}

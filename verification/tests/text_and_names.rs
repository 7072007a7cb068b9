use rdl::errors::DlError;
use rdl::list::{classify_entry, progress_permyriad, strip_suffix, EntryKind, ListSummary};
use rdl::names::{get_filename_from_url, get_unique_filepath, slab_name, state_name, str_ends_with};
use rdl::state::init_state;
use rdl::text::{ascii_lowercase, eq_ignore_ascii_case, sanitize_filename, str_eq, u64_to_string};

#[test]
fn sanitize_replaces_specials() {
    assert_eq!(sanitize_filename("a|b c.txt"), "a_b_c.txt");
    assert_eq!(sanitize_filename("model-v1.0_final.bin"), "model-v1.0_final.bin");
    assert_eq!(sanitize_filename("a/b\\c:d"), "a_b_c_d");
    assert_eq!(sanitize_filename(""), "");
}

#[test]
fn sanitize_keeps_unicode_letters() {
    assert_eq!(sanitize_filename("héllo wörld"), "héllo_wörld");
}

#[test]
fn filename_from_url_last_segment() {
    assert_eq!(get_filename_from_url("http://host/a/b.bin").unwrap(), "b.bin");
    assert_eq!(get_filename_from_url("https://host/x/y/z.tar.gz?sig=1").unwrap(), "z.tar.gz");
    assert_eq!(get_filename_from_url("https://host/f#frag").unwrap(), "f");
}

#[test]
fn filename_from_url_skips_trailing_slashes() {
    // The final non-empty path segment counts, so a trailing slash does not
    // lose the basename.
    assert_eq!(get_filename_from_url("http://host/a/b/").unwrap(), "b");
    assert_eq!(get_filename_from_url("http://host/dir/").unwrap(), "dir");
    assert_eq!(get_filename_from_url("http://host/a//").unwrap(), "a");
}

#[test]
fn filename_from_url_ignores_query_and_fragment_slashes() {
    // A slash inside the query or fragment is no path: with no path at all
    // the fresh fallback name applies.
    let a = get_filename_from_url("http://h?a/b").unwrap();
    assert!(a.starts_with("download_"));
    let b = get_filename_from_url("http://host#sec/1").unwrap();
    assert!(b.starts_with("download_"));
    // With a real path, the query's slashes stay out of the name.
    assert_eq!(get_filename_from_url("http://host/a?x/y").unwrap(), "a");
    assert_eq!(get_filename_from_url("http://host/d/f.bin#frag/2").unwrap(), "f.bin");
}

#[test]
fn filename_from_url_fallback_is_fresh() {
    // Only a URL with no non-empty path segment at all falls back.
    let a = get_filename_from_url("http://host/").unwrap();
    assert!(a.starts_with("download_"));
    assert_eq!(a.len(), 45);
    let b = get_filename_from_url("http://host").unwrap();
    assert!(b.starts_with("download_"));
    assert_eq!(b.len(), 45);
    let c = get_filename_from_url("http://host///").unwrap();
    assert!(c.starts_with("download_"));
    assert_ne!(a, b);
    assert_ne!(b, c);
}

#[test]
fn filename_from_url_rejects_schemeless() {
    assert!(matches!(get_filename_from_url("not a url"), Err(DlError::InvalidUrl)));
}

#[test]
fn staging_names() {
    assert_eq!(slab_name("a.bin"), "a.bin.part");
    assert_eq!(state_name("a.bin"), "a.bin.part.json");
    assert_eq!(slab_name("noext"), "noext.part");
}

#[test]
fn unique_filepath_counters() {
    let existing = vec![String::from("a.txt"), String::from("a_1.txt")];
    assert_eq!(get_unique_filepath(&existing, "b.txt"), "b.txt");
    assert_eq!(get_unique_filepath(&existing, "a.txt"), "a_2.txt");
    let none: Vec<String> = vec![];
    assert_eq!(get_unique_filepath(&none, "a.txt"), "a.txt");
    let noext = vec![String::from("readme")];
    assert_eq!(get_unique_filepath(&noext, "readme"), "readme_1");
}

#[test]
fn ends_with_and_strip() {
    assert!(str_ends_with("x.part.json", ".part.json"));
    assert!(!str_ends_with("x.part", ".part.json"));
    assert_eq!(strip_suffix("a.bin.part.json", ".part.json").unwrap(), "a.bin");
    assert!(strip_suffix("a.bin", ".part").is_none());
}

#[test]
fn entry_classification() {
    assert_eq!(classify_entry("a.bin.part.json"), EntryKind::StateRecord);
    assert_eq!(classify_entry("a.bin.part"), EntryKind::Slab);
    assert_eq!(classify_entry("a.bin"), EntryKind::Regular);
    assert_eq!(classify_entry(".DS_Store"), EntryKind::Ignored);
}

#[test]
fn summary_accumulates() {
    let mut sum = ListSummary::new();
    let mut st = init_state(String::from("u"), 100, 4);
    rdl::state::apply_chunk(&mut st, 0, 10).unwrap();
    sum.add_state(&st);
    sum.add_regular(50);
    assert_eq!(sum.active_files, 1);
    assert_eq!(sum.downloaded_files, 1);
    assert_eq!(sum.total_downloaded, 60);
    assert_eq!(sum.total_known, 150);
}

#[test]
fn permyriad_progress() {
    assert_eq!(progress_permyriad(0, 100), 0);
    assert_eq!(progress_permyriad(50, 100), 5000);
    assert_eq!(progress_permyriad(100, 100), 10000);
    assert_eq!(progress_permyriad(1, 3), 3333);
    assert_eq!(progress_permyriad(0, 0), 0);
}

#[test]
fn case_insensitive_compare() {
    assert!(eq_ignore_ascii_case("DeadBEEF", "deadbeef"));
    assert!(!eq_ignore_ascii_case("deadbeef", "deadbee5"));
    assert!(str_eq("abc", "abc"));
    assert!(!str_eq("abc", "abd"));
}

#[test]
fn lowercase_and_decimal() {
    assert_eq!(ascii_lowercase("ModelScope"), "modelscope");
    assert_eq!(ascii_lowercase("küçük"), "küçük");
    assert_eq!(u64_to_string(0), "0");
    assert_eq!(u64_to_string(907), "907");
    assert_eq!(u64_to_string(u64::MAX), "18446744073709551615");
}

use dirpack::encode::{output_file_name, parse_format, Format};
use dirpack::entry::{classify, strip_root, EntryKind};
use dirpack::processing::{archive_name, needs_long_name};
use dirpack::progress::{format_eta, CompressionProgress};
use dirpack::status::{directory_status, is_new_file, status_message};

fn s(v: &[&str]) -> Vec<String> {
    v.iter().map(|c| c.to_string()).collect()
}

#[test]
fn classify_kinds() {
    assert_eq!(classify(true, false, false), Some(EntryKind::File));
    assert_eq!(classify(false, true, false), Some(EntryKind::EmptyDirectory));
    assert_eq!(classify(false, true, true), Some(EntryKind::NonEmptyDirectory));
    assert_eq!(classify(false, false, false), None);
}

#[test]
fn strip_root_cases() {
    assert_eq!(strip_root(&s(&["a", "b"]), &s(&["a", "b", "c", "d"])), Some(s(&["c", "d"])));
    assert_eq!(strip_root(&s(&["a", "b"]), &s(&["a", "b"])), Some(vec![]));
    assert_eq!(strip_root(&s(&["a", "b"]), &s(&["a", "x", "c"])), None);
    assert_eq!(strip_root(&s(&["a", "b"]), &s(&["a"])), None);
}

#[test]
fn archive_names() {
    assert_eq!(archive_name(&s(&["b", "b.txt"]), false), "b/b.txt");
    assert_eq!(archive_name(&s(&["c"]), true), "c/");
    assert_eq!(archive_name(&s(&["a.txt"]), false), "a.txt");
}

#[test]
fn long_names() {
    assert!(!needs_long_name(&"a".repeat(100)));
    assert!(needs_long_name(&"a".repeat(101)));
    assert!(needs_long_name(&"\u{e9}".repeat(51)));
}

#[test]
fn eta_formats() {
    assert_eq!(format_eta(3661), "ETA: 01:01:01 hours");
    assert_eq!(format_eta(125), "ETA: 02:05 minutes");
    assert_eq!(format_eta(5), "ETA: 05 seconds");
    assert_eq!(format_eta(0), "ETA: 00 seconds");
    assert_eq!(format_eta(360_000), "ETA: 100:00:00 hours");
}

#[test]
fn moving_average_and_thresholds() {
    let mut p = CompressionProgress::new(20, 0);
    p.increment_total_progress(100_000);
    assert_eq!(p.smoothed_micros, Some(100_000));
    p.increment_total_progress(300_000);
    assert_eq!(p.smoothed_micros, Some(120_000));
    p.increment_total_progress(305_000);
    assert_eq!(p.smoothed_micros, Some(120_000));
    p.increment_total_progress(40_000_000);
    assert_eq!(p.smoothed_micros, Some(120_000));
    assert_eq!(p.completed, 4);
    assert_eq!(p.last_update_micros, 40_000_000);
}

#[test]
fn eta_waits_for_warmup() {
    let mut p = CompressionProgress::new(20, 0);
    let mut now = 0;
    for _ in 0..9 {
        now += 2_000_000;
        p.increment_total_progress(now);
    }
    assert_eq!(p.eta_seconds(), None);
    assert_eq!(p.update_eta(), "ETA: Calculating...");
    now += 2_000_000;
    p.increment_total_progress(now);
    assert_eq!(p.eta_seconds(), Some(20));
    assert_eq!(p.update_eta(), "ETA: 20 seconds");
}

#[test]
fn eta_clamps_estimate() {
    let p = CompressionProgress { completed: 10, total_files: 12, last_update_micros: 0, smoothed_micros: Some(1_000) };
    assert_eq!(p.eta_seconds(), Some(0));
    let waiting = CompressionProgress { completed: 2, total_files: 4, last_update_micros: 0, smoothed_micros: Some(1_000) };
    assert_eq!(waiting.eta_seconds(), None);
    let q = CompressionProgress { completed: 10, total_files: 2_000_010, last_update_micros: 0, smoothed_micros: Some(1_000) };
    assert_eq!(q.eta_seconds(), Some(10_000));
    let small = CompressionProgress { completed: 1, total_files: 3, last_update_micros: 0, smoothed_micros: Some(500_000) };
    assert_eq!(small.eta_seconds(), None);
    let slow = CompressionProgress { completed: 10, total_files: 11, last_update_micros: 0, smoothed_micros: Some(90_000_000) };
    assert_eq!(slow.eta_seconds(), Some(60));
    let stalled = CompressionProgress { completed: 10, total_files: 12, last_update_micros: 0, smoothed_micros: Some(1_000_000_000) };
    assert_eq!(stalled.update_eta(), "ETA: 02:00 minutes");
}

#[test]
fn formats_and_names() {
    assert_eq!(parse_format(&"tar-gz".to_string()), Some(Format::TarGz));
    assert_eq!(parse_format(&"tar-bz2".to_string()), Some(Format::TarBz2));
    assert_eq!(parse_format(&"zip".to_string()), Some(Format::Zip));
    assert_eq!(parse_format(&"rar".to_string()), None);
    assert_eq!(output_file_name(&"out".to_string(), Format::TarZstd), "out.tar.zst");
    assert_eq!(output_file_name(&"out".to_string(), Format::TarBz2), "out.tar.bz");
}

#[test]
fn status_lines() {
    assert_eq!(status_message(&String::new()), "Switching directories...");
    assert_eq!(status_message(&"a.txt".to_string()), "Compressing: a.txt");
    assert!(is_new_file(&"a".to_string(), &"x".to_string(), &"y".to_string()));
    assert!(!is_new_file(&String::new(), &"x".to_string(), &"y".to_string()));
    assert!(!is_new_file(&"a".to_string(), &"x".to_string(), &"x".to_string()));
    assert_eq!(directory_status(&"b".to_string()), "Processing directory: b");
}

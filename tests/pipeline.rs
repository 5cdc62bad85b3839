use dirpack::encode::{encode_archive, encode_container, Format};
use dirpack::entry::{entries, num_files, EntryKind, WalkedNode};
use dirpack::pipeline::{build_tar_archive, build_zip_archive, LoadedEntry};
use dirpack::processing::{EntryError, FileData};
use dirpack::progress::CompressionProgress;
use std::io::Read;

fn comps(p: &str) -> Vec<String> {
    p.split('/').filter(|c| !c.is_empty()).map(|c| c.to_string()).collect()
}

fn node(p: &str, is_file: bool, is_dir: bool, has_children: bool) -> WalkedNode {
    WalkedNode { path: comps(p), is_file, is_dir, has_children }
}

/// The tree of the worked example: two files and one empty directory.
fn sample_walk() -> (Vec<String>, Vec<WalkedNode>) {
    let walk = vec![
        node("/src", false, true, true),
        node("/src/a.txt", true, false, false),
        node("/src/b", false, true, true),
        node("/src/b/b.txt", true, false, false),
        node("/src/c", false, true, false),
    ];
    (comps("/src"), walk)
}

fn load(walk_root: &Vec<String>, walk: &Vec<WalkedNode>, unreadable: &str) -> Vec<LoadedEntry> {
    entries(walk_root, walk)
        .into_iter()
        .map(|entry| {
            let rel = entry.relative.join("/");
            let file = if entry.kind == EntryKind::File && rel != unreadable {
                let contents: Vec<u8> = if rel == "a.txt" { b"0123456789".to_vec() } else { b"hello".to_vec() };
                Some(FileData {
                    size_bytes: contents.len() as u64,
                    permission_bits: 0o644,
                    modification_time_epoch_seconds: 1_700_000_000,
                    contents,
                })
            } else {
                None
            };
            LoadedEntry { entry, file }
        })
        .collect()
}

fn tar_modes(bytes: &[u8]) -> Vec<(u32, u64)> {
    let mut archive = tar::Archive::new(bytes);
    archive
        .entries()
        .unwrap()
        .map(|e| {
            let e = e.unwrap();
            (e.header().mode().unwrap(), e.header().mtime().unwrap())
        })
        .collect()
}

fn tar_entries(bytes: &[u8]) -> Vec<(String, Vec<u8>, u64)> {
    let mut archive = tar::Archive::new(bytes);
    let mut out = Vec::new();
    for e in archive.entries().unwrap() {
        let mut e = e.unwrap();
        let name = e.path().unwrap().to_string_lossy().to_string();
        let size = e.header().size().unwrap();
        let mut data = Vec::new();
        e.read_to_end(&mut data).unwrap();
        out.push((name, data, size));
    }
    out
}

#[test]
fn sample_tree_counts_three_units() {
    let (root, walk) = sample_walk();
    assert_eq!(num_files(&root, &walk), 3);
    let es = entries(&root, &walk);
    let names: Vec<String> = es.iter().map(|e| e.relative.join("/")).collect();
    assert_eq!(names, vec!["a.txt", "b", "b/b.txt", "c"]);
    assert_eq!(es[1].kind, EntryKind::NonEmptyDirectory);
    assert_eq!(es[3].kind, EntryKind::EmptyDirectory);
}

#[test]
fn sample_tree_tar_archive() {
    let (root, walk) = sample_walk();
    let total = num_files(&root, &walk);
    let loaded = load(&root, &walk, "");
    let mut progress = CompressionProgress::new(total, 0);
    let clock = std::time::Instant::now();
    let report = build_tar_archive(&loaded, &mut progress, &clock).unwrap();
    assert_eq!(progress.completed, 3);
    assert!(report.outcomes.iter().all(|o| o.is_ok()));
    let got = tar_entries(&report.archive);
    let names: Vec<&str> = got.iter().map(|(n, _, _)| n.as_str()).collect();
    assert_eq!(names, vec!["a.txt", "b/", "b/b.txt", "c/"]);
    assert_eq!(got[0].1, b"0123456789".to_vec());
    assert_eq!(got[0].2, 10);
    assert_eq!(got[2].1, b"hello".to_vec());
    assert_eq!(got[2].2, 5);
    let modes = tar_modes(&report.archive);
    assert_eq!(modes[0], (0o644, 1_700_000_000));
    assert_eq!(modes[1], (0o755, 0));
}

#[test]
fn long_name_is_appended_through_extension() {
    let long = "d".repeat(150);
    let root = comps("/src");
    let walk = vec![node(&format!("/src/{}", long), true, false, false)];
    let loaded: Vec<LoadedEntry> = entries(&root, &walk)
        .into_iter()
        .map(|entry| LoadedEntry {
            entry,
            file: Some(FileData {
                size_bytes: 3,
                permission_bits: 0o600,
                modification_time_epoch_seconds: 7,
                contents: b"abc".to_vec(),
            }),
        })
        .collect();
    let mut progress = CompressionProgress::new(1, 0);
    let clock = std::time::Instant::now();
    let report = build_tar_archive(&loaded, &mut progress, &clock).unwrap();
    assert_eq!(report.outcomes, vec![Ok(())]);
    let got = tar_entries(&report.archive);
    assert_eq!(got.len(), 1);
    assert_eq!(got[0].0, long);
    assert_eq!(got[0].1, b"abc".to_vec());
}

#[test]
fn unreadable_file_is_skipped_and_run_finishes() {
    let (root, walk) = sample_walk();
    let total = num_files(&root, &walk);
    let loaded = load(&root, &walk, "a.txt");
    let mut progress = CompressionProgress::new(total, 0);
    let clock = std::time::Instant::now();
    let report = build_tar_archive(&loaded, &mut progress, &clock).unwrap();
    assert_eq!(progress.completed, total);
    assert_eq!(report.outcomes[0], Err(EntryError::Unreadable));
    assert_eq!(report.outcomes.iter().filter(|o| o.is_err()).count(), 1);
    let got = tar_entries(&report.archive);
    let names: Vec<&str> = got.iter().map(|(n, _, _)| n.as_str()).collect();
    assert_eq!(names, vec!["b/", "b/b.txt", "c/"]);
}

#[test]
fn size_mismatch_is_reported() {
    let (root, walk) = sample_walk();
    let mut loaded = load(&root, &walk, "");
    if let Some(f) = loaded[0].file.as_mut() {
        f.size_bytes = 11;
    }
    let mut progress = CompressionProgress::new(3, 0);
    let clock = std::time::Instant::now();
    let report = build_tar_archive(&loaded, &mut progress, &clock).unwrap();
    assert_eq!(report.outcomes[0], Err(EntryError::SizeMismatch { expected: 11, actual: 10 }));
    assert_eq!(progress.completed, 3);
    assert_eq!(tar_entries(&report.archive).len(), 3);
}

#[test]
fn two_runs_give_same_entries() {
    let (root, walk) = sample_walk();
    let loaded = load(&root, &walk, "");
    let clock = std::time::Instant::now();
    let mut p1 = CompressionProgress::new(3, 0);
    let mut p2 = CompressionProgress::new(3, 0);
    let r1 = build_tar_archive(&loaded, &mut p1, &clock).unwrap();
    let r2 = build_tar_archive(&loaded, &mut p2, &clock).unwrap();
    assert_eq!(tar_entries(&r1.archive), tar_entries(&r2.archive));
}

#[test]
fn sample_tree_zip_archive() {
    let (root, walk) = sample_walk();
    let loaded = load(&root, &walk, "");
    let mut progress = CompressionProgress::new(3, 0);
    let clock = std::time::Instant::now();
    let report = build_zip_archive(&loaded, &mut progress, &clock).unwrap();
    assert_eq!(progress.completed, 3);
    let mut z = zip::ZipArchive::new(std::io::Cursor::new(report.archive)).unwrap();
    let mut names: Vec<String> = z.file_names().map(|n| n.to_string()).collect();
    names.sort();
    assert_eq!(names, vec!["a.txt", "b/", "b/b.txt", "c/"]);
    let mut data = String::new();
    z.by_name("b/b.txt").unwrap().read_to_string(&mut data).unwrap();
    assert_eq!(data, "hello");
}

#[test]
fn codecs_round_trip() {
    let data = b"some archive bytes, some archive bytes".to_vec();
    let gz = encode_container(Format::TarGz, data.clone()).unwrap();
    assert_ne!(gz, data);
    let mut out = Vec::new();
    flate2::read::GzDecoder::new(gz.as_slice()).read_to_end(&mut out).unwrap();
    assert_eq!(out, data);
    let bz = encode_container(Format::TarBz2, data.clone()).unwrap();
    let mut out = Vec::new();
    bzip2::read::BzDecoder::new(bz.as_slice()).read_to_end(&mut out).unwrap();
    assert_eq!(out, data);
    let xz = encode_container(Format::TarXz, data.clone()).unwrap();
    let mut out = Vec::new();
    xz2::read::XzDecoder::new(xz.as_slice()).read_to_end(&mut out).unwrap();
    assert_eq!(out, data);
    let zs = encode_container(Format::TarZstd, data.clone()).unwrap();
    assert_eq!(zstd::stream::decode_all(zs.as_slice()).unwrap(), data);
    assert_eq!(encode_container(Format::Zip, data.clone()).unwrap(), data);
}

#[test]
fn encode_archive_gzip_holds_tar() {
    let (root, walk) = sample_walk();
    let loaded = load(&root, &walk, "");
    let mut progress = CompressionProgress::new(3, 0);
    let clock = std::time::Instant::now();
    let report = encode_archive(Format::TarGz, &loaded, &mut progress, &clock).unwrap();
    let mut tar_bytes = Vec::new();
    flate2::read::GzDecoder::new(report.archive.as_slice()).read_to_end(&mut tar_bytes).unwrap();
    assert_eq!(tar_entries(&tar_bytes).len(), 4);
}

fn single_file(name: &str) -> Vec<LoadedEntry> {
    let root = comps("/src");
    let walk = vec![node(&format!("/src/{}", name), true, false, false)];
    entries(&root, &walk)
        .into_iter()
        .map(|entry| LoadedEntry {
            entry,
            file: Some(FileData {
                size_bytes: 2,
                permission_bits: 0o644,
                modification_time_epoch_seconds: 1,
                contents: b"ok".to_vec(),
            }),
        })
        .collect()
}

#[test]
fn dot_names_are_taken_by_tar() {
    for name in [".gitignore", "v1..2.txt"] {
        let loaded = single_file(name);
        let mut progress = CompressionProgress::new(1, 0);
        let clock = std::time::Instant::now();
        let report = build_tar_archive(&loaded, &mut progress, &clock).unwrap();
        assert_eq!(report.outcomes, vec![Ok(())]);
        assert_eq!(tar_entries(&report.archive)[0].0, name);
    }
}

#[test]
fn two_zip_runs_are_identical() {
    let (root, walk) = sample_walk();
    let loaded = load(&root, &walk, "");
    let clock = std::time::Instant::now();
    let mut p1 = CompressionProgress::new(3, 0);
    let mut p2 = CompressionProgress::new(3, 0);
    let r1 = build_zip_archive(&loaded, &mut p1, &clock).unwrap();
    let r2 = build_zip_archive(&loaded, &mut p2, &clock).unwrap();
    assert_eq!(r1.archive, r2.archive);
}

#[test]
fn zip_skips_unreadable_file() {
    let (root, walk) = sample_walk();
    let loaded = load(&root, &walk, "b/b.txt");
    let mut progress = CompressionProgress::new(3, 0);
    let clock = std::time::Instant::now();
    let report = build_zip_archive(&loaded, &mut progress, &clock).unwrap();
    assert_eq!(progress.completed, 3);
    assert_eq!(report.outcomes[2], Err(EntryError::Unreadable));
    let z = zip::ZipArchive::new(std::io::Cursor::new(report.archive)).unwrap();
    let mut names: Vec<String> = z.file_names().map(|n| n.to_string()).collect();
    names.sort();
    assert_eq!(names, vec!["a.txt", "b/", "c/"]);
}

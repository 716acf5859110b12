use gitka::compress::{
    archive_payload, decode_part, find_archive_parts, find_raw_content, level_for_tier, part_name,
    raw_total, read_part_stream, space_needed, verify_part, BudgetCheck, SampleSet,
};
use gitka::config::{CompressionTier, Config, VolumeSplitting};
use gitka::dedup::DedupStore;
use gitka::error::GitkaError;
use gitka::format::{decode_stream, encode_entries, ArchiveEntry, EntryBody};
use gitka::writer::{compress_directory, decompress_parts, referenced_parts, restore_entries, ArchiveWriter};

fn files() -> Vec<(String, Vec<u8>)> {
    vec![
        ("file1.txt".to_string(), b"hello world".to_vec()),
        ("subdir/file2.txt".to_string(), b"nested file".to_vec()),
    ]
}

fn contents(entries: &[ArchiveEntry]) -> Vec<(String, Vec<u8>)> {
    entries
        .iter()
        .map(|e| match &e.body {
            EntryBody::Raw(c) => (e.path.clone(), c.clone()),
            EntryBody::DedupRef(_) => (e.path.clone(), Vec::new()),
        })
        .collect()
}

#[test]
fn test_compress_decompress_roundtrip() {
    let config = Config::default().compression;
    let (parts, result) =
        compress_directory(files(), "test.gitka.zst".to_string(), &config, None).unwrap();
    assert!(result.total_size > 0);
    assert_eq!(parts.len(), 1);
    assert_eq!(parts[0].name, "test.gitka.zst");

    let data: Vec<Vec<u8>> = parts.iter().map(|p| p.data.clone()).collect();
    let entries = decompress_parts(&data, None).unwrap();
    let bytes = raw_total(&entries);
    assert!(bytes > 0);

    let extracted = contents(&entries);
    assert_eq!(extracted[0], ("file1.txt".to_string(), b"hello world".to_vec()));
    assert_eq!(extracted[1], ("subdir/file2.txt".to_string(), b"nested file".to_vec()));
}

#[test]
fn split_archive_roundtrip() {
    let mut config = Config::default().compression;
    config.volume_splitting = Some(VolumeSplitting { size_mb: 1 });
    let big = vec![7u8; 700 * 1024];
    let input = vec![
        ("a.bin".to_string(), big.clone()),
        ("b.bin".to_string(), big.clone()),
        ("c.txt".to_string(), b"tail".to_vec()),
    ];
    let (parts, result) = compress_directory(input.clone(), "r.gitka.zst".to_string(), &config, None).unwrap();
    assert_eq!(parts.len(), 2);
    assert_eq!(result.volume_count, 2);
    assert_eq!(parts[1].name, "r.gitka.zst.002");
    assert_eq!(result.part_files, vec!["r.gitka.zst".to_string(), "r.gitka.zst.002".to_string()]);
    let total: u64 = parts.iter().map(|p| p.data.len() as u64).sum();
    assert_eq!(result.total_size, total);

    let data: Vec<Vec<u8>> = parts.iter().map(|p| p.data.clone()).collect();
    let entries = decompress_parts(&data, None).unwrap();
    assert_eq!(contents(&entries), input);
    assert_eq!(raw_total(&entries), (700 * 1024 * 2 + 4) as u64);
}

#[test]
fn first_part_has_header_others_not() {
    let mut config = Config::default().compression;
    config.volume_splitting = Some(VolumeSplitting { size_mb: 1 });
    let input = vec![("a".to_string(), vec![1u8; 2 * 1024 * 1024])];
    let (parts, _) = compress_directory(input, "z".to_string(), &config, None).unwrap();
    // The only file fills the first part, so an empty second part follows.
    assert_eq!(parts.len(), 2);
    assert_eq!(&parts[0].data[0..5], b"GITKA");
    assert_eq!(&parts[1].data[0..4], &[0x28, 0xB5, 0x2F, 0xFD]);
    assert!(decode_part(&parts[1].data, None).unwrap().is_empty());
}

#[test]
fn budget_tiers() {
    let config = Config::default().compression;
    assert_eq!(BudgetCheck::new(300, 100).determine_tier(&config), CompressionTier::Low);
    assert_eq!(BudgetCheck::new(299, 100).determine_tier(&config), CompressionTier::Medium);
    assert_eq!(BudgetCheck::new(100, 100).determine_tier(&config), CompressionTier::Medium);
    assert_eq!(BudgetCheck::new(99, 100).determine_tier(&config), CompressionTier::High);
    assert_eq!(BudgetCheck::new(0, 0).determine_tier(&config), CompressionTier::Low);
    let mut fixed = config;
    fixed.tier = CompressionTier::High;
    assert_eq!(BudgetCheck::new(1000, 1).determine_tier(&fixed), CompressionTier::High);
    assert!(BudgetCheck::new(24, 100).is_over_budget());
    assert!(!BudgetCheck::new(25, 100).is_over_budget());
    assert!(!BudgetCheck::new(50, 100).is_over_budget());
    assert!(!BudgetCheck::new(0, 0).is_over_budget());
    assert_eq!(BudgetCheck::new(0, 0).compression_ratio(&CompressionTier::High), 4);
}

#[test]
fn tier_levels() {
    assert_eq!(level_for_tier(&CompressionTier::Low), 6);
    assert_eq!(level_for_tier(&CompressionTier::Medium), 15);
    assert_eq!(level_for_tier(&CompressionTier::High), 22);
    assert_eq!(level_for_tier(&CompressionTier::Auto), 6);
}

#[test]
fn part_names_and_discovery() {
    assert_eq!(part_name("repo.gitka.zst", 1), "repo.gitka.zst");
    assert_eq!(part_name("repo.gitka.zst", 2), "repo.gitka.zst.002");
    assert_eq!(part_name("repo.gitka.zst", 12), "repo.gitka.zst.012");
    assert_eq!(part_name("repo.gitka.zst", 1234), "repo.gitka.zst.1234");
    let present = vec![
        "repo.gitka.zst".to_string(),
        "repo.gitka.zst.002".to_string(),
        "repo.gitka.zst.003".to_string(),
        "repo.gitka.zst.005".to_string(),
    ];
    assert_eq!(
        find_archive_parts("repo.gitka.zst", &present),
        vec!["repo.gitka.zst", "repo.gitka.zst.002", "repo.gitka.zst.003"]
    );
    assert_eq!(find_archive_parts("x", &Vec::new()), vec!["x"]);
}

#[test]
fn payload_without_header_is_whole_file() {
    let data = b"not an archive".to_vec();
    assert_eq!(archive_payload(&data).unwrap(), &data[..]);
    assert!(matches!(read_part_stream(&data, None), Err(GitkaError::Extraction(_))));
    match verify_part("p", &data, None) {
        Err(GitkaError::VerificationFailed(p, m)) => {
            assert_eq!(p, "p");
            assert_eq!(m, "Decompression failed");
        }
        _ => panic!("expected a verification failure"),
    }
}

#[test]
fn payload_with_bad_version_is_rejected() {
    let mut data = vec![0x47, 0x49, 0x54, 0x4b, 0x41, 9, 1, 0, 0, 0, 0, 0];
    data.extend_from_slice(b"rest");
    match verify_part("p", &data, None) {
        Err(GitkaError::VerificationFailed(_, m)) => {
            assert_eq!(m, "Compression error: Unsupported archive version: 9")
        }
        _ => panic!("expected a verification failure"),
    }
}

fn raw(path: &str, content: &[u8]) -> ArchiveEntry {
    ArchiveEntry { path: path.to_string(), body: EntryBody::Raw(content.to_vec()) }
}

#[test]
fn stream_encode_decode() {
    let es = vec![
        raw("a", b"xyz"),
        ArchiveEntry { path: "b".to_string(), body: EntryBody::DedupRef("ab12".to_string()) },
        raw("c/d", b""),
    ];
    let mut out = Vec::new();
    encode_entries(&es, &mut out);
    // path len, path, marker, content len, content
    assert_eq!(&out[0..4], &[1, 0, 0, 0]);
    assert_eq!(out[4], b'a');
    assert_eq!(out[5], 0x00);
    assert_eq!(&out[6..14], &[3, 0, 0, 0, 0, 0, 0, 0]);
    let back = decode_stream(&out).unwrap();
    assert_eq!(back.len(), 3);
    assert_eq!(back[0].path, "a");
    assert!(matches!(&back[1].body, EntryBody::DedupRef(h) if h == "ab12"));
    assert!(matches!(&back[2].body, EntryBody::Raw(c) if c.is_empty()));
    // A cut record is an error; fewer than four trailing bytes end the stream.
    assert!(decode_stream(&out[..out.len() - 1]).is_err());
    let mut padded = out.clone();
    padded.extend_from_slice(&[0, 0, 0]);
    assert_eq!(decode_stream(&padded).unwrap().len(), 3);
}

#[test]
fn raw_content_lookup_by_offset() {
    let es = vec![raw("a", b"first"), raw("b", b"second")];
    let mut out = Vec::new();
    encode_entries(&es, &mut out);
    // The second record starts after 4 + 1 + 1 + 8 + 5 bytes.
    assert_eq!(find_raw_content(&out, 19, 6, "p").unwrap(), b"second".to_vec());
    assert_eq!(find_raw_content(&out, 0, 5, "p").unwrap(), b"first".to_vec());
    match find_raw_content(&out, 0, 4, "p") {
        Err(GitkaError::Extraction(m)) => {
            assert_eq!(m, "Dedup reference length mismatch: expected 4, found 5")
        }
        _ => panic!("expected a mismatch"),
    }
    match find_raw_content(&out, 7, 5, "part.002") {
        Err(GitkaError::Extraction(m)) => {
            assert_eq!(m, "Unable to locate dedup source content at offset 7 in part.002")
        }
        _ => panic!("expected not found"),
    }
}

#[test]
fn dedup_writer_writes_references() {
    let config = Config::default().compression;
    let mut store = DedupStore::at("/tmp/store".to_string());
    let mut w = ArchiveWriter::new("d.gitka.zst".to_string(), &config, None);
    assert!(w.add_file_dedup("one".to_string(), b"same".to_vec(), &mut store).unwrap().is_none());
    assert!(w.add_file_dedup("two".to_string(), b"same".to_vec(), &mut store).unwrap().is_none());
    assert_eq!(store.entry_count(), 1);
    assert_eq!(store.bytes_saved(), 8);
    let hash = DedupStore::hash_content(b"same");
    let r = store.lookup(&hash).unwrap();
    assert_eq!(r.source_part, 1);
    assert_eq!(r.offset, 0);
    assert_eq!(r.length, 4);
    let (last, result) = w.finish(Some(&store)).unwrap();
    assert_eq!(result.dedup_bytes_saved, 8);
    let entries = decode_part(&last.data, None).unwrap();
    assert!(matches!(&entries[0].body, EntryBody::Raw(c) if c == b"same"));
    assert!(matches!(&entries[1].body, EntryBody::DedupRef(h) if *h == hash));
}

#[test]
fn dictionary_samples() {
    assert!(SampleSet::is_candidate(1));
    assert!(!SampleSet::is_candidate(0));
    assert!(!SampleSet::is_candidate(10 * 1024 * 1024 + 1));
    let empty = SampleSet::new(1);
    match empty.train() {
        Err(GitkaError::Compression(m)) => {
            assert_eq!(m, "No suitable files found for dictionary training")
        }
        _ => panic!("expected no samples"),
    }
    let mut set = SampleSet::new(1);
    assert!(!set.add(vec![1u8; 1024]));
    assert!(!set.is_full());
    assert!(set.add(vec![2u8; 4 * 1024 * 1024]));
}

#[test]
fn recovery_overhead_in_budget() {
    assert_eq!(space_needed(1000, false), 1000);
    assert_eq!(space_needed(1000, true), 1250);
    assert_eq!(space_needed(u64::MAX, true), u64::MAX);
    assert!(BudgetCheck::new(300, space_needed(1000, true)).is_over_budget());
    assert!(!BudgetCheck::new(300, space_needed(1000, false)).is_over_budget());
}

#[test]
fn dictionary_archive_roundtrip() {
    let mut dict = Vec::new();
    for i in 0..64u32 {
        dict.extend_from_slice(format!("fn function_{}() {{ let value = {}; }}\n", i, i * 7).as_bytes());
    }
    let input = vec![
        ("src/a.rs".to_string(), b"fn function_3() { let value = 21; }\n".to_vec()),
        ("src/b.rs".to_string(), b"fn function_9() { let value = 63; }\n".to_vec()),
    ];
    let config = Config::default().compression;
    let (parts, _) =
        compress_directory(input.clone(), "d.gitka.zst".to_string(), &config, Some(dict.clone())).unwrap();
    let data: Vec<Vec<u8>> = parts.iter().map(|p| p.data.clone()).collect();
    let entries = decompress_parts(&data, Some(&dict)).unwrap();
    assert_eq!(contents(&entries), input);
    assert!(verify_part("p", &data[0], Some(&dict)).is_ok());
}

#[test]
fn references_after_references_read_back() {
    let config = Config::default().compression;
    let mut store = DedupStore::at("/tmp/store".to_string());
    let mut w = ArchiveWriter::new("m.gitka.zst".to_string(), &config, None);
    w.add_file_dedup("a".to_string(), b"first".to_vec(), &mut store).unwrap();
    w.add_file_dedup("b".to_string(), b"first".to_vec(), &mut store).unwrap();
    w.add_file_dedup("c".to_string(), b"second content".to_vec(), &mut store).unwrap();
    w.add_file_dedup("d".to_string(), b"second content".to_vec(), &mut store).unwrap();
    let (last, _) = w.finish(Some(&store)).unwrap();
    let stream = read_part_stream(&last.data, None).unwrap();
    for content in [b"first".to_vec(), b"second content".to_vec()] {
        let r = store.lookup(&DedupStore::hash_content(&content)).unwrap().clone();
        assert_eq!(r.source_part, 1);
        assert_eq!(find_raw_content(&stream, r.offset, r.length, "m.gitka.zst").unwrap(), content);
    }
    let entries = decode_part(&last.data, None).unwrap();
    let names = vec!["m.gitka.zst".to_string()];
    let restored = restore_entries(&entries, Some(&store), "m.gitka.zst", &names, &vec![stream]).unwrap();
    let got: Vec<(String, Vec<u8>)> = restored;
    assert_eq!(got, vec![
        ("a".to_string(), b"first".to_vec()),
        ("b".to_string(), b"first".to_vec()),
        ("c".to_string(), b"second content".to_vec()),
        ("d".to_string(), b"second content".to_vec()),
    ]);
    let other = vec!["other.gitka.zst".to_string()];
    let missing = restore_entries(&entries, Some(&store), "other.gitka.zst", &other, &vec![Vec::new()]);
    match missing {
        Err(GitkaError::Extraction(m)) => assert_eq!(m, "Failed to open archive: m.gitka.zst"),
        _ => panic!("expected a missing part"),
    }
    let without = restore_entries(&entries, None, "m.gitka.zst", &names, &vec![Vec::new()]).unwrap();
    assert_eq!(without[1], ("b".to_string(), Vec::new()));
}

#[test]
fn references_into_another_repositorys_archive_restore() {
    let config = Config::default().compression;
    let mut store = DedupStore::at("/tmp/store".to_string());
    let mut first = ArchiveWriter::new("one.gitka.zst".to_string(), &config, None);
    first.add_file_dedup("lib/shared.rs".to_string(), b"shared vendored code".to_vec(), &mut store).unwrap();
    let (first_part, _) = first.finish(Some(&store)).unwrap();
    let mut second = ArchiveWriter::new("two.gitka.zst".to_string(), &config, None);
    second.add_file_dedup("own.txt".to_string(), b"own".to_vec(), &mut store).unwrap();
    second.add_file_dedup("vendor/shared.rs".to_string(), b"shared vendored code".to_vec(), &mut store).unwrap();
    let (second_part, _) = second.finish(Some(&store)).unwrap();
    let entries = decode_part(&second_part.data, None).unwrap();
    assert!(matches!(&entries[1].body, EntryBody::DedupRef(_)));
    assert_eq!(referenced_parts(&entries, Some(&store), "two.gitka.zst"), vec!["one.gitka.zst".to_string()]);
    let names = vec!["two.gitka.zst".to_string(), "one.gitka.zst".to_string()];
    let streams = vec![
        read_part_stream(&second_part.data, None).unwrap(),
        read_part_stream(&first_part.data, None).unwrap(),
    ];
    let restored = restore_entries(&entries, Some(&store), "two.gitka.zst", &names, &streams).unwrap();
    assert_eq!(restored, vec![
        ("own.txt".to_string(), b"own".to_vec()),
        ("vendor/shared.rs".to_string(), b"shared vendored code".to_vec()),
    ]);
}

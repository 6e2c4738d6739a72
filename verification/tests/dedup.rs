use pinkbin::dedup::{
    check_waste_fits, confirm_duplicates, dup_path, group_by_size, hash_full, hash_head, head_groups, hex_encode,
    mtime_string, partition_by_digest, sort_by_waste, summarize_duplicates, DedupOptions,
    DupFile, DupGroup, HeadHashGroup, ScannedFile,
};

const ABC_SHA256: &str = "ba7816bf8f01cfea414140de5dae2223b00361a396177a9cb410ff61f20015ad";
const EMPTY_SHA256: &str = "e3b0c44298fc1c149afbf4c8996fb92427ae41e4649b934ca495991b7852b855";

fn file(path: &str, size: u64) -> ScannedFile {
    ScannedFile { path: path.to_string(), size }
}

/// Runs the three phases over in-memory files, as the host does over a disk.
fn find_in_memory(files: &[(&str, &[u8])], opts: &DedupOptions) -> Vec<DupGroup> {
    let scanned: Vec<ScannedFile> =
        files.iter().map(|(p, c)| file(p, c.len() as u64)).collect::<Vec<_>>();
    let content = |path: &str| files.iter().find(|(p, _)| *p == path).unwrap().1;
    let mut all = Vec::new();
    for sg in group_by_size(&scanned, opts.min_size) {
        let paths: Vec<String> = sg.members.iter().map(|&i| scanned[i].path.clone()).collect();
        let heads: Vec<Option<String>> =
            paths.iter().map(|p| Some(hash_head(content(p), opts.head_size))).collect();
        for hg in head_groups(sg.size, &paths, &heads) {
            let fulls: Vec<Option<String>> =
                hg.files.iter().map(|p| Some(hash_full(content(p)))).collect();
            let mtimes: Vec<Option<u64>> = hg.files.iter().map(|_| Some(1_700_000_000)).collect();
            all.extend(confirm_duplicates(&hg, &fulls, &mtimes));
        }
    }
    sort_by_waste(all)
}

#[test]
fn default_options() {
    let o = DedupOptions::default();
    assert_eq!(o.min_size, 1024);
    assert_eq!(o.head_size, 4096);
}

#[test]
fn hex_encode_is_lowercase_two_digits_per_byte() {
    assert_eq!(hex_encode(&[0x00, 0x0f, 0xab, 0xff]), "000fabff");
    assert_eq!(hex_encode(&[]), "");
}

#[test]
fn digests_are_sha256_hex() {
    assert_eq!(hash_full(b"abc"), ABC_SHA256);
    assert_eq!(hash_full(b""), EMPTY_SHA256);
    assert_eq!(hash_head(b"abcdef", 3), ABC_SHA256);
    assert_eq!(hash_head(b"abc", 4096), ABC_SHA256);
    assert_ne!(hash_head(b"abcdef", 4), ABC_SHA256);
}

#[test]
fn mtime_and_path_reporting() {
    assert_eq!(mtime_string(Some(1_700_000_000)).as_deref(), Some("1700000000"));
    assert_eq!(mtime_string(Some(0)).as_deref(), Some("0"));
    assert_eq!(mtime_string(None), None);
    assert_eq!(dup_path("C:\\Users\\a\\b.txt"), "C:/Users/a/b.txt");
}

#[test]
fn size_groups_keep_collisions_in_first_seen_order() {
    let files = vec![
        file("a", 10),
        file("b", 20),
        file("c", 10),
        file("d", 5),
        file("e", 20),
        file("f", 5),
        file("g", 30),
    ];
    let groups = group_by_size(&files, 6);
    assert_eq!(groups.len(), 2);
    assert_eq!(groups[0].size, 10);
    assert_eq!(groups[0].members, vec![0, 2]);
    assert_eq!(groups[1].size, 20);
    assert_eq!(groups[1].members, vec![1, 4]);
    assert!(group_by_size(&Vec::new(), 0).is_empty());
}

#[test]
fn digest_partition_skips_unreadable_and_unique() {
    let d = |s: &str| Some(s.to_string());
    let digests = vec![d("x"), None, d("y"), d("x"), None, d("z"), d("y"), d("x")];
    let classes = partition_by_digest(&digests);
    assert_eq!(classes, vec![vec![0, 3, 7], vec![2, 6]]);
    assert!(partition_by_digest(&vec![None, None]).is_empty());
}

#[test]
fn head_groups_carry_size_digest_and_paths() {
    let paths: Vec<String> = vec!["p0".into(), "p1".into(), "p2".into()];
    let heads = vec![Some("h".to_string()), Some("k".to_string()), Some("h".to_string())];
    let groups = head_groups(42, &paths, &heads);
    assert_eq!(groups.len(), 1);
    assert_eq!(groups[0].size, 42);
    assert_eq!(groups[0].head_hash, "h");
    assert_eq!(groups[0].files, vec!["p0".to_string(), "p2".to_string()]);
    assert_eq!(groups[0].members, vec![0, 2]);
}

#[test]
fn confirmed_groups_compute_waste() {
    let hg = HeadHashGroup {
        size: 100,
        head_hash: "h".into(),
        files: vec!["a\\1".into(), "b\\2".into(), "c\\3".into(), "d\\4".into()],
        members: vec![0, 1, 2, 3],
    };
    let fulls = vec![Some("f".to_string()), Some("f".to_string()), None, Some("f".to_string())];
    let mtimes = vec![Some(1), None, Some(3), Some(4)];
    let groups = confirm_duplicates(&hg, &fulls, &mtimes);
    assert_eq!(groups.len(), 1);
    let g = &groups[0];
    assert_eq!(g.hash, "f");
    assert_eq!(g.size, 100);
    assert_eq!(g.waste_bytes, 200);
    let paths: Vec<&str> = g.files.iter().map(|f| f.path.as_str()).collect();
    assert_eq!(paths, ["a/1", "b/2", "d/4"]);
    assert_eq!(g.files[0].mtime.as_deref(), Some("1"));
    assert_eq!(g.files[1].mtime, None);
}

fn group(waste: u64, tag: &str) -> DupGroup {
    DupGroup {
        hash: tag.to_string(),
        size: waste,
        files: vec![
            DupFile { path: format!("{tag}1"), mtime: None },
            DupFile { path: format!("{tag}2"), mtime: None },
        ],
        waste_bytes: waste,
    }
}

#[test]
fn sort_by_waste_is_descending_and_stable() {
    let sorted = sort_by_waste(vec![group(5, "a"), group(9, "b"), group(5, "c"), group(7, "d")]);
    let tags: Vec<&str> = sorted.iter().map(|g| g.hash.as_str()).collect();
    assert_eq!(tags, ["b", "d", "a", "c"]);
}

#[test]
fn summary_totals_cover_all_groups() {
    let groups = vec![group(9, "b"), group(7, "d"), group(5, "a")];
    let report = summarize_duplicates(groups, 2);
    assert_eq!(report.total_groups, 2);
    assert_eq!(report.total_dup_files, 6);
    assert_eq!(report.total_waste_bytes, 21);
    assert_eq!(report.groups.len(), 2);
    let all = summarize_duplicates(vec![group(1, "x")], 0);
    assert_eq!(all.total_groups, 1);
}

#[test]
fn finds_exact_duplicates() {
    let files: Vec<(&str, &[u8])> = vec![
        ("a.txt", b"hello world, this is a test file"),
        ("b.txt", b"hello world, this is a test file"),
        ("c.txt", b"completely different content here"),
    ];
    let groups = find_in_memory(&files, &DedupOptions { min_size: 10, head_size: 4096 });
    assert_eq!(groups.len(), 1, "should find exactly 1 dup group");
    assert_eq!(groups[0].files.len(), 2);
    assert!(groups[0].waste_bytes > 0);
}

#[test]
fn ignores_files_below_min_size() {
    let files: Vec<(&str, &[u8])> = vec![("a.txt", b"abc"), ("b.txt", b"abc")];
    let groups = find_in_memory(&files, &DedupOptions::default());
    assert!(groups.is_empty(), "should not find dups below min_size");
}

#[test]
fn different_content_same_size_not_dup() {
    let files: Vec<(&str, &[u8])> = vec![
        ("a.bin", b"aaaaaaaaaaaaaaaaaaaaaaaaaaaaaaa"),
        ("b.bin", b"bbbbbbbbbbbbbbbbbbbbbbbbbbbbbbb"),
    ];
    let groups = find_in_memory(&files, &DedupOptions { min_size: 10, head_size: 4096 });
    assert!(groups.is_empty(), "same-size different-content should not be dup");
}

#[test]
fn same_head_different_tail_not_dup() {
    let mut x = vec![b'Z'; 5000];
    let mut y = vec![b'Z'; 5000];
    x[4999] = b'x';
    y[4999] = b'y';
    let files: Vec<(&str, &[u8])> = vec![("x", x.as_slice()), ("y", y.as_slice())];
    assert!(find_in_memory(&files, &DedupOptions { min_size: 10, head_size: 4096 }).is_empty());
}

#[test]
fn three_identical_files_one_group() {
    let content: &[u8] = b"identical content for testing dedup logic xxxxxx";
    let files: Vec<(&str, &[u8])> = vec![("a.txt", content), ("b.txt", content), ("c.txt", content)];
    let groups = find_in_memory(&files, &DedupOptions { min_size: 10, head_size: 4096 });
    assert_eq!(groups.len(), 1);
    assert_eq!(groups[0].files.len(), 3);
    assert_eq!(groups[0].waste_bytes, content.len() as u64 * 2);
}

#[test]
fn groups_sorted_by_waste_descending() {
    let small: &[u8] = b"small dup content aa";
    let large = vec![b'X'; 5000];
    let files: Vec<(&str, &[u8])> =
        vec![("s1.txt", small), ("s2.txt", small), ("l1.txt", large.as_slice()), ("l2.txt", large.as_slice())];
    let groups = find_in_memory(&files, &DedupOptions { min_size: 10, head_size: 4096 });
    assert_eq!(groups.len(), 2);
    assert!(groups[0].waste_bytes > groups[1].waste_bytes);
    assert_eq!(groups[0].hash, hash_full(&large));
}

#[test]
fn nested_directories_scanned() {
    let content: &[u8] = b"nested duplicate content for testing xxxxxxxxx";
    let files: Vec<(&str, &[u8])> = vec![("top.txt", content), ("sub1/sub2/deep.txt", content)];
    let groups = find_in_memory(&files, &DedupOptions { min_size: 10, head_size: 4096 });
    assert_eq!(groups.len(), 1);
    assert_eq!(groups[0].files.len(), 2);
}

#[test]
fn empty_dir_no_crash() {
    let groups = find_in_memory(&[], &DedupOptions::default());
    assert!(groups.is_empty());
}

#[test]
fn three_phases_report_each_duplicate_once() {
    // a, b, c share a size; a and b share head and content; c differs in
    // content only; d has another size.
    let files = vec![file("a", 8), file("b", 8), file("c", 8), file("d", 9)];
    let contents: Vec<&[u8]> = vec![b"abcdefgh", b"abcdefgh", b"abcdXXXX", b"abcdefghi"];
    let head_size = 4;
    let mut reported: Vec<Vec<String>> = Vec::new();
    for sg in group_by_size(&files, 1) {
        let names: Vec<String> = sg.members.iter().map(|&i| files[i].path.clone()).collect();
        let heads: Vec<Option<String>> = sg
            .members
            .iter()
            .map(|&i| Some(hash_head(&contents[i][..head_size.min(contents[i].len())], head_size)))
            .collect();
        for hg in head_groups(sg.size, &names, &heads) {
            let fulls: Vec<Option<String>> =
                hg.members.iter().map(|&k| Some(hash_full(contents[sg.members[k]]))).collect();
            let mtimes = vec![None; fulls.len()];
            for g in confirm_duplicates(&hg, &fulls, &mtimes) {
                assert_eq!(g.hash, hash_full(b"abcdefgh"));
                reported.push(g.files.iter().map(|f| f.path.clone()).collect());
            }
        }
    }
    assert_eq!(reported, vec![vec!["a".to_string(), "b".to_string()]]);
}

#[test]
fn waste_bound_counts_copies_per_digest() {
    let d = |x: &str| Some(x.to_string());
    // Two copies of "a": one copy's worth of waste.
    assert!(check_waste_fits(u64::MAX, &vec![d("a"), d("b"), None, d("a")]));
    // Three copies of "a": twice the size does not fit.
    assert!(!check_waste_fits(u64::MAX / 2 + 1, &vec![d("a"), d("a"), d("a")]));
    assert!(check_waste_fits(u64::MAX / 2, &vec![d("a"), d("a"), d("a")]));
    assert!(check_waste_fits(7, &vec![]));
}

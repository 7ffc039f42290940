use dupfind::digest::{digest_hex, file_digest};
use dupfind::index::{DuplicateGroup, ResultIndex};
use dupfind::listing::{listing, listing_entries};

fn index_of(files: &[(&[u8], &str)]) -> ResultIndex {
    let mut index = ResultIndex::new();
    for (contents, path) in files {
        index.insert(file_digest(contents), path.to_string());
    }
    index
}

fn sorted_groups(report: &[DuplicateGroup]) -> Vec<(u128, Vec<String>)> {
    let mut out: Vec<(u128, Vec<String>)> = report
        .iter()
        .map(|g| {
            let mut paths = g.paths.clone();
            paths.sort();
            (g.digest, paths)
        })
        .collect();
    out.sort();
    out
}

#[test]
fn hex_of_zero_keeps_leading_zeros() {
    assert_eq!(digest_hex(0), "00000000000000000000000000000000");
}

#[test]
fn hex_of_known_value() {
    assert_eq!(
        digest_hex(0x0123456789abcdef_fedcba9876543210),
        "0123456789abcdeffedcba9876543210"
    );
    assert_eq!(digest_hex(u128::MAX), "ffffffffffffffffffffffffffffffff");
}

#[test]
fn md5_of_empty_content() {
    assert_eq!(digest_hex(file_digest(b"")), "d41d8cd98f00b204e9800998ecf8427e");
}

#[test]
fn md5_of_text() {
    assert_eq!(
        digest_hex(file_digest(b"The quick brown fox jumps over the lazy dog")),
        "9e107d9d372bb6826bd81d3542a419d6"
    );
}

#[test]
fn insert_keeps_arrival_order() {
    let index = index_of(&[(b"x", "one"), (b"y", "two"), (b"x", "three")]);
    assert_eq!(index.len(), 2);
    let report = index.into_report();
    assert_eq!(report.len(), 1);
    assert_eq!(report[0].digest, file_digest(b"x"));
    assert_eq!(report[0].paths, vec!["one".to_string(), "three".to_string()]);
}

#[test]
fn same_content_shares_a_group_and_different_content_does_not() {
    let index = index_of(&[
        (b"alpha", "d1/a"),
        (b"beta", "d2/b"),
        (b"alpha", "d3/deep/c"),
        (b"beta", "e"),
        (b"gamma", "f"),
    ]);
    let report = index.into_report();
    assert_eq!(report.len(), 2);
    for g in &report {
        assert_eq!(g.paths.len(), 2);
    }
    assert_eq!(report[0].paths, vec!["d1/a".to_string(), "d3/deep/c".to_string()]);
    assert_eq!(report[1].paths, vec!["d2/b".to_string(), "e".to_string()]);
}

#[test]
fn sole_file_is_not_reported() {
    let index = index_of(&[(b"only", "lonely"), (b"pair", "p1"), (b"pair", "p2")]);
    let report = index.into_report();
    assert!(report.iter().all(|g| !g.paths.contains(&"lonely".to_string())));
    let all: Vec<String> = report.iter().flat_map(|g| g.paths.clone()).collect();
    assert_eq!(all, vec!["p1".to_string(), "p2".to_string()]);
}

#[test]
fn empty_index_reports_nothing() {
    let report = ResultIndex::new().into_report();
    assert!(report.is_empty());
    assert_eq!(listing(&report).unwrap(), "{}");
}

#[test]
fn grouping_does_not_depend_on_arrival_order() {
    let files: Vec<(&[u8], &str)> = vec![
        (b"a", "1"),
        (b"b", "2"),
        (b"a", "3"),
        (b"c", "4"),
        (b"b", "5"),
        (b"a", "6"),
    ];
    let mut reversed = files.clone();
    reversed.reverse();
    let first = sorted_groups(&index_of(&files).into_report());
    let second = sorted_groups(&index_of(&reversed).into_report());
    assert_eq!(first, second);
    assert_eq!(first.len(), 2);
}

#[test]
fn listing_entries_render_digests() {
    let report = vec![DuplicateGroup { digest: 255, paths: vec!["x".to_string(), "y".to_string()] }];
    let entries = listing_entries(&report);
    assert_eq!(
        entries,
        vec![(
            "000000000000000000000000000000ff".to_string(),
            vec!["x".to_string(), "y".to_string()]
        )]
    );
}

#[test]
fn listing_of_two_equal_files_and_one_other() {
    let index = index_of(&[(b"same bytes", "a.txt"), (b"same bytes", "b.txt"), (b"other", "c.txt")]);
    let report = index.into_report();
    let text = listing(&report).unwrap();
    let value: serde_json::Value = serde_json::from_str(&text).unwrap();
    let object = value.as_object().unwrap();
    assert_eq!(object.len(), 1);
    let (key, paths) = object.iter().next().unwrap();
    assert_eq!(key, &digest_hex(file_digest(b"same bytes")));
    let mut names: Vec<String> =
        paths.as_array().unwrap().iter().map(|p| p.as_str().unwrap().to_string()).collect();
    names.sort();
    assert_eq!(names, vec!["a.txt".to_string(), "b.txt".to_string()]);
    assert!(!text.contains("c.txt"));
}

#[test]
fn listing_holds_only_groups_of_two_or_more() {
    let index = index_of(&[(b"1", "a"), (b"2", "b"), (b"1", "c"), (b"3", "d"), (b"3", "e"), (b"3", "f")]);
    let text = listing(&index.into_report()).unwrap();
    let value: serde_json::Value = serde_json::from_str(&text).unwrap();
    let object = value.as_object().unwrap();
    assert_eq!(object.len(), 2);
    let mut all: Vec<String> = Vec::new();
    for (_, paths) in object {
        let arr = paths.as_array().unwrap();
        assert!(arr.len() >= 2);
        for p in arr {
            all.push(p.as_str().unwrap().to_string());
        }
    }
    all.sort();
    assert_eq!(all, vec!["a", "c", "d", "e", "f"]);
}

#[test]
fn many_files_with_one_content_form_one_group() {
    let mut index = ResultIndex::new();
    for k in 0..50 {
        index.insert(file_digest(b"same"), format!("f{}", k));
    }
    index.insert(file_digest(b"other"), "g".to_string());
    assert_eq!(index.len(), 2);
    let report = index.into_report();
    assert_eq!(report.len(), 1);
    assert_eq!(report[0].paths.len(), 50);
    assert_eq!(report[0].paths[49], "f49");
}

use triage::config::DiskConfig;
use triage::fs_tree::DirEntry;
use triage::fs_tree::FsTree;
use triage::fs_tree::Match;
use triage::scan::ScanRoot;
use triage::scan::run_scan;
use triage::scan::scan_with_config;

fn file(size: u64) -> FsTree {
    FsTree::File { size }
}

fn dir(entries: Vec<(&str, FsTree)>) -> FsTree {
    FsTree::Dir {
        entries: entries
            .into_iter()
            .map(|(name, node)| DirEntry { name: name.to_string(), node })
            .collect(),
    }
}

fn paths(ms: &[Match]) -> Vec<Vec<String>> {
    ms.iter().map(|m| m.path.clone()).collect()
}

fn p(components: &[&str]) -> Vec<String> {
    components.iter().map(|s| s.to_string()).collect()
}

fn sample_tree() -> FsTree {
    dir(vec![
        ("big.log", file(15_000_000)),
        (
            "b",
            dir(vec![("small.txt", file(1_000)), ("big2.zip", file(20_000_000))]),
        ),
    ])
}

#[test]
fn scenario_mixed_tree() {
    let roots = vec![ScanRoot { path: "/a".to_string(), tree: sample_tree() }];
    let out = run_scan(&roots, 10_000_000);
    let got = paths(&out);
    assert_eq!(got.len(), 2);
    assert!(got.contains(&p(&["/a", "big.log"])));
    assert!(got.contains(&p(&["/a", "b", "big2.zip"])));
    assert!(!got.contains(&p(&["/a", "b", "small.txt"])));
}

#[test]
fn threshold_is_strict() {
    let tree = dir(vec![("edge.bin", file(100)), ("over.bin", file(101))]);
    let roots = vec![ScanRoot { path: "/r".to_string(), tree }];
    let out = run_scan(&roots, 100);
    let got = paths(&out);
    assert_eq!(got, vec![p(&["/r", "over.bin"])]);
}

#[test]
fn directories_never_match() {
    let tree = dir(vec![("sub", dir(vec![]))]);
    let roots = vec![ScanRoot { path: "/r".to_string(), tree }];
    let out = run_scan(&roots, 0);
    assert!(out.is_empty());
}

#[test]
fn empty_tree_empty_scan() {
    let roots = vec![ScanRoot { path: "/r".to_string(), tree: dir(vec![]) }];
    let out = run_scan(&roots, 5);
    assert!(out.is_empty());
}

#[test]
fn multiple_roots_all_scanned() {
    let roots = vec![
        ScanRoot { path: "/x".to_string(), tree: dir(vec![("a.bin", file(10))]) },
        ScanRoot { path: "/y".to_string(), tree: dir(vec![("b.bin", file(20))]) },
    ];
    let out = run_scan(&roots, 5);
    let got = paths(&out);
    assert_eq!(got.len(), 2);
    assert!(got.contains(&p(&["/x", "a.bin"])));
    assert!(got.contains(&p(&["/y", "b.bin"])));
}

#[test]
fn rescan_same_match_set() {
    let roots = vec![ScanRoot { path: "/a".to_string(), tree: sample_tree() }];
    let mut first = paths(&run_scan(&roots, 10_000_000));
    let mut second = paths(&run_scan(&roots, 10_000_000));
    first.sort();
    second.sort();
    assert_eq!(first, second);
}

#[test]
fn malformed_threshold_yields_empty_scan() {
    let config = DiskConfig {
        scan_paths: vec!["/a".to_string()],
        size_threshold: "not a size".to_string(),
    };
    let forest = vec![ScanRoot { path: "/a".to_string(), tree: sample_tree() }];
    let out = scan_with_config(&config, &forest);
    assert!(out.is_empty());
}

#[test]
fn parsed_threshold_drives_scan() {
    let config = DiskConfig {
        scan_paths: vec!["/a".to_string()],
        size_threshold: "10MB".to_string(),
    };
    let forest = vec![ScanRoot { path: "/a".to_string(), tree: sample_tree() }];
    let out = scan_with_config(&config, &forest);
    let got = paths(&out);
    assert_eq!(got.len(), 2);
    assert!(got.contains(&p(&["/a", "big.log"])));
    assert!(got.contains(&p(&["/a", "b", "big2.zip"])));
}

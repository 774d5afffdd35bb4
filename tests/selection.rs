use assistant_cli::scan::{is_excluded_name, is_reached, select_files, ScanEntry, ScanLimits};

fn file(parts: &[&str], size: u64) -> ScanEntry {
    ScanEntry {
        components: parts.iter().map(|p| p.to_string()).collect(),
        is_file: true,
        size: Some(size),
    }
}

fn dir(parts: &[&str]) -> ScanEntry {
    ScanEntry { components: parts.iter().map(|p| p.to_string()).collect(), is_file: false, size: None }
}

fn limits(max_files: usize, max_file_bytes: u64) -> ScanLimits {
    ScanLimits { max_depth: 3, max_files, max_file_bytes }
}

#[test]
fn excluded_names() {
    assert!(is_excluded_name(".git"));
    assert!(is_excluded_name(".env"));
    assert!(is_excluded_name("target"));
    assert!(is_excluded_name("node_modules"));
    assert!(is_excluded_name("__pycache__"));
    assert!(is_excluded_name("dist"));
    assert!(is_excluded_name("build"));
    assert!(!is_excluded_name("src"));
    assert!(!is_excluded_name("targets"));
    assert!(!is_excluded_name(""));
}

#[test]
fn reached_respects_depth_and_pruning() {
    let l = limits(50, 10240);
    let parts = |p: &[&str]| p.iter().map(|s| s.to_string()).collect::<Vec<String>>();
    assert!(is_reached(&parts(&["a", "b", "c.rs"]), &l));
    assert!(!is_reached(&parts(&["a", "b", "c", "d.rs"]), &l));
    assert!(!is_reached(&parts(&["src", "target", "x.rs"]), &l));
    assert!(!is_reached(&parts(&[".hidden", "x.rs"]), &l));
}

#[test]
fn zero_cap_lists_nothing_but_counts_all() {
    let entries = vec![dir(&["src"]), file(&["src", "main.rs"], 100), file(&["README.md"], 20), file(&["big.bin"], 99999)];
    let sel = select_files(&entries, &limits(0, 10240));
    assert!(sel.files.is_empty());
    assert_eq!(sel.total, 3);
}

#[test]
fn oversized_file_counted_not_listed() {
    let entries = vec![file(&["a.txt"], 10), file(&["big.bin"], 10241), file(&["b.txt"], 10240)];
    let sel = select_files(&entries, &limits(50, 10240));
    let paths: Vec<&str> = sel.files.iter().map(|f| f.path.as_str()).collect();
    assert_eq!(paths, vec!["a.txt", "b.txt"]);
    assert_eq!(sel.total, 3);
}

#[test]
fn unknown_size_counted_not_listed() {
    let entries = vec![ScanEntry { components: vec!["x".to_string()], is_file: true, size: None }];
    let sel = select_files(&entries, &limits(50, 10240));
    assert!(sel.files.is_empty());
    assert_eq!(sel.total, 1);
}

#[test]
fn excluded_directories_never_listed() {
    let entries = vec![
        file(&["node_modules", "pkg", "index.js"], 5),
        file(&["target", "debug", "app"], 5),
        file(&[".git", "HEAD"], 5),
        file(&["src", "lib.rs"], 5),
        file(&["src", "build", "gen.rs"], 5),
    ];
    let sel = select_files(&entries, &limits(50, 10240));
    assert_eq!(sel.files.len(), 1);
    assert_eq!(sel.files[0].path, "src/lib.rs");
    assert_eq!(sel.total, 1);
}

#[test]
fn cap_keeps_walk_order_and_counts_rest() {
    let entries = vec![file(&["c.rs"], 1), dir(&["d"]), file(&["d", "a.rs"], 1), file(&["b.rs"], 1)];
    let sel = select_files(&entries, &limits(2, 10240));
    assert_eq!(sel.files.len(), 2);
    assert_eq!(sel.files[0].path, "c.rs");
    assert_eq!(sel.files[0].index, 0);
    assert_eq!(sel.files[1].path, "d/a.rs");
    assert_eq!(sel.files[1].name, "a.rs");
    assert_eq!(sel.files[1].index, 2);
    assert_eq!(sel.files[1].size, 1);
    assert_eq!(sel.total, 3);
}

#[test]
fn deep_files_not_seen() {
    let entries = vec![file(&["a", "b", "c", "d.rs"], 1), file(&["a", "b", "c.rs"], 1)];
    let sel = select_files(&entries, &limits(50, 10240));
    assert_eq!(sel.files.len(), 1);
    assert_eq!(sel.files[0].path, "a/b/c.rs");
    assert_eq!(sel.total, 1);
}

#[test]
fn context_limits_fix_depth() {
    let l = ScanLimits::for_context(50, 10240);
    assert_eq!(l.max_depth, 3);
    assert_eq!(l.max_files, 50);
    assert_eq!(l.max_file_bytes, 10240);
}

#[test]
fn pruned_contents_change_nothing() {
    let plain = vec![file(&["src", "lib.rs"], 5), file(&["README.md"], 9)];
    let noisy = vec![
        dir(&["node_modules"]),
        file(&["node_modules", "x", "index.js"], 5),
        file(&["src", "lib.rs"], 5),
        file(&[".git", "objects", "ab"], 99999),
        file(&["a", "b", "c", "deep.rs"], 1),
        file(&["README.md"], 9),
    ];
    let l = limits(50, 10240);
    let s1 = select_files(&plain, &l);
    let s2 = select_files(&noisy, &l);
    let p1: Vec<(&str, &str, u64)> = s1.files.iter().map(|f| (f.path.as_str(), f.name.as_str(), f.size)).collect();
    let p2: Vec<(&str, &str, u64)> = s2.files.iter().map(|f| (f.path.as_str(), f.name.as_str(), f.size)).collect();
    assert_eq!(p1, p2);
    assert_eq!(s1.total, s2.total);
}

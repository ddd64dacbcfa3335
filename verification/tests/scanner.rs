use file_mentions::config::IndexConfig;
use file_mentions::index::scanner::{
    build_exclude_globset, build_globset, entry_from_path, expand_exclude, keep_entry,
    normalize_path, root_display_name, should_skip, split_file_name, IndexScan, ScanStep,
};
use file_mentions::index::{stale_after, EntryKind, FileIndex};

fn strings(items: &[&str]) -> Vec<String> {
    items.iter().map(|s| s.to_string()).collect()
}

fn parts(path: &str) -> Vec<String> {
    path.split('/').map(|s| s.to_string()).collect()
}

fn root() -> Vec<String> {
    strings(&["/", "tmp", "ws"])
}

struct Walk {
    scan: IndexScan,
    config: IndexConfig,
}

impl Walk {
    fn new(config: IndexConfig) -> Walk {
        Walk { scan: IndexScan::new(), config }
    }

    /// Visits entries in walk order; returns false once the scan stops.
    fn visit(&mut self, walked: &[(&str, EntryKind)]) -> bool {
        let included = build_globset(&self.config.include_globs).unwrap();
        let exclude = build_exclude_globset(&self.config.exclude).unwrap();
        for (path, kind) in walked {
            let rel = if path.is_empty() { Vec::new() } else { parts(path) };
            if !keep_entry(Some(&rel), &exclude) {
                continue;
            }
            let step = self.scan.visit(
                &root(),
                "ws",
                &rel,
                *kind,
                &included,
                &exclude,
                self.config.max_files,
            );
            if step == ScanStep::Stop {
                return false;
            }
        }
        true
    }

    fn paths(&self) -> Vec<(String, EntryKind)> {
        self.scan.entries.iter().map(|e| (e.rel_path.clone(), e.kind)).collect()
    }
}

#[test]
fn include_globs_do_not_hide_directories() {
    let mut config = IndexConfig::default();
    config.include_globs = strings(&["**/*.rs"]);
    let mut walk = Walk::new(config);
    assert!(walk.visit(&[
        ("", EntryKind::Directory),
        ("README.md", EntryKind::File),
        ("node_modules", EntryKind::Directory),
        ("node_modules/pkg", EntryKind::Directory),
        ("node_modules/pkg/index.js", EntryKind::File),
        ("src", EntryKind::Directory),
        ("src/empty", EntryKind::Directory),
        ("src/main.rs", EntryKind::File),
    ]));
    assert_eq!(
        walk.paths(),
        vec![
            ("src".to_string(), EntryKind::Directory),
            ("src/empty".to_string(), EntryKind::Directory),
            ("src/main.rs".to_string(), EntryKind::File),
        ]
    );
    assert!(!walk.scan.truncated);
}

#[test]
fn file_limit_counts_files_not_directories() {
    let mut config = IndexConfig::default();
    config.max_files = 1;
    let mut walk = Walk::new(config);
    let finished = walk.visit(&[
        ("aaa", EntryKind::Directory),
        ("aaa/lib.rs", EntryKind::File),
        ("aaa/main.rs", EntryKind::File),
    ]);
    assert!(!finished);
    assert!(walk.scan.truncated);
    assert_eq!(walk.scan.file_count, 1);
    assert_eq!(
        walk.paths(),
        vec![("aaa".to_string(), EntryKind::Directory), ("aaa/lib.rs".to_string(), EntryKind::File)]
    );
}

#[test]
fn file_limit_zero_indexes_directories_only() {
    let mut config = IndexConfig::default();
    config.max_files = 0;
    let mut walk = Walk::new(config);
    let finished = walk.visit(&[("aaa", EntryKind::Directory), ("aaa/main.rs", EntryKind::File)]);
    assert!(!finished);
    assert!(walk.scan.truncated);
    assert_eq!(walk.paths(), vec![("aaa".to_string(), EntryKind::Directory)]);
}

#[test]
fn exclude_patterns_expand_to_their_directories() {
    assert_eq!(
        expand_exclude("**/node_modules/**"),
        strings(&["**/node_modules/**", "**/node_modules", "node_modules"])
    );
    assert_eq!(expand_exclude("vendor/**"), strings(&["vendor/**", "vendor"]));
    assert_eq!(expand_exclude("*.log"), strings(&["*.log"]));
    assert_eq!(expand_exclude("/**"), strings(&["/**", ""]));
}

#[test]
fn exclusion_and_pruning() {
    let included = build_globset(&strings(&["**/*"])).unwrap();
    let exclude = build_exclude_globset(&strings(&["**/target/**"])).unwrap();
    assert!(should_skip("target", EntryKind::Directory, &included, &exclude));
    assert!(should_skip("crate/target/debug/x", EntryKind::File, &included, &exclude));
    assert!(!should_skip("src/main.rs", EntryKind::File, &included, &exclude));
    assert!(!keep_entry(Some(&parts("target")), &exclude));
    assert!(!keep_entry(Some(&parts("a/target")), &exclude));
    assert!(keep_entry(Some(&parts("src")), &exclude));
    assert!(keep_entry(Some(&Vec::new()), &exclude));
    assert!(keep_entry(None, &exclude));
    let rs_only = build_globset(&strings(&["**/*.rs"])).unwrap();
    assert!(should_skip("README.md", EntryKind::File, &rs_only, &exclude));
    assert!(!should_skip("docs", EntryKind::Directory, &rs_only, &exclude));
}

#[test]
fn invalid_globs_are_rejected() {
    assert!(build_globset(&strings(&["a[b"])).is_err());
    assert!(build_exclude_globset(&strings(&["{a"])).is_err());
    assert!(build_globset(&Vec::new()).is_ok());
}

#[test]
fn entries_for_files_and_directories() {
    let e = entry_from_path(&root(), "ws", &parts("src/lib/archive.tar.gz"), EntryKind::File).unwrap();
    assert_eq!(e.rel_path, "src/lib/archive.tar.gz");
    assert_eq!(e.file_name, "archive.tar.gz");
    assert_eq!(e.stem, "archive.tar");
    assert_eq!(e.extension.as_deref(), Some("gz"));
    assert_eq!(e.depth, 2);
    assert_eq!(e.root, root());
    assert_eq!(e.root_name, "ws");
    assert_eq!(e.kind, EntryKind::File);

    let d = entry_from_path(&root(), "ws", &parts("src/lib.d"), EntryKind::Directory).unwrap();
    assert_eq!(d.stem, "lib.d");
    assert_eq!(d.extension, None);
    assert_eq!(d.depth, 1);

    let hidden = entry_from_path(&root(), "ws", &parts(".bashrc"), EntryKind::File).unwrap();
    assert_eq!(hidden.stem, ".bashrc");
    assert_eq!(hidden.extension, None);
    assert_eq!(hidden.depth, 0);

    let make = entry_from_path(&root(), "ws", &parts("Makefile"), EntryKind::File).unwrap();
    assert_eq!((make.stem.as_str(), make.extension), ("Makefile", None));

    let dotted = entry_from_path(&root(), "ws", &parts("foo."), EntryKind::File).unwrap();
    assert_eq!((dotted.stem.as_str(), dotted.extension.as_deref()), ("foo", Some("")));

    assert!(entry_from_path(&root(), "ws", &Vec::new(), EntryKind::File).is_none());
    assert!(entry_from_path(&root(), "ws", &parts("a/.."), EntryKind::Directory).is_none());
}

#[test]
fn file_names_split_like_std_paths() {
    for name in ["a.b.c", ".x", "x", "x.", ".x.y"] {
        let path = std::path::Path::new(name);
        let chars: Vec<char> = name.chars().collect();
        let (stem, ext) = split_file_name(&chars);
        assert_eq!(Some(stem.as_str()), path.file_stem().and_then(|s| s.to_str()), "{name}");
        assert_eq!(ext.as_deref(), path.extension().and_then(|s| s.to_str()), "{name}");
    }
}

#[test]
fn normalized_paths_and_root_names() {
    assert_eq!(normalize_path(&parts("a/b/c.rs")), "a/b/c.rs");
    assert_eq!(normalize_path(&Vec::new()), "");
    assert_eq!(root_display_name(Some("project")), "project");
    assert_eq!(root_display_name(None), "workspace");
}

#[test]
fn empty_index_is_never_stale_with_zero_ttl() {
    let index = FileIndex::empty();
    assert!(index.entries.is_empty());
    assert!(!index.truncated);
    assert!(!index.is_stale(0));
    assert!(!index.is_stale(3600));
    let index = FileIndex::with_entries(Vec::new(), true);
    assert!(index.truncated);
    assert!(FileIndex::default().entries.is_empty());
}

#[test]
fn staleness_decision() {
    assert!(!stale_after(Some(100), 0));
    assert!(stale_after(Some(61), 60));
    assert!(!stale_after(Some(60), 60));
    assert!(!stale_after(None, 60));
}

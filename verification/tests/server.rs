use file_mentions::completion::{CandidateKind, Position, Range};
use file_mentions::config::Config;
use file_mentions::index::{EntryKind, FileEntry};
use file_mentions::server::{completion_candidates, workspace_roots};

fn entry(rel_path: &str, kind: EntryKind) -> FileEntry {
    let file_name = rel_path.rsplit('/').next().unwrap().to_string();
    FileEntry {
        root: vec!["/".to_string(), "ws".to_string()],
        root_name: "ws".to_string(),
        rel_path: rel_path.to_string(),
        stem: file_name.split('.').next().unwrap().to_string(),
        extension: None,
        file_name,
        depth: (rel_path.split('/').count() - 1) as u16,
        kind,
    }
}

#[test]
fn documented_insertions() {
    let config = Config::default();
    let entries = vec![
        entry("src", EntryKind::Directory),
        entry("src/index.ts", EntryKind::File),
        entry("README.md", EntryKind::File),
    ];
    let items = completion_candidates(
        Some("open @index.ts"),
        Position { line: 0, character: 14 },
        &config,
        &entries,
        None,
    );
    assert_eq!(items[0].new_text, "@src/index.ts");
    assert_eq!(items[0].range, Range {
        start: Position { line: 0, character: 5 },
        end: Position { line: 0, character: 14 },
    });
    assert_eq!(items[0].sort_text, "0000");

    let items = completion_candidates(
        Some("@sr"),
        Position { line: 0, character: 3 },
        &config,
        &entries,
        None,
    );
    assert_eq!(items[0].new_text, "@src/");
    assert_eq!(items[0].kind, CandidateKind::Folder);
}

#[test]
fn no_items_outside_mentions() {
    let config = Config::default();
    let entries = vec![entry("src/index.ts", EntryKind::File)];
    assert!(completion_candidates(None, Position { line: 0, character: 0 }, &config, &entries, None)
        .is_empty());
    assert!(completion_candidates(
        Some("foo@index"),
        Position { line: 0, character: 9 },
        &config,
        &entries,
        None
    )
    .is_empty());
}

fn path(p: &str) -> Vec<String> {
    std::path::Path::new(p)
        .components()
        .map(|c| c.as_os_str().to_string_lossy().into_owned())
        .collect()
}

#[test]
fn workspace_roots_are_sorted_and_distinct() {
    let roots = workspace_roots(
        vec![path("/ws/b"), path("/ws/a-b"), path("/ws/a/b"), path("/ws/b")],
        Some(path("/other")),
    );
    assert_eq!(roots, vec![path("/ws/a/b"), path("/ws/a-b"), path("/ws/b")]);
    let mut std_sorted: Vec<std::path::PathBuf> =
        ["/ws/b", "/ws/a-b", "/ws/a/b"].iter().map(std::path::PathBuf::from).collect();
    std_sorted.sort();
    let ours: Vec<std::path::PathBuf> =
        roots.iter().map(|r| std::path::PathBuf::from_iter(r)).collect();
    assert_eq!(ours, std_sorted);
}

#[test]
fn root_uri_is_the_fallback() {
    assert_eq!(workspace_roots(Vec::new(), Some(path("/other"))), vec![path("/other")]);
    assert!(workspace_roots(Vec::new(), None).is_empty());
}

use file_mentions::config::IndexConfig;
use file_mentions::index::scoring::{
    context_boost, generated_or_test_penalty, score_entry, search, score_from_matches,
};
use file_mentions::index::{EntryKind, FileEntry};
use fuzzy_matcher::skim::SkimMatcherV2;
use fuzzy_matcher::FuzzyMatcher;

fn strings(items: &[&str]) -> Vec<String> {
    items.iter().map(|s| s.to_string()).collect()
}

fn root() -> Vec<String> {
    strings(&["/", "ws"])
}

fn file(rel_path: &str) -> FileEntry {
    let file_name = rel_path.rsplit('/').next().unwrap().to_string();
    let path = std::path::Path::new(&file_name);
    FileEntry {
        root: root(),
        root_name: "ws".to_string(),
        rel_path: rel_path.to_string(),
        stem: path.file_stem().unwrap().to_str().unwrap().to_string(),
        extension: path.extension().map(|e| e.to_str().unwrap().to_string()),
        file_name,
        depth: (rel_path.split('/').count() - 1) as u16,
        kind: EntryKind::File,
    }
}

fn skim(choice: &str, pattern: &str) -> Option<i64> {
    SkimMatcherV2::default().ignore_case().fuzzy_match(choice, pattern)
}

fn chars(s: &str) -> Vec<char> {
    s.chars().collect()
}

#[test]
fn exact_file_name_score() {
    let entry = file("src/index.ts");
    let score = score_entry(&entry, "index.ts", "index.ts", false, None).unwrap();
    let file_fuzzy = skim("index.ts", "index.ts").unwrap();
    let path_fuzzy = skim("src/index.ts", "index.ts").unwrap();
    assert_eq!(score, 10_000 + file_fuzzy + path_fuzzy / 3 - 10);
}

#[test]
fn lowercasing_applies_to_entries() {
    let entry = file("Docs/README.md");
    let score = score_entry(&entry, "readme", "readme", false, None).unwrap();
    let file_fuzzy = skim("readme.md", "readme").unwrap();
    let path_fuzzy = skim("docs/readme.md", "readme").unwrap();
    // "readme.md" starts with "readme": 8000.
    assert_eq!(score, 8_000 + file_fuzzy + path_fuzzy / 3 - 10);
}

#[test]
fn path_query_contained_in_path() {
    let entry = file("src/app/main.rs");
    let score = score_entry(&entry, "app/main", "app/main", true, None).unwrap();
    assert_eq!(score, 3_500 - 20);
    let exact = score_entry(&entry, "src/app/main.rs", "src/app/main.rs", true, None).unwrap();
    // The file name does not equal the query; the path does.
    assert_eq!(exact, 9_000 + 3_500 - 20);
}

#[test]
fn unmatched_entries_are_rejected() {
    let entry = file("src/index.ts");
    assert_eq!(score_entry(&entry, "zzz", "zzz", false, None), None);
    assert_eq!(score_entry(&entry, "q/z", "q/z", true, None), None);
}

#[test]
fn score_formula_from_matches() {
    let e = chars("");
    let f = chars("foo.rs");
    let s = chars("foo");
    let p = chars("a/foo.rs");
    let q = chars("fo");
    // Name starts with the query (8000), stem starts with it too but the
    // first rule wins; path fuzzy -7 rounds toward zero to -2.
    let r = score_from_matches(&f, &s, &p, &q, &q, false, None, Some(30), Some(-7), 400, 1);
    assert_eq!(r, Some(8_000 + 30 - 2 + 400 - 10));
    // Only a path match: half of it.
    let r = score_from_matches(&e, &e, &p, &chars("x"), &chars("x"), false, None, None, Some(-9), 0, 0);
    assert_eq!(r, None);
    let r = score_from_matches(&e, &e, &p, &chars("x"), &chars("x"), false, None, None, Some(101), 0, 0);
    assert_eq!(r, Some(50));
    // No match and no bonus: rejected.
    assert_eq!(score_from_matches(&f, &s, &p, &chars("x"), &chars("x"), false, None, None, None, 1000, 0), None);
    // Path query not contained in the path needs a fuzzy match.
    assert_eq!(score_from_matches(&f, &s, &p, &chars("b/c"), &chars("b/c"), true, None, None, None, 0, 0), None);
    assert_eq!(
        score_from_matches(&f, &s, &p, &chars("b/c"), &chars("b/c"), true, Some(12), None, None, 0, 0),
        Some(12)
    );
    // Test files are penalized.
    let t = chars("src/tests/foo.test.rs");
    assert_eq!(
        score_from_matches(&f, &s, &t, &chars("foo.rs"), &chars("foo.rs"), false, None, Some(0), None, 0, 2),
        Some(10_000 - 20 - 400)
    );
}

#[test]
fn generated_and_test_markers() {
    assert_eq!(generated_or_test_penalty("src/main.rs"), 0);
    assert_eq!(generated_or_test_penalty("a/__snapshots__/x.snap"), 200);
    assert_eq!(generated_or_test_penalty("pkg/tests/foo.test.ts"), 400);
    assert_eq!(generated_or_test_penalty("a/test/b.spec.gen.generated.x"), 800);
}

#[test]
fn context_boost_by_location() {
    let entry = file("src/app/main.rs");
    let current = |p: &str| -> Vec<String> {
        let mut v = root();
        v.extend(p.split('/').map(|s| s.to_string()));
        v
    };
    assert_eq!(context_boost(&entry, &current("src/app/other.rs")), 1000);
    assert_eq!(context_boost(&entry, &current("src/lib.rs")), 400);
    assert_eq!(context_boost(&entry, &current("docs/a.md")), 150);
    assert_eq!(context_boost(&entry, &strings(&["/", "elsewhere", "x.rs"])), 0);
    let top = file("README.md");
    assert_eq!(context_boost(&top, &current("Cargo.toml")), 1000);
    assert_eq!(context_boost(&top, &root()), 150);
}

#[test]
fn search_ranks_and_caps() {
    let entries = vec![
        file("src/index.ts"),
        file("lib/index.ts"),
        file("src/indexer.rs"),
        file("docs/notes.md"),
    ];
    let config = IndexConfig::default();
    let results = search(&entries, "  index.ts ", None, &config);
    let paths: Vec<&str> = results.iter().map(|r| r.entry.rel_path.as_str()).collect();
    assert_eq!(paths[0], "lib/index.ts");
    assert_eq!(paths[1], "src/index.ts");
    assert!(!paths.contains(&"docs/notes.md"));
    for pair in results.windows(2) {
        assert!(
            pair[0].score > pair[1].score
                || (pair[0].score == pair[1].score && pair[0].entry.rel_path < pair[1].entry.rel_path)
        );
    }
    let mut small = IndexConfig::default();
    small.max_results = 1;
    let one = search(&entries, "index", None, &small);
    assert_eq!(one.len(), 1);
    small.max_results = 0;
    assert!(search(&entries, "index", None, &small).is_empty());
    assert!(search(&entries, "   ", None, &config).is_empty());
    assert!(search(&entries, "", None, &config).is_empty());
}

#[test]
fn search_is_case_insensitive_and_normalizes_backslashes() {
    let entries = vec![file("src/Index.ts"), file("other/readme.md")];
    let config = IndexConfig::default();
    let results = search(&entries, "INDEX", None, &config);
    assert_eq!(results[0].entry.rel_path, "src/Index.ts");
    let results = search(&entries, "src\\index", None, &config);
    assert_eq!(results.len(), 1);
    assert_eq!(results[0].entry.rel_path, "src/Index.ts");
}

#[test]
fn search_prefers_files_near_the_current_file() {
    let entries = vec![file("a/mod.rs"), file("b/mod.rs")];
    let config = IndexConfig::default();
    let current: Vec<String> = strings(&["/", "ws", "b", "lib.rs"]);
    let results = search(&entries, "mod.rs", Some(&current), &config);
    assert_eq!(results[0].entry.rel_path, "b/mod.rs");
    assert_eq!(results[0].score, results[1].score + 850);
}

#[test]
fn a_level_deeper_scores_ten_less() {
    let shallow = file("src/index.ts");
    let mut deeper = shallow.clone();
    deeper.depth += 1;
    let a = score_entry(&shallow, "index.ts", "index.ts", false, None).unwrap();
    let b = score_entry(&deeper, "index.ts", "index.ts", false, None).unwrap();
    assert_eq!(b, a - 10);
    // A score of at most 10 drops out one level deeper.
    let low = file("src/app/main.rs");
    let mut lower = low.clone();
    lower.depth = 349;
    assert_eq!(score_entry(&lower, "app/main", "app/main", true, None), Some(10));
    lower.depth = 350;
    assert_eq!(score_entry(&lower, "app/main", "app/main", true, None), None);
}

#[test]
fn search_scores_are_positive() {
    let entries = vec![file("src/index.ts"), file("a/b/c/d/e/f/x.rs"), file("docs/index.md")];
    let config = IndexConfig::default();
    for query in ["index", "x", "d/e", "zzz", "s"] {
        for r in search(&entries, query, None, &config) {
            assert!(r.score > 0, "{query:?} {}", r.entry.rel_path);
        }
    }
}

#[test]
fn queries_differing_in_ascii_case_agree() {
    let entries = vec![file("src/Index.ts"), file("lib/index.ts"), file("docs/README.md")];
    let config = IndexConfig::default();
    for (a, b) in [("index", "INDEX"), ("ReadMe", "readme"), ("Src/Ind", "src/ind")] {
        let ra = search(&entries, a, None, &config);
        let rb = search(&entries, b, None, &config);
        let pa: Vec<(&str, i64)> = ra.iter().map(|r| (r.entry.rel_path.as_str(), r.score)).collect();
        let pb: Vec<(&str, i64)> = rb.iter().map(|r| (r.entry.rel_path.as_str(), r.score)).collect();
        assert_eq!(pa, pb, "{a:?} vs {b:?}");
    }
}

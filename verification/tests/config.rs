use file_mentions::config::{
    default_excludes, merge_patterns, CompletionConfig, Config, IndexConfig, InsertConfig,
    PartialCompletionConfig, PartialConfig, PartialIndexConfig, PartialInsertConfig, PathStyle,
};

fn strings(items: &[&str]) -> Vec<String> {
    items.iter().map(|s| s.to_string()).collect()
}

fn empty_index_partial() -> PartialIndexConfig {
    PartialIndexConfig {
        respect_gitignore: None,
        respect_ignore_files: None,
        include_hidden: None,
        follow_symlinks: None,
        watch_files: None,
        max_files: None,
        max_results: None,
        refresh_ttl_seconds: None,
        debounce_ms: None,
        include_globs: None,
        exclude: None,
    }
}

#[test]
fn documented_defaults() {
    let config = Config::default();
    let index = &config.index;
    assert!(index.watch_files);
    assert!(index.respect_gitignore);
    assert!(index.respect_ignore_files);
    assert!(!index.include_hidden);
    assert!(!index.follow_symlinks);
    assert_eq!(index.max_files, 100_000);
    assert_eq!(index.max_results, 50);
    assert_eq!(index.refresh_ttl_seconds, 60);
    assert_eq!(index.debounce_ms, 700);
    assert_eq!(index.include_globs, strings(&["**/*"]));
    assert_eq!(index.exclude, default_excludes());
    assert!(config.insert.keep_trigger);
    assert_eq!(config.insert.path_style, PathStyle::Relative);
    assert!(!config.insert.quote_paths_with_spaces);
    assert_eq!(config.completion.trigger, "@");
    assert_eq!(config.completion.min_query_len, 1);
}

#[test]
fn built_in_excludes() {
    assert_eq!(
        default_excludes(),
        strings(&[
            "**/.git/**",
            "**/node_modules/**",
            "**/.venv/**",
            "**/venv/**",
            "**/dist/**",
            "**/build/**",
            "**/target/**",
            "**/.next/**",
            "**/coverage/**",
            "**/__pycache__/**",
            "**/.pytest_cache/**",
            "**/.mypy_cache/**",
            "**/.ruff_cache/**",
        ])
    );
}

#[test]
fn user_excludes_are_additive_sorted_and_deduplicated() {
    let mut index = IndexConfig::default();
    let mut partial = empty_index_partial();
    partial.exclude = Some(strings(&["**/vendor/**", "**/dist/**", "**/vendor/**"]));
    index.merge(partial);
    let mut expected = default_excludes();
    expected.push("**/vendor/**".to_string());
    expected.sort();
    expected.dedup();
    assert_eq!(index.exclude, expected);
    for builtin in default_excludes() {
        assert!(index.exclude.contains(&builtin));
    }
    assert!(index.exclude.windows(2).all(|w| w[0] < w[1]));
}

#[test]
fn merging_the_same_excludes_twice_changes_nothing() {
    let mut index = IndexConfig::default();
    let mut partial = empty_index_partial();
    partial.exclude = Some(strings(&["**/vendor/**"]));
    index.merge(partial.clone());
    let once = index.clone();
    index.merge(partial);
    assert_eq!(index, once);
}

#[test]
fn include_replaces_and_scalars_override() {
    let mut index = IndexConfig::default();
    let mut partial = empty_index_partial();
    partial.include_globs = Some(strings(&["**/*.rs"]));
    partial.max_files = Some(3);
    partial.follow_symlinks = Some(true);
    partial.debounce_ms = Some(5);
    index.merge(partial);
    assert_eq!(index.include_globs, strings(&["**/*.rs"]));
    assert_eq!(index.max_files, 3);
    assert!(index.follow_symlinks);
    assert_eq!(index.debounce_ms, 5);
    assert_eq!(index.max_results, 50);
    assert_eq!(index.exclude, default_excludes());
}

#[test]
fn empty_partial_changes_nothing() {
    let mut index = IndexConfig::default();
    index.merge(empty_index_partial());
    assert_eq!(index, IndexConfig::default());
}

#[test]
fn insert_and_completion_merges() {
    let mut insert = InsertConfig::default();
    insert.merge(PartialInsertConfig {
        keep_trigger: Some(false),
        path_style: None,
        quote_paths_with_spaces: Some(true),
    });
    assert!(!insert.keep_trigger);
    assert!(insert.quote_paths_with_spaces);
    assert_eq!(insert.path_style, PathStyle::Relative);

    let mut completion = CompletionConfig::default();
    completion.merge(PartialCompletionConfig { trigger: Some("#".to_string()), min_query_len: None });
    assert_eq!(completion.trigger, "#");
    assert_eq!(completion.min_query_len, 1);
}

#[test]
fn initialization_options() {
    assert_eq!(Config::from_initialization_options(None), Config::default());
    let mut index = empty_index_partial();
    index.exclude = Some(strings(&["**/vendor/**"]));
    index.max_results = Some(10);
    let config = Config::from_initialization_options(Some(PartialConfig {
        index: Some(index),
        insert: None,
        completion: Some(PartialCompletionConfig { trigger: None, min_query_len: Some(2) }),
    }));
    assert_eq!(config.index.max_results, 10);
    assert!(config.index.exclude.contains(&"**/vendor/**".to_string()));
    assert!(config.index.exclude.contains(&"**/node_modules/**".to_string()));
    assert_eq!(config.insert, InsertConfig::default());
    assert_eq!(config.completion.min_query_len, 2);
    assert_eq!(config.completion.trigger, "@");
}

#[test]
fn merge_value_without_settings_keeps_config() {
    let mut config = Config::default();
    config.merge_value(None);
    assert_eq!(config, Config::default());
    config.merge_value(Some(PartialConfig { index: None, insert: None, completion: None }));
    assert_eq!(config, Config::default());
}

#[test]
fn merge_patterns_union() {
    let merged = merge_patterns(strings(&["b", "a", "b"]), strings(&["c", "a"]));
    assert_eq!(merged, strings(&["a", "b", "c"]));
    assert_eq!(merge_patterns(Vec::new(), Vec::new()), Vec::<String>::new());
    // Byte order: uppercase before lowercase, shorter prefix first.
    assert_eq!(merge_patterns(strings(&["ab", "a", "B"]), Vec::new()), strings(&["B", "a", "ab"]));
}

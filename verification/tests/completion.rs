use file_mentions::completion::{
    char_index_from_utf16, completion_item_for_score, extract_mention_token, is_boundary_char,
    is_token_char, line_bounds, scan_token_start, utf16_len, utf8_len_below, zero_padded_rank,
    CandidateKind, MentionToken, Position, Range,
};
use file_mentions::config::Config;
use file_mentions::index::scoring::ScoredEntry;
use file_mentions::index::{EntryKind, FileEntry};

fn pos(line: u32, character: u32) -> Position {
    Position { line, character }
}

fn chars(s: &str) -> Vec<char> {
    s.chars().collect()
}

#[test]
fn extracts_simple_mentions() {
    let config = Config::default();
    let token = extract_mention_token("open @index.ts", pos(0, 14), &config).unwrap();
    assert_eq!(token.query, "index.ts");
}

#[test]
fn rejects_email_context() {
    let config = Config::default();
    assert!(extract_mention_token("foo@example.com", pos(0, 15), &config).is_none());
}

#[test]
fn mention_range_covers_trigger_and_query() {
    let config = Config::default();
    let token = extract_mention_token("open @index.ts", pos(0, 14), &config).unwrap();
    assert_eq!(
        token.range,
        Range { start: pos(0, 5), end: pos(0, 14) }
    );
}

#[test]
fn accepts_documented_mention_contexts() {
    let config = Config::default();
    for (text, query) in [
        ("@index.ts", "index.ts"),
        ("@src/index", "src/index"),
        ("See @README.md", "README.md"),
        ("open(@src/app.ts", "src/app.ts"),
        ("x = \"@a-b_c\\d", "a-b_c\\d"),
    ] {
        let len = text.encode_utf16().count() as u32;
        let token = extract_mention_token(text, pos(0, len), &config)
            .unwrap_or_else(|| panic!("no mention in {text:?}"));
        assert_eq!(token.query, query, "in {text:?}");
    }
}

#[test]
fn rejects_documented_non_mentions() {
    let config = Config::default();
    for text in ["foo@example.com", "abc@username", "@a@b", "open @", "no trigger"] {
        let len = text.encode_utf16().count() as u32;
        assert!(extract_mention_token(text, pos(0, len), &config).is_none(), "{text:?}");
    }
}

#[test]
fn no_mention_after_colon_or_equals() {
    let config = Config::default();
    assert!(extract_mention_token("key=@foo", pos(0, 8), &config).is_none());
    assert!(extract_mention_token("a:@b", pos(0, 4), &config).is_none());
}

#[test]
fn cursor_in_the_middle_of_a_token_uses_text_before_it() {
    let config = Config::default();
    let token = extract_mention_token("see @src/main.rs now", pos(0, 8), &config).unwrap();
    assert_eq!(token.query, "src");
    assert_eq!(token.range.start, pos(0, 4));
}

#[test]
fn mentions_on_later_lines_and_crlf_lines() {
    let config = Config::default();
    let text = "first line\r\nsecond @lib.rs\r\nthird";
    let token = extract_mention_token(text, pos(1, 14), &config).unwrap();
    assert_eq!(token.query, "lib.rs");
    assert_eq!(token.range, Range { start: pos(1, 7), end: pos(1, 14) });
    assert!(extract_mention_token(text, pos(3, 0), &config).is_none());
    assert!(extract_mention_token(text, pos(1, 40), &config).is_none());
}

#[test]
fn utf16_offsets_count_surrogate_pairs() {
    let config = Config::default();
    // The emoji takes two UTF-16 code units.
    let text = "\u{1F600} @a";
    let token = extract_mention_token(text, pos(0, 5), &config).unwrap();
    assert_eq!(token.query, "a");
    assert_eq!(token.range.start, pos(0, 3));
    // Offset 1 falls inside the surrogate pair.
    assert!(extract_mention_token(text, pos(0, 1), &config).is_none());
}

#[test]
fn custom_trigger_and_minimum_query_length() {
    let mut config = Config::default();
    config.completion.trigger = "#".to_string();
    config.completion.min_query_len = 3;
    assert!(extract_mention_token("see #ab", pos(0, 7), &config).is_none());
    let token = extract_mention_token("see #abc", pos(0, 8), &config).unwrap();
    assert_eq!(token.query, "abc");
    assert!(extract_mention_token("see @abc", pos(0, 8), &config).is_none());
    config.completion.trigger = String::new();
    assert!(extract_mention_token("see abc", pos(0, 7), &config).is_none());
}

#[test]
fn minimum_query_length_counts_utf8_bytes() {
    let mut config = Config::default();
    config.completion.trigger = "§@".to_string();
    config.completion.min_query_len = 2;
    // The query "§" is a single character of two UTF-8 bytes.
    let token = extract_mention_token("§@§", pos(0, 3), &config).unwrap();
    assert_eq!(token.query, "§");
    assert!(utf8_len_below(&chars("§"), 3));
    assert!(!utf8_len_below(&chars("§"), 2));
}

#[test]
fn line_bounds_follow_str_lines() {
    let text = chars("a\nbc\r\n\nlast");
    assert_eq!(line_bounds(&text, 0), Some((0, 1)));
    assert_eq!(line_bounds(&text, 1), Some((2, 4)));
    assert_eq!(line_bounds(&text, 2), Some((6, 6)));
    assert_eq!(line_bounds(&text, 3), Some((7, 11)));
    assert_eq!(line_bounds(&text, 4), None);
    assert_eq!(line_bounds(&chars("a\n"), 1), None);
    assert_eq!(line_bounds(&chars(""), 0), None);
    assert_eq!(line_bounds(&chars("a\r"), 0), Some((0, 2)));
}

#[test]
fn utf16_helpers() {
    let line = chars("a\u{1F600}b");
    assert_eq!(utf16_len(&line), 4);
    assert_eq!(char_index_from_utf16(&line, 0), Some(0));
    assert_eq!(char_index_from_utf16(&line, 1), Some(1));
    assert_eq!(char_index_from_utf16(&line, 2), None);
    assert_eq!(char_index_from_utf16(&line, 3), Some(2));
    assert_eq!(char_index_from_utf16(&line, 4), Some(3));
    assert_eq!(char_index_from_utf16(&line, 5), None);
}

#[test]
fn token_scanning_and_character_classes() {
    assert_eq!(scan_token_start(&chars("open @src/a.rs"), &chars("@")), 5);
    assert_eq!(scan_token_start(&chars("@abc"), &chars("@")), 0);
    assert_eq!(scan_token_start(&chars("abc "), &chars("@")), 4);
    for c in ['a', 'Z', '7', '_', '-', '.', '/', '\\'] {
        assert!(is_token_char(c), "{c:?}");
    }
    for c in ['@', ' ', 'é', '('] {
        assert!(!is_token_char(c), "{c:?}");
    }
    for c in [' ', '\t', '\u{a0}', '\u{3000}', '(', '[', '{', '"', '\'', '`'] {
        assert!(is_boundary_char(c), "{c:?}");
    }
    for c in ['a', ')', '@', '.', ':', '='] {
        assert!(!is_boundary_char(c), "{c:?}");
    }
}

fn entry(rel_path: &str, kind: EntryKind) -> FileEntry {
    let file_name = rel_path.rsplit('/').next().unwrap().to_string();
    FileEntry {
        root: vec!["/".to_string(), "ws".to_string()],
        root_name: "ws".to_string(),
        rel_path: rel_path.to_string(),
        stem: file_name.clone(),
        file_name,
        extension: None,
        depth: (rel_path.split('/').count() - 1) as u16,
        kind,
    }
}

fn token() -> MentionToken {
    MentionToken { query: "index".to_string(), range: Range { start: pos(2, 4), end: pos(2, 10) } }
}

#[test]
fn completion_item_for_a_file() {
    let config = Config::default();
    let scored = ScoredEntry { entry: entry("src/index.ts", EntryKind::File), score: 42 };
    let item = completion_item_for_score(scored, &token(), 3, &config);
    assert_eq!(item.label, "index.ts — src/");
    assert_eq!(item.kind, CandidateKind::File);
    assert_eq!(item.detail, "src/index.ts · ws");
    assert_eq!(item.filter_text, "index.ts src/index.ts");
    assert_eq!(item.sort_text, "0003");
    assert_eq!(item.range, token().range);
    assert_eq!(item.new_text, "@src/index.ts");
    assert_eq!(item.rel_path, "src/index.ts");
    assert_eq!(item.score, 42);
}

#[test]
fn completion_item_for_a_directory_inserts_a_trailing_slash() {
    let config = Config::default();
    let scored = ScoredEntry { entry: entry("src", EntryKind::Directory), score: 7 };
    let item = completion_item_for_score(scored, &token(), 0, &config);
    assert_eq!(item.label, "src — ./");
    assert_eq!(item.kind, CandidateKind::Folder);
    assert_eq!(item.new_text, "@src/");
}

#[test]
fn completion_item_insertion_options() {
    let mut config = Config::default();
    config.insert.keep_trigger = false;
    config.insert.quote_paths_with_spaces = true;
    let scored = ScoredEntry { entry: entry("my docs/read me.md", EntryKind::File), score: 1 };
    let item = completion_item_for_score(scored, &token(), 12345, &config);
    assert_eq!(item.new_text, "\"my docs/read me.md\"");
    assert_eq!(item.label, "read me.md — my docs/");
    assert_eq!(item.sort_text, "12345");
    config.insert.keep_trigger = true;
    let scored = ScoredEntry { entry: entry("a/b.md", EntryKind::File), score: 1 };
    let item = completion_item_for_score(scored, &token(), 9, &config);
    assert_eq!(item.new_text, "@a/b.md");
}

#[test]
fn ranks_are_zero_padded_to_four_digits() {
    assert_eq!(zero_padded_rank(0), "0000");
    assert_eq!(zero_padded_rank(7), "0007");
    assert_eq!(zero_padded_rank(49), "0049");
    assert_eq!(zero_padded_rank(1234), "1234");
    assert_eq!(zero_padded_rank(98765), "98765");
}

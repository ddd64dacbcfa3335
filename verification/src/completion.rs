//! Recognising an `@query` mention under the cursor, and turning scored index
//! entries into completion candidates.
use vstd::prelude::*;

use crate::config::Config;
use crate::index::scoring::{parent_components, ScoredEntry, ScoredView};
use crate::index::EntryKind;
use crate::paths::{
    char_rows, components_of, join_slash, joined_names_read_back, lemma_join_slash_no_backslash,
    path_components, plain_name,
};
use crate::text::{
    chars_of, contains_char, contains_exec, contains_seq, is_white_space, is_whitespace, push_char,
    replace_char, replace_char_exec, starts_with, starts_with_exec, string_from_chars, sub_chars,
};

verus! {

/// A position in a document: zero-based line, and zero-based offset in UTF-16
/// code units within that line.
#[derive(Debug, Clone, Copy, PartialEq, Eq, Structural)]
pub struct Position {
    pub line: u32,
    pub character: u32,
}

/// A span of a document, from `start` to `end`.
#[derive(Debug, Clone, Copy, PartialEq, Eq, Structural)]
pub struct Range {
    pub start: Position,
    pub end: Position,
}

/// The mention token under the cursor: the text typed after the trigger and
/// the span that a completion replaces (trigger included).
#[derive(Debug, Clone, PartialEq, Eq)]
pub struct MentionToken {
    pub query: String,
    pub range: Range,
}

// ---------------------------------------------------------------------------
// Lines
// ---------------------------------------------------------------------------

/// `e` is where the first line of `s` ends: the first `'\n'`, or the end of `s`.
pub open spec fn is_line_end(s: Seq<char>, e: int) -> bool {
    &&& 0 <= e <= s.len()
    &&& forall|j: int| 0 <= j < e ==> s[j] != '\n'
    &&& (e == s.len() || s[e] == '\n')
}

/// Where the first line of `s` ends.
pub open spec fn line_end(s: Seq<char>) -> int {
    choose|e: int| is_line_end(s, e)
}

/// A line ended by `'\n'` loses one trailing `'\r'` as well.
pub open spec fn strip_line_ending(raw: Seq<char>, terminated: bool) -> Seq<char> {
    if terminated && raw.len() > 0 && raw.last() == '\r' {
        raw.drop_last()
    } else {
        raw
    }
}

/// Line `n` of `s` as `str::lines` yields it: lines are split at `'\n'` or
/// `"\r\n"`, and a final line ending does not start another line.
pub open spec fn nth_line(s: Seq<char>, n: nat) -> Option<Seq<char>>
    decreases s.len(),
{
    if s.len() == 0 {
        None
    } else {
        let e = line_end(s);
        if !(0 <= e <= s.len()) {
            None
        } else if n == 0 {
            Some(strip_line_ending(s.take(e), e < s.len()))
        } else if e < s.len() {
            nth_line(s.skip(e + 1), (n - 1) as nat)
        } else {
            None
        }
    }
}

proof fn lemma_line_end(s: Seq<char>, e: int)
    requires
        is_line_end(s, e),
    ensures
        line_end(s) == e,
{
    let c = line_end(s);
    assert(is_line_end(s, c));
    if c < e {
        assert(s[c] != '\n');
    } else if e < c {
        assert(s[e] != '\n');
    }
}

/// The first index at or after `from` that holds `'\n'`, or the length.
fn find_newline(cs: &Vec<char>, from: usize) -> (e: usize)
    requires
        from <= cs@.len(),
    ensures
        from <= e <= cs@.len(),
        is_line_end(cs@.skip(from as int), e - from),
{
    let mut e = from;
    while e < cs.len() && cs[e] != '\n'
        invariant
            from <= e <= cs@.len(),
            forall|j: int| from <= j < e ==> cs@[j] != '\n',
        decreases cs@.len() - e,
    {
        e += 1;
    }
    e
}

/// The bounds `(start, end)` of line `n` of `cs`, its line ending excluded.
pub fn line_bounds(cs: &Vec<char>, n: usize) -> (r: Option<(usize, usize)>)
    ensures
        match r {
            None => nth_line(cs@, n as nat) is None,
            Some((a, b)) => a <= b <= cs@.len() && nth_line(cs@, n as nat) == Some(
                cs@.subrange(a as int, b as int),
            ),
        },
{
    let mut pos: usize = 0;
    let mut k: usize = 0;
    assert(cs@.skip(0) =~= cs@);
    loop
        invariant
            pos <= cs@.len(),
            k <= n,
            nth_line(cs@, n as nat) == nth_line(cs@.skip(pos as int), (n - k) as nat),
        decreases cs@.len() - pos,
    {
        let ghost t = cs@.skip(pos as int);
        if pos == cs.len() {
            assert(t.len() == 0);
            return None;
        }
        let e = find_newline(cs, pos);
        proof {
            lemma_line_end(t, e - pos);
        }
        if k == n {
            let mut b = e;
            if e < cs.len() && e > pos && cs[e - 1] == '\r' {
                b = e - 1;
            }
            assert(t.take(e - pos) =~= cs@.subrange(pos as int, e as int));
            if e > pos {
                assert(cs@.subrange(pos as int, e as int).drop_last() =~= cs@.subrange(
                    pos as int,
                    e - 1,
                ));
            }
            return Some((pos, b));
        }
        if e == cs.len() {
            return None;
        }
        assert(t.skip(e - pos + 1) =~= cs@.skip(e + 1));
        pos = e + 1;
        k += 1;
    }
}

// ---------------------------------------------------------------------------
// UTF-16 positions
// ---------------------------------------------------------------------------

/// Code units `c` takes in UTF-16.
pub open spec fn char_utf16_len(c: char) -> nat {
    if (c as u32) < 0x10000 {
        1
    } else {
        2
    }
}

/// Code units `s` takes in UTF-16.
pub open spec fn utf16_length(s: Seq<char>) -> nat
    decreases s.len(),
{
    if s.len() == 0 {
        0
    } else {
        utf16_length(s.drop_last()) + char_utf16_len(s.last())
    }
}

/// The character index at which UTF-16 offset `units` falls, when it falls
/// on a character boundary of `line`.
pub open spec fn utf16_char_index(line: Seq<char>, units: nat) -> Option<int> {
    if exists|c: int| 0 <= c <= line.len() && utf16_length(line.take(c)) == units {
        Some(choose|c: int| 0 <= c <= line.len() && utf16_length(line.take(c)) == units)
    } else {
        None
    }
}

proof fn lemma_utf16_take_step(s: Seq<char>, i: int)
    requires
        0 <= i < s.len(),
    ensures
        utf16_length(s.take(i + 1)) == utf16_length(s.take(i)) + char_utf16_len(s[i]),
{
    assert(s.take(i + 1).drop_last() =~= s.take(i));
}

proof fn lemma_utf16_monotone(s: Seq<char>, i: int, j: int)
    requires
        0 <= i < j <= s.len(),
    ensures
        utf16_length(s.take(i)) < utf16_length(s.take(j)),
    decreases j - i,
{
    lemma_utf16_take_step(s, j - 1);
    if i < j - 1 {
        lemma_utf16_monotone(s, i, j - 1);
    }
}

proof fn lemma_utf16_char_index(line: Seq<char>, units: nat, c: int)
    requires
        0 <= c <= line.len(),
        utf16_length(line.take(c)) == units,
    ensures
        utf16_char_index(line, units) == Some(c),
{
    let d = choose|d: int| 0 <= d <= line.len() && utf16_length(line.take(d)) == units;
    assert(0 <= d <= line.len() && utf16_length(line.take(d)) == units);
    if d < c {
        lemma_utf16_monotone(line, d, c);
    } else if c < d {
        lemma_utf16_monotone(line, c, d);
    }
}

fn char_utf16_len_exec(c: char) -> (r: usize)
    ensures
        r == char_utf16_len(c),
{
    if (c as u32) < 0x10000 {
        1
    } else {
        2
    }
}

/// The character index of UTF-16 offset `utf16_idx` in `line`, or `None` when
/// the offset is past the line or inside a surrogate pair.
pub fn char_index_from_utf16(line: &Vec<char>, utf16_idx: usize) -> (r: Option<usize>)
    ensures
        r == (match utf16_char_index(line@, utf16_idx as nat) {
            Some(c) => Some(c as usize),
            None => None::<usize>,
        }),
{
    let mut units: usize = 0;
    let mut i: usize = 0;
    assert(line@.take(0) =~= Seq::<char>::empty());
    while i < line.len()
        invariant
            i <= line@.len(),
            units <= utf16_idx,
            units == utf16_length(line@.take(i as int)),
            forall|c: int| 0 <= c < i ==> utf16_length(line@.take(c)) < utf16_idx,
        decreases line@.len() - i,
    {
        if units == utf16_idx {
            proof {
                lemma_utf16_char_index(line@, utf16_idx as nat, i as int);
            }
            return Some(i);
        }
        let w = char_utf16_len_exec(line[i]);
        proof {
            lemma_utf16_take_step(line@, i as int);
        }
        if w > utf16_idx - units {
            proof {
                assert forall|c: int|
                    0 <= c <= line@.len() implies utf16_length(line@.take(c)) != utf16_idx by {
                    if c > i {
                        if c > i + 1 {
                            lemma_utf16_monotone(line@, i + 1, c);
                        }
                    }
                }
            }
            return None;
        }
        units = units + w;
        i += 1;
    }
    if units == utf16_idx {
        proof {
            lemma_utf16_char_index(line@, utf16_idx as nat, i as int);
        }
        Some(i)
    } else {
        None
    }
}

/// Bytes `c` takes in UTF-8.
pub open spec fn char_utf8_len(c: char) -> nat {
    if (c as u32) < 0x80 {
        1
    } else if (c as u32) < 0x800 {
        2
    } else if (c as u32) < 0x10000 {
        3
    } else {
        4
    }
}

/// Bytes `s` takes in UTF-8 (what `str::len` counts).
pub open spec fn utf8_length(s: Seq<char>) -> nat
    decreases s.len(),
{
    if s.len() == 0 {
        0
    } else {
        utf8_length(s.drop_last()) + char_utf8_len(s.last())
    }
}

proof fn lemma_utf8_take_step(s: Seq<char>, i: int)
    requires
        0 <= i < s.len(),
    ensures
        utf8_length(s.take(i + 1)) == utf8_length(s.take(i)) + char_utf8_len(s[i]),
{
    assert(s.take(i + 1).drop_last() =~= s.take(i));
}

proof fn lemma_utf8_monotone(s: Seq<char>, i: int, j: int)
    requires
        0 <= i <= j <= s.len(),
    ensures
        utf8_length(s.take(i)) <= utf8_length(s.take(j)),
    decreases j - i,
{
    if i < j {
        lemma_utf8_take_step(s, j - 1);
        lemma_utf8_monotone(s, i, j - 1);
    }
}

fn char_utf8_len_exec(c: char) -> (r: usize)
    ensures
        r == char_utf8_len(c),
{
    if (c as u32) < 0x80 {
        1
    } else if (c as u32) < 0x800 {
        2
    } else if (c as u32) < 0x10000 {
        3
    } else {
        4
    }
}

/// Whether `text` takes fewer than `min` bytes in UTF-8.
pub fn utf8_len_below(text: &Vec<char>, min: usize) -> (r: bool)
    ensures
        r == (utf8_length(text@) < min),
{
    if min == 0 {
        return false;
    }
    let mut bytes: usize = 0;
    let mut i: usize = 0;
    assert(text@.take(0) =~= Seq::<char>::empty());
    while i < text.len()
        invariant
            i <= text@.len(),
            bytes < min,
            bytes == utf8_length(text@.take(i as int)),
        decreases text@.len() - i,
    {
        let w = char_utf8_len_exec(text[i]);
        proof {
            lemma_utf8_take_step(text@, i as int);
        }
        if w >= min - bytes {
            proof {
                lemma_utf8_monotone(text@, i + 1, text@.len() as int);
                assert(text@.take(text@.len() as int) =~= text@);
            }
            return false;
        }
        bytes = bytes + w;
        i += 1;
    }
    assert(text@.take(text@.len() as int) =~= text@);
    true
}

/// Code units of `text` in UTF-16.
pub fn utf16_len(text: &Vec<char>) -> (r: usize)
    requires
        utf16_length(text@) <= usize::MAX,
    ensures
        r == utf16_length(text@),
{
    let mut units: usize = 0;
    let mut i: usize = 0;
    assert(text@.take(0) =~= Seq::<char>::empty());
    while i < text.len()
        invariant
            i <= text@.len(),
            units == utf16_length(text@.take(i as int)),
            utf16_length(text@) <= usize::MAX,
        decreases text@.len() - i,
    {
        proof {
            lemma_utf16_take_step(text@, i as int);
            if i + 1 < text@.len() {
                lemma_utf16_monotone(text@, i + 1, text@.len() as int);
            }
            assert(text@.take(text@.len() as int) =~= text@);
        }
        units = units + char_utf16_len_exec(text[i]);
        i += 1;
    }
    assert(text@.take(text@.len() as int) =~= text@);
    units
}

// ---------------------------------------------------------------------------
// Characters of a mention
// ---------------------------------------------------------------------------

/// ASCII letters and digits.
pub open spec fn is_ascii_alnum(c: char) -> bool {
    ('a' <= c && c <= 'z') || ('A' <= c && c <= 'Z') || ('0' <= c && c <= '9')
}

/// Characters that may appear in a mention query.
pub open spec fn token_char(c: char) -> bool {
    is_ascii_alnum(c) || c == '_' || c == '-' || c == '.' || c == '/' || c == '\\'
}

/// Characters that may stand right before the trigger.
pub open spec fn boundary_char(c: char) -> bool {
    is_white_space(c) || c == '(' || c == '[' || c == '{' || c == '"' || c == '\'' || c == '`'
}

/// Whether `ch` may appear in a mention query.
pub fn is_token_char(ch: char) -> (r: bool)
    ensures
        r == token_char(ch),
{
    ('a' <= ch && ch <= 'z') || ('A' <= ch && ch <= 'Z') || ('0' <= ch && ch <= '9') || ch == '_'
        || ch == '-' || ch == '.' || ch == '/' || ch == '\\'
}

/// Whether `ch` may stand right before the trigger of a mention.
pub fn is_boundary_char(ch: char) -> (r: bool)
    ensures
        r == boundary_char(ch),
{
    is_whitespace(ch) || ch == '(' || ch == '[' || ch == '{' || ch == '"' || ch == '\'' || ch
        == '`'
}

/// A character a mention may be made of: a query character or a character of
/// the trigger.
pub open spec fn mention_char(c: char, trigger: Seq<char>) -> bool {
    token_char(c) || trigger.contains(c)
}

/// Where the run of mention characters that ends `before` starts.
pub open spec fn token_start(before: Seq<char>, trigger: Seq<char>) -> int
    decreases before.len(),
{
    if before.len() == 0 {
        0
    } else if mention_char(before.last(), trigger) {
        token_start(before.drop_last(), trigger)
    } else {
        before.len() as int
    }
}

/// Start of the run of mention characters that ends `before`.
pub fn scan_token_start(before: &Vec<char>, trigger: &Vec<char>) -> (r: usize)
    ensures
        r == token_start(before@, trigger@),
        r <= before@.len(),
{
    let mut idx = before.len();
    assert(before@.take(idx as int) =~= before@);
    while idx > 0 && (is_token_char(before[idx - 1]) || contains_char(trigger, before[idx - 1]))
        invariant
            idx <= before@.len(),
            token_start(before@, trigger@) == token_start(before@.take(idx as int), trigger@),
        decreases idx,
    {
        assert(before@.take(idx as int).drop_last() =~= before@.take(idx - 1));
        idx -= 1;
    }
    if idx > 0 {
        assert(before@.take(idx as int).last() == before@[idx - 1]);
    } else {
        assert(before@.take(0).len() == 0);
    }
    idx
}

// ---------------------------------------------------------------------------
// Mentions
// ---------------------------------------------------------------------------

/// The mention under the cursor at UTF-16 offset `character` of line `line_no`
/// of `text`: its query and the UTF-16 offset where its trigger starts.
///
/// The cursor must end a run of query and trigger characters that begins with
/// the trigger, holds no second trigger, follows the start of the line or a
/// boundary character, and whose query has at least `min_query_len` UTF-8 bytes.
pub open spec fn mention_at(
    text: Seq<char>,
    line_no: nat,
    character: nat,
    trigger: Seq<char>,
    min_query_len: nat,
) -> Option<(Seq<char>, nat)> {
    match nth_line(text, line_no) {
        None => None,
        Some(line) => match utf16_char_index(line, character) {
            None => None,
            Some(c) => {
                let s = token_start(line.take(c), trigger);
                let token = line.subrange(s, c);
                let query = token.skip(trigger.len() as int);
                if !starts_with(token, trigger) {
                    None
                } else if contains_seq(query, trigger) {
                    None
                } else if s > 0 && !boundary_char(line[s - 1]) {
                    None
                } else if utf8_length(query) < min_query_len {
                    None
                } else {
                    Some((query, utf16_length(line.take(s))))
                }
            },
        },
    }
}

/// The mention token under `position` in `text`, if the cursor is inside one.
pub fn extract_mention_token(text: &str, position: Position, config: &Config) -> (r: Option<
    MentionToken,
>)
    ensures
        match mention_at(
            text@,
            position.line as nat,
            position.character as nat,
            config.completion.trigger@,
            config.completion.min_query_len as nat,
        ) {
            None => r is None,
            Some((query, start)) => r matches Some(token) && token.query@ == query
                && token.range == (Range {
                start: Position { line: position.line, character: start as u32 },
                end: position,
            }),
        },
{
    let cs = chars_of(text);
    let trigger = chars_of(config.completion.trigger.as_str());
    let (a, b) = match line_bounds(&cs, position.line as usize) {
        None => return None,
        Some(bounds) => bounds,
    };
    let line = sub_chars(&cs, a, b);
    let cursor = match char_index_from_utf16(&line, position.character as usize) {
        None => return None,
        Some(c) => c,
    };
    let before = sub_chars(&line, 0, cursor);
    assert(before@ == line@.take(cursor as int));
    let start = scan_token_start(&before, &trigger);
    let token = sub_chars(&line, start, cursor);
    if !starts_with_exec(&token, &trigger) {
        return None;
    }
    let query_chars = sub_chars(&token, trigger.len(), token.len());
    assert(query_chars@ =~= token@.skip(trigger@.len() as int));
    if contains_exec(&query_chars, &trigger) {
        return None;
    }
    if start > 0 {
        if !is_boundary_char(line[start - 1]) {
            return None;
        }
    }
    if utf8_len_below(&query_chars, config.completion.min_query_len) {
        return None;
    }
    let query = string_from_chars(&query_chars);
    let prefix = sub_chars(&line, 0, start);
    proof {
        assert(prefix@ =~= line@.take(start as int));
        if start < cursor {
            lemma_utf16_monotone(line@, start as int, cursor as int);
        }
        lemma_utf16_char_index(line@, position.character as nat, cursor as int);
    }
    let start_character = utf16_len(&prefix);
    Some(
        MentionToken {
            query,
            range: Range {
                start: Position { line: position.line, character: start_character as u32 },
                end: position,
            },
        },
    )
}

/// A recognised mention is well formed: its replacement span starts at or
/// before the cursor, its query holds no trigger, and the query is at least
/// `min_query_len` bytes long.
pub proof fn mention_is_well_formed(
    text: Seq<char>,
    line_no: nat,
    character: nat,
    trigger: Seq<char>,
    min_query_len: nat,
)
    ensures
        mention_at(text, line_no, character, trigger, min_query_len) matches Some((query, start))
            ==> start <= character && !contains_seq(query, trigger) && utf8_length(query)
            >= min_query_len,
{
    if let Some(line) = nth_line(text, line_no) {
        if let Some(c) = utf16_char_index(line, character) {
            let cc = choose|c: int| 0 <= c <= line.len() && utf16_length(line.take(c)) == character;
            assert(0 <= cc <= line.len() && utf16_length(line.take(cc)) == character);
            let s = token_start(line.take(c), trigger);
            lemma_token_start_bounds(line.take(c), trigger);
            if s < c {
                lemma_utf16_monotone(line, s, c);
            }
        }
    }
}

proof fn lemma_token_start_bounds(before: Seq<char>, trigger: Seq<char>)
    ensures
        0 <= token_start(before, trigger) <= before.len(),
    decreases before.len(),
{
    if before.len() > 0 && mention_char(before.last(), trigger) {
        lemma_token_start_bounds(before.drop_last(), trigger);
    }
}

/// The characters a mention query may hold, as documented: ASCII letters and
/// digits, `_`, `.`, `/`, `\\` and `-`.
pub open spec fn documented_query_char(c: char) -> bool {
    ||| ('a' <= c && c <= 'z')
    ||| ('A' <= c && c <= 'Z')
    ||| ('0' <= c && c <= '9')
    ||| c == '_'
    ||| c == '.'
    ||| c == '/'
    ||| c == '\\'
    ||| c == '-'
}

/// The scan back from the cursor takes the longest run of documented query
/// characters and trigger characters that ends the text before the cursor:
/// every character from the start of the run on is one of them, and the
/// character just before the run, if any, is neither.
pub proof fn token_start_is_longest_run(before: Seq<char>, trigger: Seq<char>)
    ensures
        ({
            let k = token_start(before, trigger);
            &&& 0 <= k <= before.len()
            &&& forall|i: int| k <= i < before.len() ==> documented_query_char(#[trigger] before[i])
                || trigger.contains(before[i])
            &&& k > 0 ==> !(documented_query_char(before[k - 1]) || trigger.contains(before[k - 1]))
        }),
    decreases before.len(),
{
    if before.len() > 0 {
        if mention_char(before.last(), trigger) {
            let d = before.drop_last();
            token_start_is_longest_run(d, trigger);
            let k = token_start(d, trigger);
            assert forall|i: int| k <= i < before.len() implies documented_query_char(#[trigger] before[i])
                || trigger.contains(before[i]) by {
                if i < d.len() {
                    assert(before[i] == d[i]);
                }
            }
            if k > 0 {
                assert(before[k - 1] == d[k - 1]);
            }
        }
    }
}

/// A trigger followed by documented query characters, right after a
/// character that cannot be part of a mention (or at the start), is scanned
/// as one run starting at the trigger: a query of letters, digits and the
/// documented punctuation is always taken whole.
pub proof fn mention_run_starts_at_trigger(prefix: Seq<char>, trigger: Seq<char>, query: Seq<char>)
    requires
        prefix.len() > 0 ==> !(documented_query_char(prefix.last()) || trigger.contains(prefix.last())),
        forall|i: int| 0 <= i < query.len() ==> documented_query_char(#[trigger] query[i]),
    ensures
        token_start(prefix + trigger + query, trigger) == prefix.len(),
{
    let before = prefix + trigger + query;
    token_start_is_longest_run(before, trigger);
    let k = token_start(before, trigger);
    if k > prefix.len() {
        let j = prefix.len() as int;
        let i = k - 1;
        if i < prefix.len() + trigger.len() {
            assert(before[i] == trigger[i - j]);
        } else {
            assert(before[i] == query[i - j - trigger.len()]);
        }
    }
    if k < prefix.len() {
        let i = prefix.len() - 1;
        assert(before[i] == prefix.last());
    }
}

// ---------------------------------------------------------------------------
// Completion candidates
// ---------------------------------------------------------------------------

/// The kind of item a candidate completes to.
#[derive(Debug, Clone, Copy, PartialEq, Eq, Structural)]
pub enum CandidateKind {
    File,
    Folder,
}

/// One completion item offered for a mention.
#[derive(Debug, Clone, PartialEq, Eq)]
pub struct CompletionCandidate {
    /// `name — parent/`
    pub label: String,
    pub kind: CandidateKind,
    /// `rel_path · root name`
    pub detail: String,
    /// `name rel_path`
    pub filter_text: String,
    /// The rank, zero-padded to four digits.
    pub sort_text: String,
    /// The span the completion replaces: the whole mention token.
    pub range: Range,
    /// The text that replaces the mention token.
    pub new_text: String,
    /// The entry's relative path and score, handed back with the item.
    pub rel_path: String,
    pub score: i64,
}

/// The character for decimal digit `d`.
pub open spec fn digit_char(d: nat) -> char {
    if d == 0 {
        '0'
    } else if d == 1 {
        '1'
    } else if d == 2 {
        '2'
    } else if d == 3 {
        '3'
    } else if d == 4 {
        '4'
    } else if d == 5 {
        '5'
    } else if d == 6 {
        '6'
    } else if d == 7 {
        '7'
    } else if d == 8 {
        '8'
    } else {
        '9'
    }
}

/// The decimal representation of `n`.
pub open spec fn decimal(n: nat) -> Seq<char>
    decreases n,
{
    if n < 10 {
        seq![digit_char(n)]
    } else {
        decimal(n / 10).push(digit_char(n % 10))
    }
}

/// The decimal representation of `n`, padded with zeros to four digits
/// (`format!("{:04}", n)`).
pub open spec fn padded4(n: nat) -> Seq<char> {
    let d = decimal(n);
    if d.len() < 4 {
        Seq::new((4 - d.len()) as nat, |i: int| '0') + d
    } else {
        d
    }
}

fn digit_char_exec(d: usize) -> (c: char)
    requires
        d < 10,
    ensures
        c == digit_char(d as nat),
{
    if d == 0 {
        '0'
    } else if d == 1 {
        '1'
    } else if d == 2 {
        '2'
    } else if d == 3 {
        '3'
    } else if d == 4 {
        '4'
    } else if d == 5 {
        '5'
    } else if d == 6 {
        '6'
    } else if d == 7 {
        '7'
    } else if d == 8 {
        '8'
    } else {
        '9'
    }
}

fn decimal_chars(n: usize) -> (r: Vec<char>)
    ensures
        r@ == decimal(n as nat),
    decreases n,
{
    if n < 10 {
        let mut v: Vec<char> = Vec::new();
        v.push(digit_char_exec(n));
        assert(v@ =~= seq![digit_char(n as nat)]);
        v
    } else {
        let mut v = decimal_chars(n / 10);
        v.push(digit_char_exec(n % 10));
        v
    }
}

/// `n` in decimal, padded with zeros to at least four digits.
pub fn zero_padded_rank(n: usize) -> (r: String)
    ensures
        r@ == padded4(n as nat),
{
    let d = decimal_chars(n);
    let mut out = String::new();
    let mut k = d.len();
    while k < 4
        invariant
            d@.len() <= k <= 4 || (k == d@.len() && k >= 4),
            out@ == Seq::new((k - d@.len()) as nat, |i: int| '0'),
        decreases 4 - k,
    {
        push_char(&mut out, '0');
        assert(out@ =~= Seq::new((k + 1 - d@.len()) as nat, |i: int| '0'));
        k += 1;
    }
    let s = string_from_chars(&d);
    out.append(s.as_str());
    assert(out@ =~= padded4(n as nat));
    out
}

/// The parent directory of a relative path as a completion shows it:
/// components joined with `/`, `\\` shown as `/`, and `.` for a path at the
/// top of the root.
pub open spec fn display_parent(rel_path: Seq<char>) -> Seq<char> {
    match parent_components(path_components(rel_path)) {
        Some(p) => {
            let text = replace_char(join_slash(p), '\\', '/');
            if text.len() == 0 {
                seq!['.']
            } else {
                text
            }
        },
        None => seq!['.'],
    }
}

/// The parent shown for a relative path of two or more plain names is the
/// whole parent path: it, a `/` and the file name give back the path.
pub proof fn display_parent_is_the_whole_parent(names: Seq<Seq<char>>)
    requires
        names.len() >= 2,
        forall|i: int| 0 <= i < names.len() ==> plain_name(#[trigger] names[i]),
    ensures
        display_parent(join_slash(names)) == join_slash(names.drop_last()),
        display_parent(join_slash(names)) + seq!['/'] + names.last() == join_slash(names),
{
    joined_names_read_back(names);
    assert(plain_name(names[names.len() - 1]));
    assert(names.last() != seq!['/']) by {
        if names.last() == seq!['/'] {
            assert(names.last()[0] == '/');
        }
    }
    let d = names.drop_last();
    assert forall|i: int| 0 <= i < d.len() implies !(#[trigger] d[i]).contains('\\') by {
        assert(d[i] == names[i]);
        assert(plain_name(names[i]));
    }
    lemma_join_slash_no_backslash(d);
    let j = join_slash(d);
    assert(replace_char(j, '\\', '/') =~= j) by {
        assert forall|k: int| 0 <= k < j.len() implies j[k] != '\\' by {
            if j[k] == '\\' {
                assert(j.contains('\\'));
            }
        }
    }
    if d.len() == 1 {
        assert(plain_name(names[0]));
        assert(j.len() > 0);
    } else {
        assert(j.len() > 0);
    }
}

/// The text a candidate inserts: the relative path, with a trailing `/` for
/// a directory, the trigger in front when it is kept, and quotes around it
/// when quoting is on and it holds a space.
pub open spec fn inserted_text(
    rel_path: Seq<char>,
    kind: EntryKind,
    trigger: Seq<char>,
    keep_trigger: bool,
    quote_spaces: bool,
) -> Seq<char> {
    let path = if kind == EntryKind::Directory {
        rel_path.push('/')
    } else {
        rel_path
    };
    let with_trigger = if keep_trigger {
        trigger + path
    } else {
        path
    };
    if quote_spaces && with_trigger.contains(' ') {
        seq!['"'] + with_trigger + seq!['"']
    } else {
        with_trigger
    }
}

fn dot_string() -> (r: String)
    ensures
        r@ == seq!['.'],
{
    let r = String::from_str(".");
    proof {
        reveal_strlit(".");
    }
    assert(r@ =~= seq!['.']);
    r
}

fn display_parent_exec(rel_path: &String) -> (r: String)
    ensures
        r@ == display_parent(rel_path@),
{
    let comps = components_of(&chars_of(rel_path.as_str()));
    let ghost cv = char_rows(comps@);
    let n = comps.len();
    if n == 0 {
        return dot_string();
    }
    let last = &comps[n - 1];
    assert(cv.last() == last@);
    if last.len() == 1 && last[0] == '/' {
        assert(last@ =~= seq!['/']);
        return dot_string();
    }
    assert(cv.last() != seq!['/']) by {
        if last@.len() == 1 {
            assert(last@[0] != seq!['/'][0]);
        }
    }
    let mut parts: Vec<String> = Vec::new();
    let mut i: usize = 0;
    while i < n - 1
        invariant
            n == comps@.len() >= 1,
            cv == char_rows(comps@),
            i <= n - 1,
            parts.deep_view() == cv.take(i as int),
        decreases n - 1 - i,
    {
        let ghost before = parts.deep_view();
        parts.push(string_from_chars(&comps[i]));
        assert(parts.deep_view() =~= before.push(cv[i as int]));
        assert(cv.take(i + 1) =~= cv.take(i as int).push(cv[i as int]));
        i += 1;
    }
    assert(cv.take(n - 1) =~= cv.drop_last());
    let joined = crate::paths::join_with_slash(&parts);
    let text = replace_char_exec(&chars_of(joined.as_str()), '\\', '/');
    if text.len() == 0 {
        return dot_string();
    }
    string_from_chars(&text)
}

/// `c` is the completion item for the scored entry `s` at position `rank` of
/// the results, replacing `range`: labelled `name — parent/`, a folder item
/// for a directory, detailed `rel_path · root`, filtered on `name rel_path`,
/// sorted by the zero-padded rank, inserting [`inserted_text`], and carrying
/// the relative path and score.
pub open spec fn is_candidate_for(
    c: CompletionCandidate,
    s: ScoredView,
    range: Range,
    rank: nat,
    config: Config,
) -> bool {
    &&& c.label@ == s.entry.file_name + " — "@ + display_parent(s.entry.rel_path) + "/"@
    &&& c.kind == (if s.entry.kind == EntryKind::Directory {
        CandidateKind::Folder
    } else {
        CandidateKind::File
    })
    &&& c.detail@ == s.entry.rel_path + " · "@ + s.entry.root_name
    &&& c.filter_text@ == s.entry.file_name + " "@ + s.entry.rel_path
    &&& c.sort_text@ == padded4(rank)
    &&& c.range == range
    &&& c.new_text@ == inserted_text(
        s.entry.rel_path,
        s.entry.kind,
        config.completion.trigger@,
        config.insert.keep_trigger,
        config.insert.quote_paths_with_spaces,
    )
    &&& c.rel_path@ == s.entry.rel_path
    &&& c.score == s.score
}

/// The completion item for entry `scored`, ranked `rank`, replacing `token`.
pub fn completion_item_for_score(
    scored: ScoredEntry,
    token: &MentionToken,
    rank: usize,
    config: &Config,
) -> (r: CompletionCandidate)
    ensures
        is_candidate_for(r, scored@, token.range, rank as nat, *config),
{
    let entry = scored.entry;
    let display = display_parent_exec(&entry.rel_path);
    let mut label = entry.file_name.clone();
    label.append(" — ");
    label.append(display.as_str());
    label.append("/");
    let mut path = entry.rel_path.clone();
    if entry.kind == EntryKind::Directory {
        push_char(&mut path, '/');
    }
    let mut new_text = if config.insert.keep_trigger {
        let mut t = config.completion.trigger.clone();
        t.append(path.as_str());
        t
    } else {
        path
    };
    if config.insert.quote_paths_with_spaces && contains_char(&chars_of(new_text.as_str()), ' ') {
        let mut quoted = String::new();
        push_char(&mut quoted, '"');
        quoted.append(new_text.as_str());
        push_char(&mut quoted, '"');
        assert(quoted@ =~= seq!['"'] + new_text@ + seq!['"']);
        new_text = quoted;
    }
    let mut detail = entry.rel_path.clone();
    detail.append(" · ");
    detail.append(entry.root_name.as_str());
    let mut filter_text = entry.file_name.clone();
    filter_text.append(" ");
    filter_text.append(entry.rel_path.as_str());
    let kind = if entry.kind == EntryKind::Directory {
        CandidateKind::Folder
    } else {
        CandidateKind::File
    };
    CompletionCandidate {
        label,
        kind,
        detail,
        filter_text,
        sort_text: zero_padded_rank(rank),
        range: token.range,
        new_text,
        rel_path: entry.rel_path,
        score: scored.score,
    }
}

} // verus!

//! Ranking index entries against a query.
use vstd::prelude::*;

use fuzzy_matcher::skim::SkimMatcherV2;
use fuzzy_matcher::FuzzyMatcher;

use crate::config::IndexConfig;
use crate::index::{FileEntry, FileEntryView};
use crate::order::{chars_less, lemma_seq_lt_asymmetric, lemma_seq_lt_transitive, seq_lt};
use crate::paths::{char_rows, components_of, path_components};
use crate::text::{
    ascii_lower, ascii_lower_char, chars_of, contains_char, occurs_at, contains_exec, contains_seq, is_white_space, is_whitespace,
    replace_char, replace_char_exec, starts_with, starts_with_exec, string_from_chars, sub_chars,
};

verus! {

/// What `str::to_lowercase` returns for `s`.
pub uninterp spec fn lowercase(s: Seq<char>) -> Seq<char>;

/// The Unicode lowercase of `s`, as `str::to_lowercase` gives it; written as
/// the lowercase of `s` with its ASCII capitals already made small, which is
/// the same text (see [`to_lowercase`]).
pub open spec fn lower_text(s: Seq<char>) -> Seq<char> {
    lowercase(ascii_lower(s))
}

/// What `SkimMatcherV2::default().ignore_case().fuzzy_match(choice, pattern)`
/// returns.
pub uninterp spec fn skim_score(choice: Seq<char>, pattern: Seq<char>) -> Option<i64>;

/// The skim score as the ranking reads it: a score outside the `i32` range,
/// which the matcher never returns (see [`fuzzy_match`]), counts as no match.
pub open spec fn fuzzy_score(choice: Seq<char>, pattern: Seq<char>) -> Option<i64> {
    match skim_score(choice, pattern) {
        Some(v) => if i32::MIN <= v && v <= i32::MAX {
            Some(v)
        } else {
            None
        },
        None => None,
    }
}

/// `str::to_lowercase`: the Unicode lowercase mapping of `s`. Making the
/// ASCII capitals of `s` small beforehand does not change the result: an
/// ASCII capital lowercases to its small letter, which lowercases to itself,
/// and the one mapping that looks at neighbouring characters (a capital sigma
/// at the end of a word) only asks whether they are cased letters, which
/// ASCII letters are in either case.
#[verifier::external_body]
fn to_lowercase(s: &str) -> (r: String)
    ensures
        r@ == lowercase(s@),
        r@ == lowercase(ascii_lower(s@)),
{
    s.to_lowercase()
}

/// `FuzzyMatcher::fuzzy_match` of `SkimMatcherV2::default().ignore_case()`,
/// the skim V2 matcher with its default scoring and no element limit,
/// comparing characters without regard to case: the skim score of `pattern`
/// against `choice`, `None` when it does not match. The matcher builds the
/// score in `i32` and widens it, so a score lies in the `i32` range. (In a
/// build with overflow checks, inputs of tens of millions of characters could
/// overflow inside the matcher; nothing is stated of that.)
#[verifier::external_body]
fn fuzzy_match(choice: &str, pattern: &str) -> (r: Option<i64>)
    ensures
        r == skim_score(choice@, pattern@),
        r matches Some(v) ==> i32::MIN <= v <= i32::MAX,
{
    SkimMatcherV2::default().ignore_case().fuzzy_match(choice, pattern)
}

/// An index entry together with its score for a query.
#[derive(Debug)]
pub struct ScoredEntry {
    pub entry: FileEntry,
    pub score: i64,
}

impl Clone for ScoredEntry {
    fn clone(&self) -> (r: Self)
        ensures
            r@ == self@,
    {
        ScoredEntry { entry: self.entry.clone(), score: self.score }
    }
}

/// The value of a [`ScoredEntry`].
pub struct ScoredView {
    pub entry: FileEntryView,
    pub score: i64,
}

impl View for ScoredEntry {
    type V = ScoredView;

    open spec fn view(&self) -> ScoredView {
        ScoredView { entry: self.entry@, score: self.score }
    }
}

/// The values of a sequence of scored entries.
pub open spec fn scored_views(s: Seq<ScoredEntry>) -> Seq<ScoredView> {
    Seq::new(s.len(), |i: int| s[i]@)
}

// ---------------------------------------------------------------------------
// Scores
// ---------------------------------------------------------------------------

/// Bonus for how the file name or stem relates to the query.
pub open spec fn name_bonus(file_lower: Seq<char>, stem_lower: Seq<char>, query_lower: Seq<char>) -> int {
    if file_lower == query_lower {
        10_000
    } else if starts_with(file_lower, query_lower) {
        8_000
    } else if stem_lower == query_lower {
        7_000
    } else if starts_with(stem_lower, query_lower) {
        6_000
    } else {
        0
    }
}

/// Bonus for how the relative path relates to the normalized query.
pub open spec fn path_bonus(path_lower: Seq<char>, normalized_lower: Seq<char>) -> int {
    if path_lower == normalized_lower {
        9_000
    } else if starts_with(path_lower, normalized_lower) {
        5_500
    } else {
        0
    }
}

/// Integer division rounding toward zero, as Rust's `/` does.
pub open spec fn div_toward_zero(a: int, d: int) -> int {
    if a >= 0 {
        a / d
    } else {
        -((-a) / d)
    }
}

/// The score after the fuzzy stage, `None` when the entry is rejected.
///
/// A path query (one with a separator) not contained in the path must fuzzy
/// match the path; one contained in it earns 3500. Any other query adds the
/// file-name match plus a third of the path match, or half the path match
/// alone, and rejects entries with neither match and no bonus so far.
pub open spec fn fuzzy_stage(
    base: int,
    is_path_query: bool,
    path_has_query: bool,
    path_query_fuzzy: Option<i64>,
    file_fuzzy: Option<i64>,
    path_fuzzy: Option<i64>,
) -> Option<int> {
    if is_path_query && !path_has_query {
        match path_query_fuzzy {
            Some(v) => Some(base + v),
            None => None,
        }
    } else if !is_path_query {
        match (file_fuzzy, path_fuzzy) {
            (Some(f), Some(p)) => Some(base + f + div_toward_zero(p as int, 3)),
            (Some(f), None) => Some(base + f),
            (None, Some(p)) => Some(base + div_toward_zero(p as int, 2)),
            (None, None) => if base == 0 {
                None
            } else {
                Some(base)
            },
        }
    } else {
        Some(base + 3_500)
    }
}

/// Path fragments that mark generated or test files.
pub open spec fn penalty_markers() -> Seq<Seq<char>> {
    seq![
        "__snapshots__/"@,
        ".generated."@,
        ".gen."@,
        ".test."@,
        ".spec."@,
        "/tests/"@,
        "/test/"@,
    ]
}

/// How many of `markers` occur in `path`.
pub open spec fn markers_found(path: Seq<char>, markers: Seq<Seq<char>>) -> nat
    decreases markers.len(),
{
    if markers.len() == 0 {
        0
    } else {
        markers_found(path, markers.drop_last()) + if contains_seq(path, markers.last()) {
            1nat
        } else {
            0nat
        }
    }
}

/// 200 for each generated/test marker that occurs in the path.
pub open spec fn test_penalty(path_lower: Seq<char>) -> int {
    (200 * markers_found(path_lower, penalty_markers())) as int
}

/// The score of an entry from its lowercased texts, the fuzzy match results,
/// the context boost and its depth; `None` when it is rejected or its score
/// is not positive.
pub open spec fn score_parts(
    file_lower: Seq<char>,
    stem_lower: Seq<char>,
    path_lower: Seq<char>,
    query_lower: Seq<char>,
    normalized_lower: Seq<char>,
    is_path_query: bool,
    path_query_fuzzy: Option<i64>,
    file_fuzzy: Option<i64>,
    path_fuzzy: Option<i64>,
    boost: int,
    depth: u16,
) -> Option<int> {
    let base = name_bonus(file_lower, stem_lower, query_lower) + path_bonus(
        path_lower,
        normalized_lower,
    );
    match fuzzy_stage(
        base,
        is_path_query,
        contains_seq(path_lower, normalized_lower),
        path_query_fuzzy,
        file_fuzzy,
        path_fuzzy,
    ) {
        None => None,
        Some(m) => {
            let total = m + boost - depth * 10 - test_penalty(path_lower);
            if total <= 0 {
                None
            } else {
                Some(total)
            }
        },
    }
}

/// The parent of a component path: `None` for an empty path or one that
/// ends at the root.
pub open spec fn parent_components(c: Seq<Seq<char>>) -> Option<Seq<Seq<char>>> {
    if c.len() == 0 || c.last() == seq!['/'] {
        None
    } else {
        Some(c.drop_last())
    }
}

/// Boost for entries near the file being edited (`current`, as components):
/// 1000 in the same directory, 400 under the same top-level directory of the
/// root, 150 elsewhere in the root, 0 when the file is not under the root.
pub open spec fn context_boost_for(
    root: Seq<Seq<char>>,
    rel_path: Seq<char>,
    current: Seq<Seq<char>>,
) -> int {
    if !root.is_prefix_of(current) {
        0
    } else {
        let cur = current.skip(root.len() as int);
        let rel = path_components(rel_path);
        if parent_components(cur) == parent_components(rel) {
            1_000
        } else if cur.len() > 0 && rel.len() > 0 && cur[0] == rel[0] {
            400
        } else {
            150
        }
    }
}

/// The score of entry `e` for a query, as the search computes it.
pub open spec fn entry_score(
    e: FileEntryView,
    query_lower: Seq<char>,
    normalized_query: Seq<char>,
    is_path_query: bool,
    current: Option<Seq<Seq<char>>>,
) -> Option<int> {
    let file_lower = lower_text(e.file_name);
    let path_lower = lower_text(e.rel_path);
    let normalized_lower = lower_text(normalized_query);
    score_parts(
        file_lower,
        lower_text(e.stem),
        path_lower,
        query_lower,
        normalized_lower,
        is_path_query,
        fuzzy_score(path_lower, normalized_lower),
        fuzzy_score(file_lower, query_lower),
        fuzzy_score(path_lower, query_lower),
        match current {
            Some(c) => context_boost_for(e.root, e.rel_path, c),
            None => 0,
        },
        e.depth,
    )
}

fn penalty_marker_list() -> (r: Vec<Vec<char>>)
    ensures
        char_rows(r@) == penalty_markers(),
{
    let mut v: Vec<Vec<char>> = Vec::new();
    v.push(chars_of("__snapshots__/"));
    v.push(chars_of(".generated."));
    v.push(chars_of(".gen."));
    v.push(chars_of(".test."));
    v.push(chars_of(".spec."));
    v.push(chars_of("/tests/"));
    v.push(chars_of("/test/"));
    assert(char_rows(v@) =~= penalty_markers());
    v
}

/// 200 for each generated/test marker the lowercased path contains.
pub fn generated_or_test_penalty(path_lower: &str) -> (r: i64)
    ensures
        r == test_penalty(path_lower@),
{
    penalty_of_chars(&chars_of(path_lower))
}

fn penalty_of_chars(path: &Vec<char>) -> (r: i64)
    ensures
        r == test_penalty(path@),
        0 <= r <= 1400,
{
    let markers = penalty_marker_list();
    let ghost ms = char_rows(markers@);
    let mut penalty: i64 = 0;
    let mut i: usize = 0;
    assert(ms.take(0) =~= Seq::<Seq<char>>::empty());
    while i < markers.len()
        invariant
            i <= markers@.len(),
            ms == char_rows(markers@),
            ms.len() == 7,
            penalty == 200 * markers_found(path@, ms.take(i as int)),
            markers_found(path@, ms.take(i as int)) <= i,
        decreases markers@.len() - i,
    {
        assert(ms.take(i + 1).drop_last() =~= ms.take(i as int));
        assert(ms.take(i + 1).last() == markers[i as int]@);
        if contains_exec(&path, &markers[i]) {
            penalty = penalty + 200;
        }
        i += 1;
    }
    assert(ms.take(7) =~= ms);
    penalty
}

/// Component-wise prefix test.
fn is_prefix_components(prefix: &Vec<String>, whole: &Vec<String>) -> (r: bool)
    ensures
        r == prefix.deep_view().is_prefix_of(whole.deep_view()),
{
    if prefix.len() > whole.len() {
        return false;
    }
    let mut i: usize = 0;
    while i < prefix.len()
        invariant
            i <= prefix@.len() <= whole@.len(),
            forall|k: int| 0 <= k < i ==> prefix@[k]@ == whole@[k]@,
        decreases prefix@.len() - i,
    {
        if prefix[i] != whole[i] {
            assert(prefix.deep_view()[i as int] != whole.deep_view().subrange(0, prefix@.len() as int)[i as int]);
            return false;
        }
        i += 1;
    }
    assert(prefix.deep_view() =~= whole.deep_view().subrange(0, prefix@.len() as int));
    true
}

/// Equality of two component paths, each a slice of a component vector.
fn rows_equal(a: &Vec<Vec<char>>, a_lo: usize, a_hi: usize, b: &Vec<String>, b_lo: usize, b_hi: usize) -> (r: bool)
    requires
        a_lo <= a_hi <= a@.len(),
        b_lo <= b_hi <= b@.len(),
    ensures
        r == (char_rows(a@).subrange(a_lo as int, a_hi as int) == b.deep_view().subrange(
            b_lo as int,
            b_hi as int,
        )),
{
    if a_hi - a_lo != b_hi - b_lo {
        assert(char_rows(a@).subrange(a_lo as int, a_hi as int).len() != b.deep_view().subrange(
            b_lo as int,
            b_hi as int,
        ).len());
        return false;
    }
    let n = a_hi - a_lo;
    let mut i: usize = 0;
    while i < n
        invariant
            n == a_hi - a_lo == b_hi - b_lo,
            a_lo <= a_hi <= a@.len(),
            b_lo <= b_hi <= b@.len(),
            i <= n,
            forall|k: int| 0 <= k < i ==> char_rows(a@).subrange(a_lo as int, a_hi as int)[k] == #[trigger] b.deep_view().subrange(b_lo as int, b_hi as int)[k],
        decreases n - i,
    {
        let bc = chars_of(b[b_lo + i].as_str());
        if !chars_equal(&a[a_lo + i], &bc) {
            assert(char_rows(a@).subrange(a_lo as int, a_hi as int)[i as int] != b.deep_view().subrange(b_lo as int, b_hi as int)[i as int]);
            return false;
        }
        i += 1;
    }
    assert(char_rows(a@).subrange(a_lo as int, a_hi as int) =~= b.deep_view().subrange(
        b_lo as int,
        b_hi as int,
    ));
    true
}

fn chars_equal(a: &Vec<char>, b: &Vec<char>) -> (r: bool)
    ensures
        r == (a@ == b@),
{
    if a.len() != b.len() {
        return false;
    }
    let mut i: usize = 0;
    while i < a.len()
        invariant
            a@.len() == b@.len(),
            i <= a@.len(),
            forall|k: int| 0 <= k < i ==> a@[k] == b@[k],
        decreases a@.len() - i,
    {
        if a[i] != b[i] {
            return false;
        }
        i += 1;
    }
    assert(a@ =~= b@);
    true
}

/// Boost for entries near the file being edited (see [`context_boost_for`]).
pub fn context_boost(entry: &FileEntry, current_file: &Vec<String>) -> (r: i64)
    ensures
        r == context_boost_for(entry@.root, entry@.rel_path, current_file.deep_view()),
{
    if !is_prefix_components(&entry.root, current_file) {
        return 0;
    }
    let ghost cur = current_file.deep_view().skip(entry.root@.len() as int);
    let rel = components_of(&chars_of(entry.rel_path.as_str()));
    let ghost relv = char_rows(rel@);
    let base = entry.root.len();
    let cur_len = current_file.len() - base;
    assert(current_file.deep_view().subrange(base as int, current_file@.len() as int) =~= cur);
    // The parents: `None` for empty paths and paths that end at the root.
    let cur_has_parent = cur_len > 0 && !is_root_component(&current_file[current_file.len() - 1]);
    let rel_has_parent = rel.len() > 0 && !is_root_chars(&rel[rel.len() - 1]);
    proof {
        if cur_len > 0 {
            assert(cur.last() == current_file@[current_file@.len() - 1]@);
        }
        if rel@.len() > 0 {
            assert(relv.last() == rel@[rel@.len() - 1]@);
        }
    }
    let same_parent = if cur_has_parent && rel_has_parent {
        let eq = rows_equal(&rel, 0, rel.len() - 1, current_file, base, current_file.len() - 1);
        assert(relv.subrange(0, rel@.len() - 1) =~= relv.drop_last());
        assert(current_file.deep_view().subrange(base as int, current_file@.len() - 1) =~= cur.drop_last());
        eq
    } else {
        !cur_has_parent && !rel_has_parent
    };
    if same_parent {
        return 1000;
    }
    if cur_len > 0 && rel.len() > 0 {
        let first = rows_equal(&rel, 0, 1, current_file, base, base + 1);
        assert(relv.subrange(0, 1) =~= seq![relv[0]]);
        assert(current_file.deep_view().subrange(base as int, base + 1) =~= seq![cur[0]]);
        if first {
            return 400;
        }
    }
    150
}

fn is_root_chars(c: &Vec<char>) -> (r: bool)
    ensures
        r == (c@ == seq!['/']),
{
    let r = c.len() == 1 && c[0] == '/';
    if r {
        assert(c@ =~= seq!['/']);
    }
    r
}

fn is_root_component(c: &String) -> (r: bool)
    ensures
        r == (c@ == seq!['/']),
{
    is_root_chars(&chars_of(c.as_str()))
}


/// The score of an entry from its lowercased texts, the fuzzy match results
/// (each consulted only where [`fuzzy_stage`] needs it), the context boost
/// and the depth (see [`score_parts`]).
pub fn score_from_matches(
    file_lower: &Vec<char>,
    stem_lower: &Vec<char>,
    path_lower: &Vec<char>,
    query_lower: &Vec<char>,
    normalized_lower: &Vec<char>,
    is_path_query: bool,
    path_query_fuzzy: Option<i64>,
    file_fuzzy: Option<i64>,
    path_fuzzy: Option<i64>,
    boost: i64,
    depth: u16,
) -> (r: Option<i64>)
    requires
        path_query_fuzzy matches Some(v) ==> i32::MIN <= v <= i32::MAX,
        file_fuzzy matches Some(v) ==> i32::MIN <= v <= i32::MAX,
        path_fuzzy matches Some(v) ==> i32::MIN <= v <= i32::MAX,
        0 <= boost <= 1_000,
    ensures
        r == match score_parts(
            file_lower@,
            stem_lower@,
            path_lower@,
            query_lower@,
            normalized_lower@,
            is_path_query,
            path_query_fuzzy,
            file_fuzzy,
            path_fuzzy,
            boost as int,
            depth,
        ) {
            Some(v) => Some(v as i64),
            None => None::<i64>,
        },
        r matches Some(v) ==> 0 < v,
{
    let base = bonus_exec(file_lower, stem_lower, path_lower, query_lower, normalized_lower);
    let path_has_query = contains_exec(path_lower, normalized_lower);
    let matched = fuzzy_stage_exec(
        base,
        is_path_query,
        path_has_query,
        path_query_fuzzy,
        file_fuzzy,
        path_fuzzy,
    );
    match matched {
        None => None,
        Some(m) => {
            let total = m + boost - (depth as i64) * 10 - penalty_of_chars(path_lower);
            if total <= 0 {
                None
            } else {
                Some(total)
            }
        },
    }
}

fn bonus_exec(
    file_lower: &Vec<char>,
    stem_lower: &Vec<char>,
    path_lower: &Vec<char>,
    query_lower: &Vec<char>,
    normalized_lower: &Vec<char>,
) -> (r: i64)
    ensures
        r == name_bonus(file_lower@, stem_lower@, query_lower@) + path_bonus(
            path_lower@,
            normalized_lower@,
        ),
        0 <= r <= 19_000,
{
    let name: i64 = if chars_equal(file_lower, query_lower) {
        10_000
    } else if starts_with_exec(file_lower, query_lower) {
        8_000
    } else if chars_equal(stem_lower, query_lower) {
        7_000
    } else if starts_with_exec(stem_lower, query_lower) {
        6_000
    } else {
        0
    };
    let path: i64 = if chars_equal(path_lower, normalized_lower) {
        9_000
    } else if starts_with_exec(path_lower, normalized_lower) {
        5_500
    } else {
        0
    };
    name + path
}

fn div_toward_zero_exec(a: i64, d: i64) -> (r: i64)
    requires
        i32::MIN <= a <= i32::MAX,
        d == 2 || d == 3,
    ensures
        r == div_toward_zero(a as int, d as int),
        i32::MIN <= r <= i32::MAX,
{
    if a >= 0 {
        a / d
    } else {
        -((-a) / d)
    }
}

fn fuzzy_stage_exec(
    base: i64,
    is_path_query: bool,
    path_has_query: bool,
    path_query_fuzzy: Option<i64>,
    file_fuzzy: Option<i64>,
    path_fuzzy: Option<i64>,
) -> (r: Option<i64>)
    requires
        0 <= base <= 19_000,
        path_query_fuzzy matches Some(v) ==> i32::MIN <= v <= i32::MAX,
        file_fuzzy matches Some(v) ==> i32::MIN <= v <= i32::MAX,
        path_fuzzy matches Some(v) ==> i32::MIN <= v <= i32::MAX,
    ensures
        r == match fuzzy_stage(
            base as int,
            is_path_query,
            path_has_query,
            path_query_fuzzy,
            file_fuzzy,
            path_fuzzy,
        ) {
            Some(v) => Some(v as i64),
            None => None::<i64>,
        },
        r matches Some(v) ==> -0x1_0000_0000 <= v <= 0x1_0000_0000,
{
    if is_path_query && !path_has_query {
        match path_query_fuzzy {
            Some(v) => Some(base + v),
            None => None,
        }
    } else if !is_path_query {
        match (file_fuzzy, path_fuzzy) {
            (Some(f), Some(p)) => Some(base + f + div_toward_zero_exec(p, 3)),
            (Some(f), None) => Some(base + f),
            (None, Some(p)) => Some(base + div_toward_zero_exec(p, 2)),
            (None, None) => if base == 0 {
                None
            } else {
                Some(base)
            },
        }
    } else {
        Some(base + 3_500)
    }
}

/// The score of `entry` for a query, `None` when it is not a candidate
/// (see [`entry_score`]).
pub fn score_entry(
    entry: &FileEntry,
    query_lower: &str,
    normalized_query: &str,
    is_path_query: bool,
    current_file: Option<&Vec<String>>,
) -> (r: Option<i64>)
    ensures
        r == match entry_score(
            entry@,
            query_lower@,
            normalized_query@,
            is_path_query,
            match current_file {
                Some(c) => Some(c.deep_view()),
                None => None,
            },
        ) {
            Some(v) => Some(v as i64),
            None => None::<i64>,
        },
        r matches Some(v) ==> 0 < v,
{
    let file_lower = to_lowercase(entry.file_name.as_str());
    let stem_lower = to_lowercase(entry.stem.as_str());
    let path_lower = to_lowercase(entry.rel_path.as_str());
    let normalized_lower = to_lowercase(normalized_query);
    let file_chars = chars_of(file_lower.as_str());
    let stem_chars = chars_of(stem_lower.as_str());
    let path_chars = chars_of(path_lower.as_str());
    let query_chars = chars_of(query_lower);
    let normalized_chars = chars_of(normalized_lower.as_str());
    let path_has_query = contains_exec(&path_chars, &normalized_chars);
    let mut path_query_fuzzy: Option<i64> = None;
    let mut file_fuzzy: Option<i64> = None;
    let mut path_fuzzy: Option<i64> = None;
    if is_path_query && !path_has_query {
        path_query_fuzzy = fuzzy_match(path_lower.as_str(), normalized_lower.as_str());
    } else if !is_path_query {
        file_fuzzy = fuzzy_match(file_lower.as_str(), query_lower);
        path_fuzzy = fuzzy_match(path_lower.as_str(), query_lower);
    }
    let boost = match current_file {
        Some(current) => context_boost(entry, current),
        None => 0,
    };
    score_from_matches(
        &file_chars,
        &stem_chars,
        &path_chars,
        &query_chars,
        &normalized_chars,
        is_path_query,
        path_query_fuzzy,
        file_fuzzy,
        path_fuzzy,
        boost,
        entry.depth,
    )
}

// ---------------------------------------------------------------------------
// Queries
// ---------------------------------------------------------------------------

/// `s` without leading whitespace.
pub open spec fn trim_start_ws(s: Seq<char>) -> Seq<char>
    decreases s.len(),
{
    if s.len() > 0 && is_white_space(s[0]) {
        trim_start_ws(s.drop_first())
    } else {
        s
    }
}

/// `s` without trailing whitespace.
pub open spec fn trim_end_ws(s: Seq<char>) -> Seq<char>
    decreases s.len(),
{
    if s.len() > 0 && is_white_space(s.last()) {
        trim_end_ws(s.drop_last())
    } else {
        s
    }
}

/// `s` without leading and trailing whitespace (`str::trim`).
pub open spec fn trim_ws(s: Seq<char>) -> Seq<char> {
    trim_end_ws(trim_start_ws(s))
}

/// The bounds of `cs` without leading and trailing whitespace.
fn trim_bounds(cs: &Vec<char>) -> (r: (usize, usize))
    ensures
        r.0 <= r.1 <= cs@.len(),
        cs@.subrange(r.0 as int, r.1 as int) == trim_ws(cs@),
{
    let mut lo: usize = 0;
    assert(cs@.skip(0) =~= cs@);
    while lo < cs.len() && is_whitespace(cs[lo])
        invariant
            lo <= cs@.len(),
            trim_start_ws(cs@) == trim_start_ws(cs@.skip(lo as int)),
        decreases cs@.len() - lo,
    {
        assert(cs@.skip(lo as int).drop_first() =~= cs@.skip(lo + 1));
        lo += 1;
    }
    let ghost start = cs@.skip(lo as int);
    assert(trim_start_ws(start) == start);
    let mut hi: usize = cs.len();
    assert(cs@.subrange(lo as int, hi as int) =~= start);
    while hi > lo && is_whitespace(cs[hi - 1])
        invariant
            lo <= hi <= cs@.len(),
            trim_end_ws(start) == trim_end_ws(cs@.subrange(lo as int, hi as int)),
        decreases hi,
    {
        assert(cs@.subrange(lo as int, hi as int).drop_last() =~= cs@.subrange(lo as int, hi - 1));
        hi -= 1;
    }
    (lo, hi)
}

// ---------------------------------------------------------------------------
// Ranking
// ---------------------------------------------------------------------------

/// `a` ranks ahead of `b`: a higher score, or the same score and a relative
/// path that sorts first.
pub open spec fn ranks_before(a: ScoredView, b: ScoredView) -> bool {
    a.score > b.score || (a.score == b.score && seq_lt(a.entry.rel_path, b.entry.rel_path))
}

/// `x` placed in `s` after every element it does not rank ahead of.
pub open spec fn insert_ranked(s: Seq<ScoredView>, x: ScoredView) -> Seq<ScoredView>
    decreases s.len(),
{
    if s.len() == 0 {
        seq![x]
    } else if ranks_before(x, s[0]) {
        seq![x] + s
    } else {
        seq![s[0]] + insert_ranked(s.drop_first(), x)
    }
}

/// `s` ordered by rank, elements of equal rank kept in their order in `s`
/// (a stable sort).
pub open spec fn rank(s: Seq<ScoredView>) -> Seq<ScoredView>
    decreases s.len(),
{
    if s.len() == 0 {
        Seq::empty()
    } else {
        insert_ranked(rank(s.drop_last()), s.last())
    }
}

/// The first `m` elements of `s` (all of them when it is shorter).
pub open spec fn first_n<A>(s: Seq<A>, m: nat) -> Seq<A> {
    if s.len() <= m {
        s
    } else {
        s.take(m as int)
    }
}

proof fn lemma_insert_ranked_at(s: Seq<ScoredView>, x: ScoredView, k: int)
    requires
        0 <= k <= s.len(),
        forall|j: int| 0 <= j < k ==> !ranks_before(x, #[trigger] s[j]),
        k == s.len() || ranks_before(x, s[k]),
    ensures
        insert_ranked(s, x) == s.take(k) + seq![x] + s.skip(k),
    decreases s.len(),
{
    if s.len() == 0 {
        assert(s.take(k) + seq![x] + s.skip(k) =~= seq![x]);
    } else if k == 0 {
        assert(s.take(0) + seq![x] + s.skip(0) =~= seq![x] + s);
    } else {
        assert(!ranks_before(x, s[0]));
        let t = s.drop_first();
        assert forall|j: int| 0 <= j < k - 1 implies !ranks_before(x, #[trigger] t[j]) by {
            assert(t[j] == s[j + 1]);
        }
        lemma_insert_ranked_at(t, x, k - 1);
        assert(seq![s[0]] + (t.take(k - 1) + seq![x] + t.skip(k - 1)) =~= s.take(k) + seq![x]
            + s.skip(k));
    }
}

proof fn lemma_insert_ranked_len(s: Seq<ScoredView>, x: ScoredView)
    ensures
        insert_ranked(s, x).len() == s.len() + 1,
    decreases s.len(),
{
    if s.len() > 0 && !ranks_before(x, s[0]) {
        lemma_insert_ranked_len(s.drop_first(), x);
    }
}

proof fn lemma_rank_len(s: Seq<ScoredView>)
    ensures
        rank(s).len() == s.len(),
    decreases s.len(),
{
    if s.len() > 0 {
        lemma_rank_len(s.drop_last());
        lemma_insert_ranked_len(rank(s.drop_last()), s.last());
    }
}

/// Inserting and then keeping the first `m` is the same as inserting into the
/// first `m` and keeping the first `m`.
proof fn lemma_insert_ranked_take(s: Seq<ScoredView>, x: ScoredView, m: int)
    requires
        0 <= m <= s.len(),
    ensures
        insert_ranked(s, x).take(m) == insert_ranked(s.take(m), x).take(m),
    decreases s.len(),
{
    lemma_insert_ranked_len(s, x);
    lemma_insert_ranked_len(s.take(m), x);
    if m == 0 {
        assert(insert_ranked(s, x).take(0) =~= insert_ranked(s.take(m), x).take(0));
    } else if ranks_before(x, s[0]) {
        assert(s.take(m)[0] == s[0]);
        assert((seq![x] + s).take(m) =~= (seq![x] + s.take(m)).take(m));
    } else {
        assert(s.take(m)[0] == s[0]);
        assert(s.take(m).drop_first() =~= s.drop_first().take(m - 1));
        lemma_insert_ranked_take(s.drop_first(), x, m - 1);
        lemma_insert_ranked_len(s.drop_first(), x);
        lemma_insert_ranked_len(s.drop_first().take(m - 1), x);
        assert((seq![s[0]] + insert_ranked(s.drop_first(), x)).take(m) =~= seq![s[0]]
            + insert_ranked(s.drop_first(), x).take(m - 1));
        assert((seq![s[0]] + insert_ranked(s.drop_first().take(m - 1), x)).take(m) =~= seq![s[0]]
            + insert_ranked(s.drop_first().take(m - 1), x).take(m - 1));
    }
}

/// The candidates among `entries` with their scores, in entry order.
pub open spec fn scored_candidates(
    entries: Seq<FileEntryView>,
    query_lower: Seq<char>,
    normalized_query: Seq<char>,
    is_path_query: bool,
    current: Option<Seq<Seq<char>>>,
) -> Seq<ScoredView>
    decreases entries.len(),
{
    if entries.len() == 0 {
        Seq::empty()
    } else {
        let rest = scored_candidates(
            entries.drop_last(),
            query_lower,
            normalized_query,
            is_path_query,
            current,
        );
        match entry_score(entries.last(), query_lower, normalized_query, is_path_query, current) {
            Some(v) => rest.push(ScoredView { entry: entries.last(), score: v as i64 }),
            None => rest,
        }
    }
}

/// What a search for `query` returns: nothing for a blank query; otherwise
/// the best `max_results` candidates by rank. The query is trimmed; it is a
/// path query when it holds `/` or `\`, and is compared with paths with `\`
/// read as `/`.
pub open spec fn search_result(
    entries: Seq<FileEntryView>,
    query: Seq<char>,
    current: Option<Seq<Seq<char>>>,
    max_results: nat,
) -> Seq<ScoredView> {
    let q = trim_ws(query);
    if q.len() == 0 {
        Seq::empty()
    } else {
        let candidates = scored_candidates(
            entries,
            lower_text(q),
            replace_char(q, '\\', '/'),
            q.contains('/') || q.contains('\\'),
            current,
        );
        first_n(rank(candidates), max_results)
    }
}

/// The values of a sequence of entries.
pub open spec fn entry_values(entries: Seq<FileEntry>) -> Seq<FileEntryView> {
    Seq::new(entries.len(), |i: int| entries[i]@)
}

/// Places `cand` among the best-ranked entries `top`, keeping at most `max`.
fn insert_top(top: &mut Vec<ScoredEntry>, keys: &mut Vec<Vec<char>>, cand: ScoredEntry, max: usize)
    requires
        old(top)@.len() <= max,
        old(keys)@.len() == old(top)@.len(),
        forall|j: int| 0 <= j < old(top)@.len() ==> #[trigger] old(keys)@[j]@ == old(top)@[j].entry.rel_path@,
    ensures
        scored_views(final(top)@) == first_n(insert_ranked(scored_views(old(top)@), cand@), max as nat),
        final(top)@.len() <= max,
        final(keys)@.len() == final(top)@.len(),
        forall|j: int| 0 <= j < final(top)@.len() ==> #[trigger] final(keys)@[j]@ == final(top)@[j].entry.rel_path@,
{
    let ghost s = scored_views(top@);
    let key = chars_of(cand.entry.rel_path.as_str());
    let mut k: usize = 0;
    while k < top.len() && !(cand.score > top[k].score || (cand.score == top[k].score
        && chars_less(&key, &keys[k])))
        invariant
            k <= top@.len(),
            s == scored_views(top@),
            keys@.len() == top@.len(),
            forall|j: int| 0 <= j < top@.len() ==> #[trigger] keys@[j]@ == top@[j].entry.rel_path@,
            forall|j: int| 0 <= j < k ==> !ranks_before(cand@, #[trigger] s[j]),
            key@ == cand@.entry.rel_path,
        decreases top@.len() - k,
    {
        assert(s[k as int] == top@[k as int]@);
        k += 1;
    }
    if k < top.len() {
        assert(s[k as int] == top@[k as int]@);
    }
    proof {
        lemma_insert_ranked_at(s, cand@, k as int);
        lemma_insert_ranked_len(s, cand@);
    }
    if k >= max {
        assert(first_n(insert_ranked(s, cand@), max as nat) =~= s);
        return;
    }
    let ghost cv = cand@;
    top.insert(k, cand);
    keys.insert(k, key);
    assert(scored_views(top@) =~= s.take(k as int) + seq![cv] + s.skip(k as int));
    if top.len() > max {
        top.pop();
        keys.pop();
        assert(scored_views(top@) =~= (s.take(k as int) + seq![cv] + s.skip(k as int)).take(max as int));
    }
    assert forall|j: int| 0 <= j < top@.len() implies #[trigger] keys@[j]@ == top@[j].entry.rel_path@ by {
    }
}

/// The entries that best match `query`, best first, at most
/// `config.max_results` of them (see [`search_result`]). `current_file`, the
/// components of the file being edited, boosts nearby entries.
pub fn search(
    entries: &Vec<FileEntry>,
    query: &str,
    current_file: Option<&Vec<String>>,
    config: &IndexConfig,
) -> (r: Vec<ScoredEntry>)
    ensures
        scored_views(r@) == search_result(
            entry_values(entries@),
            query@,
            match current_file {
                Some(c) => Some(c.deep_view()),
                None => None,
            },
            config.max_results as nat,
        ),
        forall|i: int| 0 <= i < r@.len() ==> #[trigger] r@[i].score > 0,
{
    let ghost current = match current_file {
        Some(c) => Some(c.deep_view()),
        None => None,
    };
    let qchars = chars_of(query);
    let (lo, hi) = trim_bounds(&qchars);
    if lo == hi {
        let none: Vec<ScoredEntry> = Vec::new();
        assert(scored_views(none@) =~= Seq::<ScoredView>::empty());
        return none;
    }
    let trimmed = sub_chars(&qchars, lo, hi);
    let trimmed_text = string_from_chars(&trimmed);
    let query_lower = to_lowercase(trimmed_text.as_str());
    let is_path_query = contains_char(&trimmed, '/') || contains_char(&trimmed, '\\');
    let normalized = string_from_chars(&replace_char_exec(&trimmed, '\\', '/'));
    let max = config.max_results;
    let ghost ql = query_lower@;
    let ghost nq = normalized@;
    let ghost all = entry_values(entries@);
    let mut top: Vec<ScoredEntry> = Vec::new();
    let mut keys: Vec<Vec<char>> = Vec::new();
    let mut i: usize = 0;
    assert(all.take(0) =~= Seq::<FileEntryView>::empty());
    proof {
        lemma_rank_len(Seq::<ScoredView>::empty());
    }
    assert(scored_views(top@) =~= first_n(rank(Seq::<ScoredView>::empty()), max as nat));
    while i < entries.len()
        invariant
            i <= entries@.len(),
            all == entry_values(entries@),
            ql == query_lower@,
            nq == normalized@,
            current == match current_file {
                Some(c) => Some(c.deep_view()),
                None => None,
            },
            max == config.max_results,
            top@.len() <= max,
            keys@.len() == top@.len(),
            forall|j: int| 0 <= j < top@.len() ==> #[trigger] keys@[j]@ == top@[j].entry.rel_path@,
            scored_views(top@) == first_n(
                rank(scored_candidates(all.take(i as int), ql, nq, is_path_query, current)),
                max as nat,
            ),
        decreases entries@.len() - i,
    {
        let ghost prefix = all.take(i as int);
        let ghost cands = scored_candidates(prefix, ql, nq, is_path_query, current);
        assert(all.take(i + 1).drop_last() =~= prefix);
        assert(all.take(i + 1).last() == entries@[i as int]@);
        let ghost es = entry_score(entries@[i as int]@, ql, nq, is_path_query, current);
        assert(scored_candidates(all.take(i + 1), ql, nq, is_path_query, current) == match es {
            Some(v) => cands.push(ScoredView { entry: entries@[i as int]@, score: v as i64 }),
            None => cands,
        });
        let ql_str = query_lower.as_str();
        let nq_str = normalized.as_str();
        assert(ql_str@ == ql && nq_str@ == nq);
        let scored = score_entry(
            &entries[i],
            ql_str,
            nq_str,
            is_path_query,
            current_file,
        );
        assert(scored == match es {
            Some(v) => Some(v as i64),
            None => None::<i64>,
        });
        match scored {
            Some(score) => {
                let cand = ScoredEntry { entry: entries[i].clone(), score };
                let ghost cv = cand@;
                assert(scored_candidates(all.take(i + 1), ql, nq, is_path_query, current) == cands.push(cv));
                proof {
                    lemma_rank_len(cands);
                    let rk = rank(cands);
                    assert(rank(cands.push(cv)) == insert_ranked(rk, cv)) by {
                        assert(cands.push(cv).drop_last() =~= cands);
                    }
                    lemma_insert_ranked_len(rk, cv);
                    lemma_insert_ranked_len(first_n(rk, max as nat), cv);
                    if rk.len() > max {
                        lemma_insert_ranked_take(rk, cv, max as int);
                        assert(first_n(insert_ranked(rk, cv), max as nat) == first_n(
                            insert_ranked(first_n(rk, max as nat), cv),
                            max as nat,
                        ));
                    }
                }
                insert_top(&mut top, &mut keys, cand, max);
            },
            None => {
                assert(scored_candidates(all.take(i + 1), ql, nq, is_path_query, current) == cands);
            },
        }
        i += 1;
    }
    assert(all.take(entries@.len() as int) =~= all);
    assert forall|k: int| 0 <= k < top@.len() implies #[trigger] top@[k].score > 0 by {
        assert(scored_views(top@)[k] == top@[k]@);
        search_scores_are_positive(all, query@, current, max as nat, k);
    }
    top
}

// ---------------------------------------------------------------------------
// Laws of the ranking
// ---------------------------------------------------------------------------

/// No element of `s` ranks ahead of an element before it.
pub open spec fn ranked(s: Seq<ScoredView>) -> bool {
    forall|i: int, j: int| 0 <= i < j < s.len() ==> !ranks_before(#[trigger] s[j], #[trigger] s[i])
}

proof fn lemma_ranks_before_transitive(a: ScoredView, b: ScoredView, c: ScoredView)
    requires
        ranks_before(a, b),
        ranks_before(b, c),
    ensures
        ranks_before(a, c),
{
    if a.score == b.score && b.score == c.score {
        lemma_seq_lt_transitive(a.entry.rel_path, b.entry.rel_path, c.entry.rel_path);
    }
}

proof fn lemma_ranks_before_asymmetric(a: ScoredView, b: ScoredView)
    ensures
        !(ranks_before(a, b) && ranks_before(b, a)),
{
    lemma_seq_lt_asymmetric(a.entry.rel_path, b.entry.rel_path);
}

proof fn lemma_insert_ranked_sorted(s: Seq<ScoredView>, x: ScoredView)
    requires
        ranked(s),
    ensures
        ranked(insert_ranked(s, x)),
    decreases s.len(),
{
    let r = insert_ranked(s, x);
    if s.len() == 0 {
    } else if ranks_before(x, s[0]) {
        assert forall|i: int, j: int| 0 <= i < j < r.len() implies !ranks_before(#[trigger] r[j], #[trigger] r[i]) by {
            if i == 0 {
                assert(r[j] == s[j - 1]);
                if ranks_before(s[j - 1], x) {
                    if j - 1 > 0 {
                        lemma_ranks_before_transitive(s[j - 1], x, s[0]);
                    } else {
                        lemma_ranks_before_asymmetric(x, s[0]);
                    }
                }
            } else {
                assert(r[i] == s[i - 1] && r[j] == s[j - 1]);
            }
        }
    } else {
        let t = s.drop_first();
        assert(ranked(t)) by {
            assert forall|i: int, j: int| 0 <= i < j < t.len() implies !ranks_before(#[trigger] t[j], #[trigger] t[i]) by {
                assert(t[i] == s[i + 1] && t[j] == s[j + 1]);
            }
        }
        lemma_insert_ranked_sorted(t, x);
        let u = insert_ranked(t, x);
        lemma_insert_ranked_len(t, x);
        assert(r == seq![s[0]] + u);
        assert forall|i: int, j: int| 0 <= i < j < r.len() implies !ranks_before(#[trigger] r[j], #[trigger] r[i]) by {
            if i == 0 {
                assert(r[j] == u[j - 1]);
                // every element of u is x or an element of t
                lemma_insert_ranked_members(t, x, j - 1);
                if u[j - 1] == x {
                } else {
                    let m = choose|m: int| 0 <= m < t.len() && t[m] == u[j - 1];
                    assert(s[m + 1] == u[j - 1]);
                }
            } else {
                assert(r[i] == u[i - 1] && r[j] == u[j - 1]);
            }
        }
    }
}

proof fn lemma_insert_ranked_members(t: Seq<ScoredView>, x: ScoredView, k: int)
    requires
        0 <= k < t.len() + 1,
    ensures
        insert_ranked(t, x).len() == t.len() + 1,
        insert_ranked(t, x)[k] == x || exists|m: int| 0 <= m < t.len() && t[m] == insert_ranked(t, x)[k],
    decreases t.len(),
{
    lemma_insert_ranked_len(t, x);
    let u = insert_ranked(t, x);
    if t.len() == 0 {
    } else if ranks_before(x, t[0]) {
        if k > 0 {
            assert(u[k] == t[k - 1]);
        }
    } else {
        if k == 0 {
            assert(u[0] == t[0]);
        } else {
            lemma_insert_ranked_members(t.drop_first(), x, k - 1);
            assert(u[k] == insert_ranked(t.drop_first(), x)[k - 1]);
            if u[k] != x {
                let m = choose|m: int| 0 <= m < t.drop_first().len() && t.drop_first()[m] == u[k];
                assert(t[m + 1] == u[k]);
            }
        }
    }
}

proof fn lemma_rank_sorted(s: Seq<ScoredView>)
    ensures
        ranked(rank(s)),
    decreases s.len(),
{
    if s.len() > 0 {
        lemma_rank_sorted(s.drop_last());
        lemma_insert_ranked_sorted(rank(s.drop_last()), s.last());
    }
}

/// Search results come best first: no result ranks ahead of an earlier one
/// (higher scores first, equal scores by relative path).
pub proof fn search_results_are_ranked(
    entries: Seq<FileEntryView>,
    query: Seq<char>,
    current: Option<Seq<Seq<char>>>,
    max_results: nat,
)
    ensures
        ranked(search_result(entries, query, current, max_results)),
{
    let q = trim_ws(query);
    if q.len() > 0 {
        let candidates = scored_candidates(
            entries,
            lower_text(q),
            replace_char(q, '\\', '/'),
            q.contains('/') || q.contains('\\'),
            current,
        );
        lemma_rank_sorted(candidates);
        let r = rank(candidates);
        let out = first_n(r, max_results);
        assert forall|i: int, j: int| 0 <= i < j < out.len() implies !ranks_before(#[trigger] out[j], #[trigger] out[i]) by {
            assert(out[i] == r[i] && out[j] == r[j]);
        }
    }
}

/// A search returns at most `max_results` entries, and nothing for a blank
/// query.
pub proof fn search_results_are_capped(
    entries: Seq<FileEntryView>,
    query: Seq<char>,
    current: Option<Seq<Seq<char>>>,
    max_results: nat,
)
    ensures
        search_result(entries, query, current, max_results).len() <= max_results,
        trim_ws(query).len() == 0 ==> search_result(entries, query, current, max_results).len() == 0,
{
}

proof fn lemma_rank_members(s: Seq<ScoredView>, k: int)
    requires
        0 <= k < s.len(),
    ensures
        rank(s).len() == s.len(),
        exists|m: int| 0 <= m < s.len() && s[m] == rank(s)[k],
    decreases s.len(),
{
    lemma_rank_len(s);
    let prev = rank(s.drop_last());
    lemma_rank_len(s.drop_last());
    lemma_insert_ranked_members(prev, s.last(), k);
    if rank(s)[k] == s.last() {
        assert(s[s.len() - 1] == rank(s)[k]);
    } else {
        let m = choose|m: int| 0 <= m < prev.len() && prev[m] == rank(s)[k];
        lemma_rank_members(s.drop_last(), m);
        let m2 = choose|m2: int| 0 <= m2 < s.drop_last().len() && s.drop_last()[m2] == prev[m];
        assert(s[m2] == rank(s)[k]);
    }
}

proof fn lemma_candidates_from_entries(
    entries: Seq<FileEntryView>,
    query_lower: Seq<char>,
    normalized_query: Seq<char>,
    is_path_query: bool,
    current: Option<Seq<Seq<char>>>,
    k: int,
)
    requires
        0 <= k < scored_candidates(entries, query_lower, normalized_query, is_path_query, current).len(),
    ensures
        ({
            let c = scored_candidates(entries, query_lower, normalized_query, is_path_query, current)[k];
            &&& exists|j: int| 0 <= j < entries.len() && entries[j] == c.entry
            &&& entry_score(c.entry, query_lower, normalized_query, is_path_query, current) matches Some(v)
                && c.score == v as i64
        }),
    decreases entries.len(),
{
    let rest = scored_candidates(entries.drop_last(), query_lower, normalized_query, is_path_query, current);
    let c = scored_candidates(entries, query_lower, normalized_query, is_path_query, current)[k];
    if k < rest.len() {
        lemma_candidates_from_entries(entries.drop_last(), query_lower, normalized_query, is_path_query, current, k);
        let j = choose|j: int| 0 <= j < entries.drop_last().len() && entries.drop_last()[j] == rest[k].entry;
        assert(entries[j] == c.entry);
    } else {
        assert(entries[entries.len() - 1] == c.entry);
    }
}

/// Every search result is an entry of the index that the query matches.
pub proof fn search_results_come_from_the_index(
    entries: Seq<FileEntryView>,
    query: Seq<char>,
    current: Option<Seq<Seq<char>>>,
    max_results: nat,
    k: int,
)
    requires
        0 <= k < search_result(entries, query, current, max_results).len(),
    ensures
        exists|j: int|
            0 <= j < entries.len() && entries[j] == search_result(entries, query, current, max_results)[k].entry,
{
    let q = trim_ws(query);
    let ql = lower_text(q);
    let nq = replace_char(q, '\\', '/');
    let ipq = q.contains('/') || q.contains('\\');
    let candidates = scored_candidates(entries, ql, nq, ipq, current);
    let r = rank(candidates);
    lemma_rank_len(candidates);
    let out = search_result(entries, query, current, max_results);
    assert(out[k] == r[k]);
    lemma_rank_members(candidates, k);
    let m = choose|m: int| 0 <= m < candidates.len() && candidates[m] == r[k];
    lemma_candidates_from_entries(entries, ql, nq, ipq, current, m);
}

// ---------------------------------------------------------------------------
// Laws of the scores
// ---------------------------------------------------------------------------

/// Every score of an entry is positive and well within the `i64` range.
pub proof fn entry_scores_are_positive(
    e: FileEntryView,
    query_lower: Seq<char>,
    normalized_query: Seq<char>,
    is_path_query: bool,
    current: Option<Seq<Seq<char>>>,
)
    ensures
        entry_score(e, query_lower, normalized_query, is_path_query, current) matches Some(v)
            ==> 0 < v < 0x2_0000_0000,
{
    let file_lower = lower_text(e.file_name);
    let path_lower = lower_text(e.rel_path);
    let normalized_lower = lower_text(normalized_query);
    let f = fuzzy_score(file_lower, query_lower);
    let p = fuzzy_score(path_lower, query_lower);
    let pq = fuzzy_score(path_lower, normalized_lower);
    let base = name_bonus(file_lower, lower_text(e.stem), query_lower) + path_bonus(
        path_lower,
        normalized_lower,
    );
    assert(0 <= base <= 19_000);
    if let Some(v) = p {
        assert(div_toward_zero(v as int, 3) <= i32::MAX);
        assert(div_toward_zero(v as int, 2) <= i32::MAX);
    }
    let boost = match current {
        Some(c) => context_boost_for(e.root, e.rel_path, c),
        None => 0,
    };
    assert(boost <= 1_000);
}

/// An entry one directory level deeper, the same in all else, scores 10
/// less, and is left out when that leaves no positive score.
pub proof fn deeper_entries_score_ten_less(
    e: FileEntryView,
    query_lower: Seq<char>,
    normalized_query: Seq<char>,
    is_path_query: bool,
    current: Option<Seq<Seq<char>>>,
)
    requires
        e.depth < u16::MAX,
    ensures
        entry_score(
            FileEntryView {
                root: e.root,
                root_name: e.root_name,
                rel_path: e.rel_path,
                file_name: e.file_name,
                stem: e.stem,
                extension: e.extension,
                depth: (e.depth + 1) as u16,
                kind: e.kind,
            },
            query_lower,
            normalized_query,
            is_path_query,
            current,
        ) == match entry_score(e, query_lower, normalized_query, is_path_query, current) {
            Some(v) => if v > 10 {
                Some(v - 10)
            } else {
                None
            },
            None => None,
        },
{
}

/// Every search result has a positive score.
pub proof fn search_scores_are_positive(
    entries: Seq<FileEntryView>,
    query: Seq<char>,
    current: Option<Seq<Seq<char>>>,
    max_results: nat,
    k: int,
)
    requires
        0 <= k < search_result(entries, query, current, max_results).len(),
    ensures
        search_result(entries, query, current, max_results)[k].score > 0,
{
    let q = trim_ws(query);
    let ql = lower_text(q);
    let nq = replace_char(q, '\\', '/');
    let ipq = q.contains('/') || q.contains('\\');
    let candidates = scored_candidates(entries, ql, nq, ipq, current);
    let r = rank(candidates);
    lemma_rank_len(candidates);
    let out = search_result(entries, query, current, max_results);
    assert(out[k] == r[k]);
    lemma_rank_members(candidates, k);
    let m = choose|m: int| 0 <= m < candidates.len() && candidates[m] == r[k];
    lemma_candidates_from_entries(entries, ql, nq, ipq, current, m);
    let c = candidates[m];
    entry_scores_are_positive(c.entry, ql, nq, ipq, current);
}

// ---------------------------------------------------------------------------
// Case of the query
// ---------------------------------------------------------------------------

proof fn lemma_ascii_lower_char(c: char)
    ensures
        is_white_space(ascii_lower_char(c)) == is_white_space(c),
        (ascii_lower_char(c) == '/') == (c == '/'),
        (ascii_lower_char(c) == '\\') == (c == '\\'),
{
    if 'A' <= c && c <= 'Z' {
        let d = ascii_lower_char(c);
        assert(d as int == c as int + 32);
    }
}

proof fn lemma_trim_start_ascii_lower(s: Seq<char>)
    ensures
        trim_start_ws(ascii_lower(s)) == ascii_lower(trim_start_ws(s)),
    decreases s.len(),
{
    if s.len() > 0 {
        lemma_ascii_lower_char(s[0]);
        if is_white_space(s[0]) {
            assert(ascii_lower(s).drop_first() =~= ascii_lower(s.drop_first()));
            lemma_trim_start_ascii_lower(s.drop_first());
        }
    } else {
        assert(ascii_lower(s) =~= s);
    }
}

proof fn lemma_trim_end_ascii_lower(s: Seq<char>)
    ensures
        trim_end_ws(ascii_lower(s)) == ascii_lower(trim_end_ws(s)),
    decreases s.len(),
{
    if s.len() > 0 {
        lemma_ascii_lower_char(s.last());
        assert(ascii_lower(s).last() == ascii_lower_char(s.last()));
        if is_white_space(s.last()) {
            assert(ascii_lower(s).drop_last() =~= ascii_lower(s.drop_last()));
            lemma_trim_end_ascii_lower(s.drop_last());
        }
    } else {
        assert(ascii_lower(s) =~= s);
    }
}

proof fn lemma_contains_ascii_lower(s: Seq<char>, c: char)
    requires
        c == '/' || c == '\\',
    ensures
        ascii_lower(s).contains(c) == s.contains(c),
{
    if s.contains(c) {
        let i = choose|i: int| 0 <= i < s.len() && s[i] == c;
        lemma_ascii_lower_char(s[i]);
        assert(ascii_lower(s)[i] == c);
    }
    if ascii_lower(s).contains(c) {
        let i = choose|i: int| 0 <= i < ascii_lower(s).len() && ascii_lower(s)[i] == c;
        lemma_ascii_lower_char(s[i]);
        assert(s[i] == c);
    }
}

proof fn lemma_candidates_by_lowered_query(
    entries: Seq<FileEntryView>,
    query_lower: Seq<char>,
    n1: Seq<char>,
    n2: Seq<char>,
    is_path_query: bool,
    current: Option<Seq<Seq<char>>>,
)
    requires
        lower_text(n1) == lower_text(n2),
    ensures
        scored_candidates(entries, query_lower, n1, is_path_query, current) == scored_candidates(
            entries,
            query_lower,
            n2,
            is_path_query,
            current,
        ),
    decreases entries.len(),
{
    if entries.len() > 0 {
        lemma_candidates_by_lowered_query(entries.drop_last(), query_lower, n1, n2, is_path_query, current);
    }
}

/// Matching ignores case: queries that differ only in the case of ASCII
/// letters give the same results, with the same scores, in the same order.
pub proof fn search_ignores_ascii_case(
    entries: Seq<FileEntryView>,
    q1: Seq<char>,
    q2: Seq<char>,
    current: Option<Seq<Seq<char>>>,
    max_results: nat,
)
    requires
        ascii_lower(q1) == ascii_lower(q2),
    ensures
        search_result(entries, q1, current, max_results) == search_result(
            entries,
            q2,
            current,
            max_results,
        ),
{
    let t1 = trim_ws(q1);
    let t2 = trim_ws(q2);
    lemma_trim_start_ascii_lower(q1);
    lemma_trim_start_ascii_lower(q2);
    lemma_trim_end_ascii_lower(trim_start_ws(q1));
    lemma_trim_end_ascii_lower(trim_start_ws(q2));
    assert(ascii_lower(t1) == ascii_lower(t2));
    assert(t1.len() == ascii_lower(t1).len());
    assert(t2.len() == ascii_lower(t2).len());
    lemma_contains_ascii_lower(t1, '/');
    lemma_contains_ascii_lower(t2, '/');
    lemma_contains_ascii_lower(t1, '\\');
    lemma_contains_ascii_lower(t2, '\\');
    let n1 = replace_char(t1, '\\', '/');
    let n2 = replace_char(t2, '\\', '/');
    assert forall|j: int| 0 <= j < t1.len() implies #[trigger] ascii_lower(n1)[j] == replace_char(
        ascii_lower(t1),
        '\\',
        '/',
    )[j] by {
        lemma_ascii_lower_char(t1[j]);
    }
    assert forall|j: int| 0 <= j < t2.len() implies #[trigger] ascii_lower(n2)[j] == replace_char(
        ascii_lower(t2),
        '\\',
        '/',
    )[j] by {
        lemma_ascii_lower_char(t2[j]);
    }
    assert(ascii_lower(n1) =~= replace_char(ascii_lower(t1), '\\', '/'));
    assert(ascii_lower(n2) =~= replace_char(ascii_lower(t2), '\\', '/'));
    assert(lower_text(n1) == lower_text(n2));
    assert(lower_text(t1) == lower_text(t2));
    let ipq = t1.contains('/') || t1.contains('\\');
    lemma_candidates_by_lowered_query(entries, lower_text(t1), n1, n2, ipq, current);
}

// ---------------------------------------------------------------------------
// Laws of the path bonus
// ---------------------------------------------------------------------------

/// The path bonus: 9000 when the lowercased path is the normalized query,
/// 5500 when it starts with it without being it, nothing otherwise.
pub proof fn path_bonus_rewards_prefix_matches(path_lower: Seq<char>, normalized_lower: Seq<char>)
    ensures
        path_lower == normalized_lower ==> path_bonus(path_lower, normalized_lower) == 9_000,
        path_lower.len() > normalized_lower.len() && path_lower.take(normalized_lower.len() as int)
            == normalized_lower ==> path_bonus(path_lower, normalized_lower) == 5_500,
        !(path_lower.len() >= normalized_lower.len() && path_lower.take(normalized_lower.len() as int)
            == normalized_lower) ==> path_bonus(path_lower, normalized_lower) == 0,
{
    if path_lower.len() >= normalized_lower.len() {
        assert(path_lower.subrange(0, normalized_lower.len() as int) =~= path_lower.take(
            normalized_lower.len() as int,
        ));
    }
    if path_lower == normalized_lower {
        assert(path_lower.take(path_lower.len() as int) =~= path_lower);
    }
}

/// A path query whose lowercased, `/`-normalized form begins the entry's
/// lowercased path (without being all of it) earns the prefix bonus of 5500
/// on top of the 3500 for a path that contains the query: the score is the
/// name bonus plus 9000, plus the context boost, less 10 per directory level
/// and the test-file penalty, when that is positive.
pub proof fn path_prefix_query_score(
    e: FileEntryView,
    query_lower: Seq<char>,
    normalized_query: Seq<char>,
    current: Option<Seq<Seq<char>>>,
)
    requires
        lower_text(e.rel_path).len() > lower_text(normalized_query).len(),
        lower_text(e.rel_path).take(lower_text(normalized_query).len() as int) == lower_text(
            normalized_query,
        ),
    ensures
        ({
            let path_lower = lower_text(e.rel_path);
            let total = name_bonus(lower_text(e.file_name), lower_text(e.stem), query_lower) + 5_500
                + 3_500 + match current {
                Some(c) => context_boost_for(e.root, e.rel_path, c),
                None => 0,
            } - e.depth * 10 - test_penalty(path_lower);
            entry_score(e, query_lower, normalized_query, true, current) == if total > 0 {
                Some(total)
            } else {
                None::<int>
            }
        }),
{
    let path_lower = lower_text(e.rel_path);
    let nl = lower_text(normalized_query);
    path_bonus_rewards_prefix_matches(path_lower, nl);
    assert(path_lower.subrange(0, nl.len() as int) =~= path_lower.take(nl.len() as int));
    assert(occurs_at(path_lower, nl, 0));
    assert(contains_seq(path_lower, nl));
}

} // verus!

//! Server configuration: defaults and the merging of user-supplied partial
//! settings.
use vstd::prelude::*;

use crate::order::{chars_less, lemma_seq_lt_asymmetric, lemma_seq_lt_irreflexive, lemma_seq_lt_total, lemma_seq_lt_transitive, seq_lt};
use crate::text::chars_of;

verus! {

/// All behaviour options of the server.
#[derive(Debug, Clone, PartialEq, Eq)]
pub struct Config {
    pub index: IndexConfig,
    pub insert: InsertConfig,
    pub completion: CompletionConfig,
}

/// Options that steer the workspace index.
#[derive(Debug, Clone, PartialEq, Eq)]
pub struct IndexConfig {
    pub respect_gitignore: bool,
    pub respect_ignore_files: bool,
    pub include_hidden: bool,
    pub follow_symlinks: bool,
    pub watch_files: bool,
    pub max_files: usize,
    pub max_results: usize,
    pub refresh_ttl_seconds: u64,
    pub debounce_ms: u64,
    pub include_globs: Vec<String>,
    pub exclude: Vec<String>,
}

/// Options that steer the text a completion inserts.
#[derive(Debug, Clone, PartialEq, Eq)]
pub struct InsertConfig {
    pub keep_trigger: bool,
    pub path_style: PathStyle,
    pub quote_paths_with_spaces: bool,
}

/// How an inserted path is written.
#[derive(Debug, Clone, Copy, PartialEq, Eq, Structural)]
pub enum PathStyle {
    Relative,
}

/// Options that steer when a completion is offered.
#[derive(Debug, Clone, PartialEq, Eq)]
pub struct CompletionConfig {
    pub trigger: String,
    pub min_query_len: usize,
}

/// The built-in hygiene excludes.
pub open spec fn default_exclude_patterns() -> Seq<Seq<char>> {
    seq![
        "**/.git/**"@,
        "**/node_modules/**"@,
        "**/.venv/**"@,
        "**/venv/**"@,
        "**/dist/**"@,
        "**/build/**"@,
        "**/target/**"@,
        "**/.next/**"@,
        "**/coverage/**"@,
        "**/__pycache__/**"@,
        "**/.pytest_cache/**"@,
        "**/.mypy_cache/**"@,
        "**/.ruff_cache/**"@,
    ]
}

/// The built-in hygiene exclude globs, which every configuration keeps.
pub fn default_excludes() -> (r: Vec<String>)
    ensures
        r.deep_view() == default_exclude_patterns(),
{
    let mut v: Vec<String> = Vec::new();
    v.push(String::from_str("**/.git/**"));
    v.push(String::from_str("**/node_modules/**"));
    v.push(String::from_str("**/.venv/**"));
    v.push(String::from_str("**/venv/**"));
    v.push(String::from_str("**/dist/**"));
    v.push(String::from_str("**/build/**"));
    v.push(String::from_str("**/target/**"));
    v.push(String::from_str("**/.next/**"));
    v.push(String::from_str("**/coverage/**"));
    v.push(String::from_str("**/__pycache__/**"));
    v.push(String::from_str("**/.pytest_cache/**"));
    v.push(String::from_str("**/.mypy_cache/**"));
    v.push(String::from_str("**/.ruff_cache/**"));
    assert(v.deep_view() =~= default_exclude_patterns());
    v
}

impl IndexConfig {
    /// The documented index defaults.
    pub open spec fn is_default(&self) -> bool {
        &&& self.respect_gitignore
        &&& self.respect_ignore_files
        &&& !self.include_hidden
        &&& !self.follow_symlinks
        &&& self.watch_files
        &&& self.max_files == 100_000
        &&& self.max_results == 50
        &&& self.refresh_ttl_seconds == 60
        &&& self.debounce_ms == 700
        &&& self.include_globs.deep_view() == seq!["**/*"@]
        &&& self.exclude.deep_view() == default_exclude_patterns()
    }
}

impl Default for IndexConfig {
    fn default() -> (r: Self)
        ensures
            r.is_default(),
    {
        let mut include_globs: Vec<String> = Vec::new();
        include_globs.push(String::from_str("**/*"));
        assert(include_globs.deep_view() =~= seq!["**/*"@]);
        IndexConfig {
            respect_gitignore: true,
            respect_ignore_files: true,
            include_hidden: false,
            follow_symlinks: false,
            watch_files: true,
            max_files: 100_000,
            max_results: 50,
            refresh_ttl_seconds: 60,
            debounce_ms: 700,
            include_globs,
            exclude: default_excludes(),
        }
    }
}

impl InsertConfig {
    /// The documented insertion defaults.
    pub open spec fn is_default(&self) -> bool {
        &&& self.keep_trigger
        &&& self.path_style == PathStyle::Relative
        &&& !self.quote_paths_with_spaces
    }
}

impl Default for InsertConfig {
    fn default() -> (r: Self)
        ensures
            r.is_default(),
    {
        InsertConfig { keep_trigger: true, path_style: PathStyle::Relative, quote_paths_with_spaces: false }
    }
}

impl CompletionConfig {
    /// The documented completion defaults: trigger `@`, queries of at least one byte.
    pub open spec fn is_default(&self) -> bool {
        &&& self.trigger@ == "@"@
        &&& self.min_query_len == 1
    }
}

impl Default for CompletionConfig {
    fn default() -> (r: Self)
        ensures
            r.is_default(),
    {
        CompletionConfig { trigger: String::from_str("@"), min_query_len: 1 }
    }
}

impl Config {
    /// Every section holds its documented defaults.
    pub open spec fn is_default(&self) -> bool {
        &&& self.index.is_default()
        &&& self.insert.is_default()
        &&& self.completion.is_default()
    }
}

impl Default for Config {
    fn default() -> (r: Self)
        ensures
            r.is_default(),
    {
        Config {
            index: IndexConfig::default(),
            insert: InsertConfig::default(),
            completion: CompletionConfig::default(),
        }
    }
}

// ---------------------------------------------------------------------------
// Partial settings
// ---------------------------------------------------------------------------

/// User settings as read from the initialization options: every field may be
/// absent.
#[derive(Debug, Clone, PartialEq, Eq)]
pub struct PartialConfig {
    pub index: Option<PartialIndexConfig>,
    pub insert: Option<PartialInsertConfig>,
    pub completion: Option<PartialCompletionConfig>,
}

/// Index settings, each optional.
#[derive(Debug, Clone, PartialEq, Eq)]
pub struct PartialIndexConfig {
    pub respect_gitignore: Option<bool>,
    pub respect_ignore_files: Option<bool>,
    pub include_hidden: Option<bool>,
    pub follow_symlinks: Option<bool>,
    pub watch_files: Option<bool>,
    pub max_files: Option<usize>,
    pub max_results: Option<usize>,
    pub refresh_ttl_seconds: Option<u64>,
    pub debounce_ms: Option<u64>,
    pub include_globs: Option<Vec<String>>,
    pub exclude: Option<Vec<String>>,
}

/// Insertion settings, each optional.
#[derive(Debug, Clone, PartialEq, Eq)]
pub struct PartialInsertConfig {
    pub keep_trigger: Option<bool>,
    pub path_style: Option<PathStyle>,
    pub quote_paths_with_spaces: Option<bool>,
}

/// Completion settings, each optional.
#[derive(Debug, Clone, PartialEq, Eq)]
pub struct PartialCompletionConfig {
    pub trigger: Option<String>,
    pub min_query_len: Option<usize>,
}

/// `v` when given, `old` otherwise.
pub open spec fn overridden<T>(old: T, v: Option<T>) -> T {
    match v {
        Some(x) => x,
        None => old,
    }
}

/// `after` is `before` with the index settings `partial` applied: absent
/// settings keep their value, a given include list replaces the old one,
/// given excludes are added to the old ones (sorted, each pattern once).
pub open spec fn index_merged(before: IndexConfig, partial: PartialIndexConfig, after: IndexConfig) -> bool {
    &&& after.respect_gitignore == overridden(before.respect_gitignore, partial.respect_gitignore)
    &&& after.respect_ignore_files == overridden(before.respect_ignore_files, partial.respect_ignore_files)
    &&& after.include_hidden == overridden(before.include_hidden, partial.include_hidden)
    &&& after.follow_symlinks == overridden(before.follow_symlinks, partial.follow_symlinks)
    &&& after.watch_files == overridden(before.watch_files, partial.watch_files)
    &&& after.max_files == overridden(before.max_files, partial.max_files)
    &&& after.max_results == overridden(before.max_results, partial.max_results)
    &&& after.refresh_ttl_seconds == overridden(before.refresh_ttl_seconds, partial.refresh_ttl_seconds)
    &&& after.debounce_ms == overridden(before.debounce_ms, partial.debounce_ms)
    &&& after.include_globs.deep_view() == match partial.include_globs {
        Some(v) => v.deep_view(),
        None => before.include_globs.deep_view(),
    }
    &&& match partial.exclude {
        Some(v) => sorted_union(after.exclude.deep_view(), before.exclude.deep_view(), v.deep_view()),
        None => after.exclude.deep_view() == before.exclude.deep_view(),
    }
}

/// `after` is `before` with the insertion settings `partial` applied.
pub open spec fn insert_merged(before: InsertConfig, partial: PartialInsertConfig, after: InsertConfig) -> bool {
    &&& after.keep_trigger == overridden(before.keep_trigger, partial.keep_trigger)
    &&& after.path_style == overridden(before.path_style, partial.path_style)
    &&& after.quote_paths_with_spaces == overridden(before.quote_paths_with_spaces, partial.quote_paths_with_spaces)
}

/// `after` is `before` with the completion settings `partial` applied.
pub open spec fn completion_merged(before: CompletionConfig, partial: PartialCompletionConfig, after: CompletionConfig) -> bool {
    &&& after.trigger@ == match partial.trigger {
        Some(t) => t@,
        None => before.trigger@,
    }
    &&& after.min_query_len == overridden(before.min_query_len, partial.min_query_len)
}

/// `after` is `before` with every given section of `partial` merged in and
/// the other sections unchanged.
pub open spec fn config_merged(before: Config, partial: PartialConfig, after: Config) -> bool {
    &&& match partial.index {
        Some(i) => index_merged(before.index, i, after.index),
        None => after.index == before.index,
    }
    &&& match partial.insert {
        Some(i) => insert_merged(before.insert, i, after.insert),
        None => after.insert == before.insert,
    }
    &&& match partial.completion {
        Some(c) => completion_merged(before.completion, c, after.completion),
        None => after.completion == before.completion,
    }
}

/// `v` when given, `old` otherwise.
fn pick<T>(old: T, v: Option<T>) -> (r: T)
    ensures
        r == overridden(old, v),
{
    match v {
        Some(x) => x,
        None => old,
    }
}

/// `s` is strictly increasing: sorted, with no element twice.
pub open spec fn strictly_sorted(s: Seq<Seq<char>>) -> bool {
    forall|i: int, j: int| 0 <= i < j < s.len() ==> seq_lt(#[trigger] s[i], #[trigger] s[j])
}

/// `r` lists, in increasing order and once each, the patterns found in `a`
/// or `b` (what appending, sorting and removing duplicates produces).
pub open spec fn sorted_union(r: Seq<Seq<char>>, a: Seq<Seq<char>>, b: Seq<Seq<char>>) -> bool {
    &&& strictly_sorted(r)
    &&& forall|p: Seq<char>| r.contains(p) <==> (a.contains(p) || b.contains(p))
}

fn strings_equal(a: &String, b: &String) -> (r: bool)
    ensures
        r == (a@ == b@),
{
    *a == *b
}

/// Adds `p` to the strictly increasing `v`, where it belongs, unless present.
fn insert_sorted_distinct(v: &mut Vec<String>, p: String)
    requires
        strictly_sorted(old(v).deep_view()),
    ensures
        strictly_sorted(final(v).deep_view()),
        forall|q: Seq<char>| final(v).deep_view().contains(q) <==> (old(v).deep_view().contains(q) || q == p@),
{
    let ghost s = v.deep_view();
    let pc = chars_of(p.as_str());
    let mut k: usize = 0;
    while k < v.len() && chars_less(&chars_of(v[k].as_str()), &pc)
        invariant
            k <= v@.len(),
            s == v.deep_view(),
            pc@ == p@,
            forall|j: int| 0 <= j < k ==> seq_lt(#[trigger] s[j], p@),
        decreases v@.len() - k,
    {
        assert(s[k as int] == v@[k as int]@);
        k += 1;
    }
    if k < v.len() {
        assert(s[k as int] == v@[k as int]@);
        if strings_equal(&v[k], &p) {
            assert(s.contains(p@));
            return;
        }
        proof {
            lemma_seq_lt_total(s[k as int], p@);
        }
    }
    let ghost pv = p@;
    v.insert(k, p);
    assert(v.deep_view() =~= s.insert(k as int, pv));
    proof {
        let t = v.deep_view();
        assert forall|i: int, j: int| 0 <= i < j < t.len() implies seq_lt(#[trigger] t[i], #[trigger] t[j]) by {
            if j < k {
            } else if j == k {
                assert(t[i] == s[i]);
            } else if i == k {
                assert(t[j] == s[j - 1]);
                if j - 1 > k {
                    lemma_seq_lt_transitive(pv, s[k as int], s[j - 1]);
                }
            } else if i < k {
                assert(t[i] == s[i] && t[j] == s[j - 1]);
            } else {
                assert(t[i] == s[i - 1] && t[j] == s[j - 1]);
            }
        }
        assert forall|q: Seq<char>| t.contains(q) <==> (s.contains(q) || q == pv) by {
            if t.contains(q) {
                let i = choose|i: int| 0 <= i < t.len() && t[i] == q;
                if i < k {
                    assert(s[i] == q);
                } else if i > k {
                    assert(s[i - 1] == q);
                }
            }
            if s.contains(q) {
                let i = choose|i: int| 0 <= i < s.len() && s[i] == q;
                if i < k {
                    assert(t[i] == q);
                } else {
                    assert(t[i + 1] == q);
                }
            }
            if q == pv {
                assert(t[k as int] == q);
            }
        }
    }
}

/// The patterns of `a` and `b`, sorted, each once.
pub fn merge_patterns(a: Vec<String>, b: Vec<String>) -> (r: Vec<String>)
    ensures
        sorted_union(r.deep_view(), a.deep_view(), b.deep_view()),
{
    let mut all = a;
    let ghost av = all.deep_view();
    let ghost bv = b.deep_view();
    let mut more = b;
    all.append(&mut more);
    assert(all.deep_view() =~= av + bv);
    let ghost allv = all.deep_view();
    let mut out: Vec<String> = Vec::new();
    let mut i: usize = 0;
    while i < all.len()
        invariant
            i <= all@.len(),
            allv == all.deep_view(),
            allv == av + bv,
            strictly_sorted(out.deep_view()),
            forall|q: Seq<char>| out.deep_view().contains(q) <==> allv.take(i as int).contains(q),
        decreases all@.len() - i,
    {
        let p = all[i].clone();
        proof {
            let t1 = allv.take(i + 1);
            let t0 = allv.take(i as int);
            assert forall|q: Seq<char>| t1.contains(q) <==> (t0.contains(q) || q == allv[i as int]) by {
                if t1.contains(q) {
                    let j = choose|j: int| 0 <= j < t1.len() && t1[j] == q;
                    if j < i {
                        assert(t0[j] == q);
                    }
                }
                if t0.contains(q) {
                    let j = choose|j: int| 0 <= j < t0.len() && t0[j] == q;
                    assert(t1[j] == q);
                }
                if q == allv[i as int] {
                    assert(t1[i as int] == q);
                }
            }
        }
        insert_sorted_distinct(&mut out, p);
        i += 1;
    }
    assert(allv.take(all@.len() as int) =~= allv);
    proof {
        assert forall|q: Seq<char>| out.deep_view().contains(q) <==> (av.contains(q) || bv.contains(q)) by {
            if allv.contains(q) {
                let j = choose|j: int| 0 <= j < allv.len() && allv[j] == q;
                if j < av.len() {
                    assert(av[j] == q);
                } else {
                    assert(bv[j - av.len()] == q);
                }
            }
            if av.contains(q) {
                let j = choose|j: int| 0 <= j < av.len() && av[j] == q;
                assert(allv[j] == q);
            }
            if bv.contains(q) {
                let j = choose|j: int| 0 <= j < bv.len() && bv[j] == q;
                assert(allv[j + av.len()] == q);
            }
        }
    }
    out
}

impl IndexConfig {
    /// Applies the given index settings. Absent settings keep their value; a
    /// given include list replaces the old one; given excludes are added to
    /// the old ones, and the result is sorted and holds each pattern once.
    pub fn merge(&mut self, partial: PartialIndexConfig)
        ensures
            index_merged(*old(self), partial, *final(self)),
            forall|p: Seq<char>| old(self).exclude.deep_view().contains(p) ==> final(self).exclude.deep_view().contains(p),
    {
        self.respect_gitignore = pick(self.respect_gitignore, partial.respect_gitignore);
        self.respect_ignore_files = pick(self.respect_ignore_files, partial.respect_ignore_files);
        self.include_hidden = pick(self.include_hidden, partial.include_hidden);
        self.follow_symlinks = pick(self.follow_symlinks, partial.follow_symlinks);
        self.watch_files = pick(self.watch_files, partial.watch_files);
        self.max_files = pick(self.max_files, partial.max_files);
        self.max_results = pick(self.max_results, partial.max_results);
        self.refresh_ttl_seconds = pick(self.refresh_ttl_seconds, partial.refresh_ttl_seconds);
        self.debounce_ms = pick(self.debounce_ms, partial.debounce_ms);
        if let Some(globs) = partial.include_globs {
            self.include_globs = globs;
        }
        add_excludes(&mut self.exclude, partial.exclude);
    }
}

/// Adds `extra` (when given) to the excludes, sorted, each pattern once.
fn add_excludes(exclude: &mut Vec<String>, extra: Option<Vec<String>>)
    ensures
        match extra {
            Some(v) => sorted_union(final(exclude).deep_view(), old(exclude).deep_view(), v.deep_view()),
            None => final(exclude).deep_view() == old(exclude).deep_view(),
        },
        forall|p: Seq<char>| old(exclude).deep_view().contains(p) ==> final(exclude).deep_view().contains(p),
{
    if let Some(extra) = extra {
        let mut current: Vec<String> = Vec::new();
        std::mem::swap(&mut current, exclude);
        *exclude = merge_patterns(current, extra);
    }
}

impl InsertConfig {
    /// Applies the given insertion settings; absent ones keep their value.
    pub fn merge(&mut self, partial: PartialInsertConfig)
        ensures
            insert_merged(*old(self), partial, *final(self)),
    {
        if let Some(value) = partial.keep_trigger {
            self.keep_trigger = value;
        }
        if let Some(value) = partial.path_style {
            self.path_style = value;
        }
        if let Some(value) = partial.quote_paths_with_spaces {
            self.quote_paths_with_spaces = value;
        }
    }
}

impl CompletionConfig {
    /// Applies the given completion settings; absent ones keep their value.
    pub fn merge(&mut self, partial: PartialCompletionConfig)
        ensures
            completion_merged(*old(self), partial, *final(self)),
    {
        if let Some(value) = partial.trigger {
            self.trigger = value;
        }
        if let Some(value) = partial.min_query_len {
            self.min_query_len = value;
        }
    }
}

impl Config {
    /// Applies user settings that were read successfully (`None` when the
    /// options could not be read, which changes nothing): each given section
    /// is merged into the current one.
    pub fn merge_value(&mut self, partial: Option<PartialConfig>)
        ensures
            match partial {
                None => *final(self) == *old(self),
                Some(p) => config_merged(*old(self), p, *final(self)),
            },
            forall|q: Seq<char>| old(self).index.exclude.deep_view().contains(q) ==> final(self).index.exclude.deep_view().contains(q),
    {
        if let Some(partial) = partial {
            if let Some(index) = partial.index {
                self.index.merge(index);
            }
            if let Some(insert) = partial.insert {
                self.insert.merge(insert);
            }
            if let Some(completion) = partial.completion {
                self.completion.merge(completion);
            }
        }
    }

    /// The defaults with the user settings applied (see [`Config::merge_value`]).
    /// The built-in excludes are always kept.
    pub fn from_initialization_options(partial: Option<PartialConfig>) -> (r: Self)
        ensures
            match partial {
                None => r.is_default(),
                Some(p) => exists|d: Config| d.is_default() && config_merged(d, p, r),
            },
            forall|q: Seq<char>| default_exclude_patterns().contains(q) ==> r.index.exclude.deep_view().contains(q),
    {
        let mut config = Config::default();
        config.merge_value(partial);
        config
    }
}

// ---------------------------------------------------------------------------
// Laws of merging
// ---------------------------------------------------------------------------

proof fn lemma_sorted_same_elements_equal(a: Seq<Seq<char>>, b: Seq<Seq<char>>)
    requires
        strictly_sorted(a),
        strictly_sorted(b),
        forall|p: Seq<char>| a.contains(p) <==> b.contains(p),
    ensures
        a == b,
    decreases a.len(),
{
    if a.len() == 0 {
        if b.len() > 0 {
            assert(b.contains(b[0]));
        }
        assert(a =~= b);
    } else {
        assert(a.contains(a[0]));
        let m = choose|m: int| 0 <= m < b.len() && b[m] == a[0];
        assert(b.contains(b[0]));
        let n = choose|n: int| 0 <= n < a.len() && a[n] == b[0];
        if m > 0 {
            assert(seq_lt(b[0], b[m]));
            if n > 0 {
                assert(seq_lt(a[0], a[n]));
                lemma_seq_lt_asymmetric(a[0], b[0]);
            } else {
                lemma_seq_lt_irreflexive(b[0]);
            }
        }
        assert(a[0] == b[0]);
        let ta = a.drop_first();
        let tb = b.drop_first();
        assert forall|p: Seq<char>| ta.contains(p) <==> tb.contains(p) by {
            if ta.contains(p) {
                let i = choose|i: int| 0 <= i < ta.len() && ta[i] == p;
                assert(a[i + 1] == p);
                assert(seq_lt(a[0], a[i + 1]));
                lemma_seq_lt_irreflexive(p);
                assert(a.contains(p));
                let j = choose|j: int| 0 <= j < b.len() && b[j] == p;
                assert(j != 0);
                assert(tb[j - 1] == p);
            }
            if tb.contains(p) {
                let i = choose|i: int| 0 <= i < tb.len() && tb[i] == p;
                assert(b[i + 1] == p);
                assert(seq_lt(b[0], b[i + 1]));
                lemma_seq_lt_irreflexive(p);
                assert(b.contains(p));
                let j = choose|j: int| 0 <= j < a.len() && a[j] == p;
                assert(j != 0);
                assert(ta[j - 1] == p);
            }
        }
        assert(strictly_sorted(ta)) by {
            assert forall|i: int, j: int| 0 <= i < j < ta.len() implies seq_lt(#[trigger] ta[i], #[trigger] ta[j]) by {
                assert(ta[i] == a[i + 1] && ta[j] == a[j + 1]);
            }
        }
        assert(strictly_sorted(tb)) by {
            assert forall|i: int, j: int| 0 <= i < j < tb.len() implies seq_lt(#[trigger] tb[i], #[trigger] tb[j]) by {
                assert(tb[i] == b[i + 1] && tb[j] == b[j + 1]);
            }
        }
        lemma_sorted_same_elements_equal(ta, tb);
        assert(a =~= seq![a[0]] + ta);
        assert(b =~= seq![b[0]] + tb);
    }
}

/// Merging excludes has one possible outcome: the sorted, duplicate-free
/// union of the old and the added patterns is unique.
pub proof fn exclude_merge_is_determined(r1: Seq<Seq<char>>, r2: Seq<Seq<char>>, old: Seq<Seq<char>>, added: Seq<Seq<char>>)
    requires
        sorted_union(r1, old, added),
        sorted_union(r2, old, added),
    ensures
        r1 == r2,
{
    lemma_sorted_same_elements_equal(r1, r2);
}

/// Adding the same exclude patterns a second time changes nothing.
pub proof fn exclude_merge_is_idempotent(
    before: Seq<Seq<char>>,
    added: Seq<Seq<char>>,
    once: Seq<Seq<char>>,
    twice: Seq<Seq<char>>,
)
    requires
        sorted_union(once, before, added),
        sorted_union(twice, once, added),
    ensures
        twice == once,
{
    lemma_sorted_same_elements_equal(twice, once);
}

/// Merging user index settings: every scalar setting the user gives takes
/// the given value, every one left out keeps its old value, a given include
/// list replaces the old one, and the old excludes stay.
pub proof fn user_index_settings_win(before: IndexConfig, partial: PartialIndexConfig, after: IndexConfig)
    requires
        index_merged(before, partial, after),
    ensures
        after.respect_gitignore == match partial.respect_gitignore {
            Some(v) => v,
            None => before.respect_gitignore,
        },
        after.respect_ignore_files == match partial.respect_ignore_files {
            Some(v) => v,
            None => before.respect_ignore_files,
        },
        after.include_hidden == match partial.include_hidden {
            Some(v) => v,
            None => before.include_hidden,
        },
        after.follow_symlinks == match partial.follow_symlinks {
            Some(v) => v,
            None => before.follow_symlinks,
        },
        after.watch_files == match partial.watch_files {
            Some(v) => v,
            None => before.watch_files,
        },
        after.max_files == match partial.max_files {
            Some(v) => v,
            None => before.max_files,
        },
        after.max_results == match partial.max_results {
            Some(v) => v,
            None => before.max_results,
        },
        after.refresh_ttl_seconds == match partial.refresh_ttl_seconds {
            Some(v) => v,
            None => before.refresh_ttl_seconds,
        },
        after.debounce_ms == match partial.debounce_ms {
            Some(v) => v,
            None => before.debounce_ms,
        },
        partial.include_globs matches Some(v) ==> after.include_globs.deep_view() == v.deep_view(),
        partial.include_globs is None ==> after.include_globs.deep_view() == before.include_globs.deep_view(),
        forall|p: Seq<char>| #[trigger] before.exclude.deep_view().contains(p) ==> after.exclude.deep_view().contains(p),
        partial.exclude matches Some(v) ==> forall|p: Seq<char>| #[trigger] v.deep_view().contains(p) ==> after.exclude.deep_view().contains(p),
{
    if let Some(v) = partial.exclude {
        assert(sorted_union(after.exclude.deep_view(), before.exclude.deep_view(), v.deep_view()));
    }
}

/// Merging user insertion and completion settings: every setting given
/// takes the given value, every one left out keeps its old value.
pub proof fn user_insert_and_completion_settings_win(
    before_insert: InsertConfig,
    partial_insert: PartialInsertConfig,
    after_insert: InsertConfig,
    before_completion: CompletionConfig,
    partial_completion: PartialCompletionConfig,
    after_completion: CompletionConfig,
)
    requires
        insert_merged(before_insert, partial_insert, after_insert),
        completion_merged(before_completion, partial_completion, after_completion),
    ensures
        after_insert.keep_trigger == match partial_insert.keep_trigger {
            Some(v) => v,
            None => before_insert.keep_trigger,
        },
        after_insert.path_style == match partial_insert.path_style {
            Some(v) => v,
            None => before_insert.path_style,
        },
        after_insert.quote_paths_with_spaces == match partial_insert.quote_paths_with_spaces {
            Some(v) => v,
            None => before_insert.quote_paths_with_spaces,
        },
        partial_completion.trigger matches Some(t) ==> after_completion.trigger@ == t@,
        partial_completion.trigger is None ==> after_completion.trigger@ == before_completion.trigger@,
        after_completion.min_query_len == match partial_completion.min_query_len {
            Some(v) => v,
            None => before_completion.min_query_len,
        },
{
}

} // verus!

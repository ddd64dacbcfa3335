//! Deciding, entry by entry, what a workspace scan puts in the index.
//!
//! The directory walk itself is I/O and stays with the caller, which hands
//! each walked entry to [`IndexScan::visit`] and stops when told to.
use vstd::prelude::*;

use globset::{Glob, GlobSet, GlobSetBuilder};

use crate::config::default_exclude_patterns;
use crate::index::{EntryKind, FileEntry, FileEntryView};
use crate::paths::{join_slash, join_with_slash};
use crate::text::{chars_of, ends_with, ends_with_exec, starts_with, starts_with_exec, string_from_range, sub_chars, string_from_chars};

verus! {

#[verifier::external_type_specification]
#[verifier::external_body]
pub struct ExGlob(Glob);

#[verifier::external_type_specification]
#[verifier::external_body]
pub struct ExGlobSet(GlobSet);

#[verifier::external_type_specification]
#[verifier::external_body]
pub struct ExGlobSetBuilder(GlobSetBuilder);

#[verifier::external_type_specification]
#[verifier::external_body]
pub struct ExGlobError(globset::Error);

/// The pattern text a `Glob` was built from (what `Glob::glob` returns).
pub uninterp spec fn glob_source(g: Glob) -> Seq<char>;

/// The pattern texts of the globs added to a `GlobSetBuilder`, in order.
pub uninterp spec fn builder_sources(b: GlobSetBuilder) -> Seq<Seq<char>>;

/// The pattern texts of the globs a `GlobSet` was built from, in order.
pub uninterp spec fn set_sources(s: GlobSet) -> Seq<Seq<char>>;

/// Whether the glob `pattern`, built with default options, matches `path`.
/// How globset reads backslash escapes and normalises path separators
/// differs between platforms (Unix and Windows); on any one build the answer
/// is fixed by the two texts.
pub uninterp spec fn glob_matches(pattern: Seq<char>, path: Seq<char>) -> bool;

/// Whether `Glob::new` accepts `pattern` (it rejects, among others, unclosed
/// classes or alternations, invalid ranges and dangling escapes). Whether a
/// backslash escapes depends on the platform globset was built for; on any
/// one build the answer is fixed by the text.
pub uninterp spec fn glob_parses(pattern: Seq<char>) -> bool;

/// Whether `GlobSet::new` succeeds on the globs built by `Glob::new` from
/// `sources`, in order (it fails when a regex the set needs cannot be built).
pub uninterp spec fn set_builds(sources: Seq<Seq<char>>) -> bool;

/// Whether every one of `patterns` is a valid glob and the set made of them
/// builds.
pub open spec fn globs_compile(patterns: Seq<Seq<char>>) -> bool {
    &&& forall|i: int| 0 <= i < patterns.len() ==> #[trigger] glob_parses(patterns[i])
    &&& set_builds(patterns)
}

/// Whether any of `patterns` matches `path`.
pub open spec fn any_glob_matches(patterns: Seq<Seq<char>>, path: Seq<char>) -> bool {
    exists|i: int| 0 <= i < patterns.len() && glob_matches(patterns[i], path)
}

/// `Glob::new`: compiles `pattern` with default options. It succeeds exactly
/// when the pattern parses, a property of the text alone, and the glob then
/// keeps `pattern` as its source text.
#[verifier::external_body]
fn new_glob(pattern: &str) -> (r: Result<Glob, globset::Error>)
    ensures
        r is Ok <==> glob_parses(pattern@),
        r matches Ok(g) ==> glob_source(g) == pattern@,
{
    Glob::new(pattern)
}

/// `GlobSetBuilder::new`: a builder holding no globs.
#[verifier::external_body]
fn new_glob_set_builder() -> (b: GlobSetBuilder)
    ensures
        builder_sources(b) == Seq::<Seq<char>>::empty(),
{
    GlobSetBuilder::new()
}

/// `GlobSetBuilder::add`: appends `g` to the builder's globs.
#[verifier::external_body]
fn glob_set_builder_add(b: &mut GlobSetBuilder, g: Glob)
    ensures
        builder_sources(*final(b)) == builder_sources(*old(b)).push(glob_source(g)),
{
    b.add(g);
}

/// `GlobSetBuilder::build` (`GlobSet::new` on the builder's globs): on
/// success, a set made of the builder's globs. Whether it succeeds depends on
/// those globs alone; every glob this crate adds is built by `Glob::new`, so
/// it is named by their source texts. A builder with no globs always builds.
#[verifier::external_body]
fn glob_set_build(b: &GlobSetBuilder) -> (r: Result<GlobSet, globset::Error>)
    ensures
        r is Ok <==> set_builds(builder_sources(*b)),
        builder_sources(*b).len() == 0 ==> r is Ok,
        r matches Ok(s) ==> set_sources(s) == builder_sources(*b),
{
    b.build()
}

/// `GlobSet::is_match`: whether any glob of the set matches `path`.
#[verifier::external_body]
fn glob_set_is_match(s: &GlobSet, path: &str) -> (r: bool)
    ensures
        r == (exists|i: int|
            0 <= i < set_sources(*s).len() && glob_matches(set_sources(*s)[i], path@)),
{
    s.is_match(path)
}

/// A set of globs compiled from `patterns`, in order. It is built exactly
/// when every pattern is a valid glob and the set builds; with no patterns
/// it always is.
pub fn build_globset(patterns: &Vec<String>) -> (r: Result<GlobSet, globset::Error>)
    ensures
        r is Ok <==> globs_compile(patterns.deep_view()),
        patterns@.len() == 0 ==> r is Ok,
        r matches Ok(s) ==> set_sources(s) == patterns.deep_view(),
{
    let mut builder = new_glob_set_builder();
    let mut i: usize = 0;
    while i < patterns.len()
        invariant
            i <= patterns@.len(),
            builder_sources(builder) == patterns.deep_view().take(i as int),
            forall|j: int| 0 <= j < i ==> #[trigger] glob_parses(patterns.deep_view()[j]),
        decreases patterns@.len() - i,
    {
        assert(patterns.deep_view()[i as int] == patterns[i as int]@);
        let glob = match new_glob(patterns[i].as_str()) {
            Ok(g) => g,
            Err(e) => {
                assert(!glob_parses(patterns.deep_view()[i as int]));
                return Err(e);
            },
        };
        glob_set_builder_add(&mut builder, glob);
        assert(patterns.deep_view().take(i + 1) =~= patterns.deep_view().take(i as int).push(
            patterns[i as int]@,
        ));
        i += 1;
    }
    assert(patterns.deep_view().take(patterns@.len() as int) =~= patterns.deep_view());
    glob_set_build(&builder)
}

/// `/**`
pub open spec fn dir_suffix() -> Seq<char> {
    seq!['/', '*', '*']
}

/// `**/`
pub open spec fn any_dir_prefix() -> Seq<char> {
    seq!['*', '*', '/']
}

/// The globs an exclude pattern stands for: the pattern; for `dir/**` also
/// `dir`, so that the directory itself is excluded; and for `**/dir/**` also
/// `dir`, so that it is excluded at the root.
pub open spec fn exclude_expansion(p: Seq<char>) -> Seq<Seq<char>> {
    if ends_with(p, dir_suffix()) {
        let d = p.take(p.len() - 3);
        if starts_with(d, any_dir_prefix()) {
            seq![p, d, d.skip(3)]
        } else {
            seq![p, d]
        }
    } else {
        seq![p]
    }
}

/// The expansions of all exclude patterns, in order.
pub open spec fn exclude_globs(ps: Seq<Seq<char>>) -> Seq<Seq<char>>
    decreases ps.len(),
{
    if ps.len() == 0 {
        Seq::empty()
    } else {
        exclude_globs(ps.drop_last()) + exclude_expansion(ps.last())
    }
}

fn slash_star_star() -> (r: Vec<char>)
    ensures
        r@ == dir_suffix(),
{
    let mut v: Vec<char> = Vec::new();
    v.push('/');
    v.push('*');
    v.push('*');
    assert(v@ =~= dir_suffix());
    v
}

fn star_star_slash() -> (r: Vec<char>)
    ensures
        r@ == any_dir_prefix(),
{
    let mut v: Vec<char> = Vec::new();
    v.push('*');
    v.push('*');
    v.push('/');
    assert(v@ =~= any_dir_prefix());
    v
}

/// The patterns that one exclude pattern expands to.
pub fn expand_exclude(pattern: &str) -> (r: Vec<String>)
    ensures
        r.deep_view() == exclude_expansion(pattern@),
{
    let cs = chars_of(pattern);
    let mut out: Vec<String> = Vec::new();
    out.push(string_from_chars(&cs));
    if ends_with_exec(&cs, &slash_star_star()) {
        let d = sub_chars(&cs, 0, cs.len() - 3);
        assert(d@ == cs@.take(cs@.len() - 3));
        out.push(string_from_chars(&d));
        if starts_with_exec(&d, &star_star_slash()) {
            out.push(string_from_range(&d, 3, d.len()));
            assert(d@.subrange(3, d@.len() as int) == d@.skip(3));
        }
    }
    assert(out.deep_view() =~= exclude_expansion(pattern@));
    out
}

/// The exclude patterns with their expansions, in order.
pub fn exclude_patterns(patterns: &Vec<String>) -> (r: Vec<String>)
    ensures
        r.deep_view() == exclude_globs(patterns.deep_view()),
{
    let mut out: Vec<String> = Vec::new();
    let mut i: usize = 0;
    assert(patterns.deep_view().take(0) =~= Seq::<Seq<char>>::empty());
    while i < patterns.len()
        invariant
            i <= patterns@.len(),
            out.deep_view() == exclude_globs(patterns.deep_view().take(i as int)),
        decreases patterns@.len() - i,
    {
        let mut more = expand_exclude(patterns[i].as_str());
        let ghost before = out.deep_view();
        let ghost added = more.deep_view();
        out.append(&mut more);
        assert(out.deep_view() =~= before + added);
        assert(patterns.deep_view().take(i + 1).drop_last() =~= patterns.deep_view().take(
            i as int,
        ));
        i += 1;
    }
    assert(patterns.deep_view().take(patterns@.len() as int) =~= patterns.deep_view());
    out
}

/// A set of exclude globs: every pattern together with its expansions. It is
/// built exactly when all of those globs are valid and the set builds.
pub fn build_exclude_globset(patterns: &Vec<String>) -> (r: Result<GlobSet, globset::Error>)
    ensures
        r is Ok <==> globs_compile(exclude_globs(patterns.deep_view())),
        r matches Ok(s) ==> set_sources(s) == exclude_globs(patterns.deep_view()),
{
    let expanded = exclude_patterns(patterns);
    build_globset(&expanded)
}

/// Whether the walk should descend into / report an entry: always for the
/// root itself and for paths outside the root (`rel` is `None`), otherwise
/// unless an exclude glob matches the relative path.
pub fn keep_entry(rel: Option<&Vec<String>>, exclude: &GlobSet) -> (r: bool)
    ensures
        r == match rel {
            None => true,
            Some(parts) => parts@.len() == 0 || !any_glob_matches(
                set_sources(*exclude),
                join_slash(parts.deep_view()),
            ),
        },
{
    match rel {
        None => true,
        Some(parts) => {
            if parts.len() == 0 {
                return true;
            }
            let path = join_with_slash(parts);
            !glob_set_is_match(exclude, path.as_str())
        },
    }
}

/// Whether an entry is left out of the index: excluded entries always, files
/// also when no include glob matches them. Directories ignore include globs.
pub open spec fn skipped(rel_path: Seq<char>, kind: EntryKind, included: GlobSet, exclude: GlobSet) -> bool {
    any_glob_matches(set_sources(exclude), rel_path) || (kind == EntryKind::File
        && !any_glob_matches(set_sources(included), rel_path))
}

/// Whether an entry is left out of the index (see [`skipped`]).
pub fn should_skip(rel_path: &str, kind: EntryKind, included: &GlobSet, exclude: &GlobSet) -> (r: bool)
    ensures
        r == skipped(rel_path@, kind, *included, *exclude),
{
    if glob_set_is_match(exclude, rel_path) {
        return true;
    }
    kind == EntryKind::File && !glob_set_is_match(included, rel_path)
}

// ---------------------------------------------------------------------------
// Entries
// ---------------------------------------------------------------------------

/// A component that names something (not the root, `.` or `..`).
pub open spec fn is_named_component(c: Seq<char>) -> bool {
    c != seq!['/'] && c != seq!['.'] && c != seq!['.', '.']
}

/// `i` is the index of the last `'.'` in `name`.
pub open spec fn is_last_dot(name: Seq<char>, i: int) -> bool {
    &&& 0 <= i < name.len()
    &&& name[i] == '.'
    &&& forall|j: int| i < j < name.len() ==> name[j] != '.'
}

/// A file name split at its last dot, as `Path::file_stem` and
/// `Path::extension` split it: no split for `..`, for names without a dot, or
/// when the only dot leads the name.
pub open spec fn split_extension(name: Seq<char>) -> (Seq<char>, Option<Seq<char>>) {
    if name == seq!['.', '.'] || !(exists|i: int| is_last_dot(name, i)) {
        (name, None)
    } else {
        let i = choose|i: int| is_last_dot(name, i);
        if i == 0 {
            (name, None)
        } else {
            (name.take(i), Some(name.skip(i + 1)))
        }
    }
}

/// The index entry for the path with components `rel` under `root`: named by
/// its last component, which must name something.
pub open spec fn entry_for(
    root: Seq<Seq<char>>,
    root_name: Seq<char>,
    rel: Seq<Seq<char>>,
    kind: EntryKind,
) -> Option<FileEntryView> {
    if rel.len() == 0 || !is_named_component(rel.last()) {
        None
    } else {
        let name = rel.last();
        let split = split_extension(name);
        Some(
            FileEntryView {
                root,
                root_name,
                rel_path: join_slash(rel),
                file_name: name,
                stem: if kind == EntryKind::File {
                    split.0
                } else {
                    name
                },
                extension: if kind == EntryKind::File {
                    split.1
                } else {
                    None
                },
                depth: if rel.len() - 1 > 65535 {
                    65535u16
                } else {
                    (rel.len() - 1) as u16
                },
                kind,
            },
        )
    }
}

proof fn lemma_last_dot_unique(name: Seq<char>, i: int)
    requires
        is_last_dot(name, i),
    ensures
        (choose|k: int| is_last_dot(name, k)) == i,
{
    let k = choose|k: int| is_last_dot(name, k);
    assert(is_last_dot(name, k));
    if k < i {
        assert(name[i] != '.');
    } else if i < k {
        assert(name[k] != '.');
    }
}

/// The stem and extension of a file name (see [`split_extension`]).
pub fn split_file_name(name: &Vec<char>) -> (r: (String, Option<String>))
    ensures
        r.0@ == split_extension(name@).0,
        match r.1 {
            Some(e) => split_extension(name@).1 == Some(e@),
            None => split_extension(name@).1 is None,
        },
{
    let n = name.len();
    if n == 2 && name[0] == '.' && name[1] == '.' {
        assert(name@ =~= seq!['.', '.']);
        return (string_from_chars(name), None);
    }
    let mut i = n;
    while i > 0 && name[i - 1] != '.'
        invariant
            i <= n == name@.len(),
            forall|j: int| i <= j < n ==> name@[j] != '.',
        decreases i,
    {
        i -= 1;
    }
    if i == 0 {
        assert(!(exists|k: int| is_last_dot(name@, k))) by {
            if exists|k: int| is_last_dot(name@, k) {
                let k = choose|k: int| is_last_dot(name@, k);
                assert(name@[k] == '.');
            }
        }
        return (string_from_chars(name), None);
    }
    let dot = i - 1;
    proof {
        lemma_last_dot_unique(name@, dot as int);
    }
    if dot == 0 {
        return (string_from_chars(name), None);
    }
    assert(name@ != seq!['.', '.']);
    let stem = string_from_range(name, 0, dot);
    let ext = string_from_range(name, dot + 1, n);
    assert(name@.subrange(0, dot as int) == name@.take(dot as int));
    assert(name@.subrange(dot + 1, n as int) == name@.skip(dot + 1));
    (stem, Some(ext))
}

/// A relative path's components joined with `/`.
pub fn normalize_path(rel: &Vec<String>) -> (r: String)
    ensures
        r@ == join_slash(rel.deep_view()),
{
    join_with_slash(rel)
}

/// Whether a component names something (not the root, `.` or `..`).
fn names_something(c: &String) -> (r: bool)
    ensures
        r == is_named_component(c@),
{
    let cs = chars_of(c.as_str());
    if cs.len() == 1 && (cs[0] == '/' || cs[0] == '.') {
        assert(cs@ =~= seq![cs[0]]);
        return false;
    }
    if cs.len() == 2 && cs[0] == '.' && cs[1] == '.' {
        assert(cs@ =~= seq!['.', '.']);
        return false;
    }
    assert(cs@ != seq!['/']) by {
        if cs@.len() == 1 {
            assert(cs@[0] != seq!['/'][0]);
        }
    }
    assert(cs@ != seq!['.']) by {
        if cs@.len() == 1 {
            assert(cs@[0] != seq!['.'][0]);
        }
    }
    assert(cs@ != seq!['.', '.']) by {
        if cs@.len() == 2 {
            assert(cs@[0] != '.' || cs@[1] != '.');
        }
    }
    true
}

/// The index entry for the path with components `rel` under `root`, or `None`
/// when the path has no name.
pub fn entry_from_path(root: &Vec<String>, root_name: &str, rel: &Vec<String>, kind: EntryKind) -> (r: Option<FileEntry>)
    ensures
        match r {
            Some(e) => entry_for(root.deep_view(), root_name@, rel.deep_view(), kind) == Some(e@),
            None => entry_for(root.deep_view(), root_name@, rel.deep_view(), kind) is None,
        },
{
    let n = rel.len();
    if n == 0 {
        return None;
    }
    let last = &rel[n - 1];
    assert(rel.deep_view().last() == last@);
    if !names_something(last) {
        return None;
    }
    let file_name = last.clone();
    let name_chars = chars_of(last.as_str());
    let (stem, extension) = match kind {
        EntryKind::File => split_file_name(&name_chars),
        EntryKind::Directory => (last.clone(), None),
    };
    let rel_path = normalize_path(rel);
    let depth: u16 = if n - 1 > 65535 {
        65535
    } else {
        (n - 1) as u16
    };
    let root_copy = root.clone();
    assert(root_copy.deep_view() =~= root.deep_view()) by {
        assert forall|i: int| 0 <= i < root_copy@.len() implies root_copy@[i] == root@[i] by {
            assert(cloned::<String>(root@[i], root_copy@[i]));
        }
    }
    let entry = FileEntry {
        root: root_copy,
        root_name: String::from_str(root_name),
        rel_path,
        file_name,
        stem,
        extension,
        depth,
        kind,
    };
    assert(entry@ == entry_for(root.deep_view(), root_name@, rel.deep_view(), kind).unwrap());
    Some(entry)
}

/// The name shown for a workspace root: its last path component, or
/// `workspace` when it has none.
pub fn root_display_name(name: Option<&str>) -> (r: String)
    ensures
        r@ == match name {
            Some(n) => n@,
            None => "workspace"@,
        },
{
    match name {
        Some(n) => String::from_str(n),
        None => String::from_str("workspace"),
    }
}

// ---------------------------------------------------------------------------
// The scan
// ---------------------------------------------------------------------------

/// Number of file entries in `entries`.
pub open spec fn count_files(entries: Seq<FileEntryView>) -> nat
    decreases entries.len(),
{
    if entries.len() == 0 {
        0
    } else {
        count_files(entries.drop_last()) + if entries.last().kind == EntryKind::File {
            1nat
        } else {
            0nat
        }
    }
}

/// The values of a sequence of entries.
pub open spec fn entry_views(entries: Seq<FileEntry>) -> Seq<FileEntryView> {
    Seq::new(entries.len(), |i: int| entries[i]@)
}

/// What the walk does after an entry was visited.
#[derive(Debug, Clone, Copy, PartialEq, Eq, Structural)]
pub enum ScanStep {
    Continue,
    Stop,
}

/// The entries collected so far by a scan of the workspace roots.
pub struct IndexScan {
    pub entries: Vec<FileEntry>,
    /// Number of file entries among `entries`.
    pub file_count: usize,
    /// Set once a file was refused because the file limit was reached.
    pub truncated: bool,
}

impl IndexScan {
    /// `file_count` counts the file entries, and stays within `max_files`.
    pub open spec fn within_limit(&self, max_files: usize) -> bool {
        &&& self.file_count == count_files(entry_views(self.entries@))
        &&& self.file_count <= max_files
    }

    /// A scan that has collected nothing.
    pub fn new() -> (r: Self)
        ensures
            r.entries@.len() == 0,
            r.file_count == 0,
            !r.truncated,
            forall|max_files: usize| r.within_limit(max_files),
    {
        let r = IndexScan { entries: Vec::new(), file_count: 0, truncated: false };
        assert(entry_views(r.entries@) =~= Seq::<FileEntryView>::empty());
        r
    }

    /// Records one walked entry with relative components `rel`:
    /// the root itself and skipped entries are passed over; a file that would
    /// exceed `max_files` stops the scan and marks it truncated; any other
    /// entry that has a name is added. Directories never count against the
    /// file limit.
    pub fn visit(
        &mut self,
        root: &Vec<String>,
        root_name: &str,
        rel: &Vec<String>,
        kind: EntryKind,
        included: &GlobSet,
        exclude: &GlobSet,
        max_files: usize,
    ) -> (step: ScanStep)
        requires
            old(self).within_limit(max_files),
        ensures
            final(self).within_limit(max_files),
            ({
                let rel_path = join_slash(rel.deep_view());
                let before = entry_views(old(self).entries@);
                let after = entry_views(final(self).entries@);
                if rel@.len() == 0 || skipped(rel_path, kind, *included, *exclude) {
                    &&& step == ScanStep::Continue
                    &&& after == before
                    &&& final(self).truncated == old(self).truncated
                } else if kind == EntryKind::File && old(self).file_count >= max_files {
                    &&& step == ScanStep::Stop
                    &&& after == before
                    &&& final(self).truncated
                } else {
                    &&& step == ScanStep::Continue
                    &&& final(self).truncated == old(self).truncated
                    &&& after == match entry_for(root.deep_view(), root_name@, rel.deep_view(), kind) {
                        Some(e) => before.push(e),
                        None => before,
                    }
                }
            }),
    {
        let ghost before = entry_views(self.entries@);
        if rel.len() == 0 {
            return ScanStep::Continue;
        }
        let rel_path = normalize_path(rel);
        if should_skip(rel_path.as_str(), kind, included, exclude) {
            return ScanStep::Continue;
        }
        if kind == EntryKind::File && self.file_count >= max_files {
            self.truncated = true;
            return ScanStep::Stop;
        }
        match entry_from_path(root, root_name, rel, kind) {
            Some(entry) => {
                self.entries.push(entry);
                assert(entry_views(self.entries@) =~= before.push(entry@));
                assert(entry_views(self.entries@).drop_last() =~= before);
                if kind == EntryKind::File {
                    self.file_count = self.file_count + 1;
                }
            },
            None => {},
        }
        ScanStep::Continue
    }
}

// ---------------------------------------------------------------------------
// Laws of filtering
// ---------------------------------------------------------------------------

proof fn lemma_exclude_globs_keep_patterns(ps: Seq<Seq<char>>, k: int)
    requires
        0 <= k < ps.len(),
    ensures
        exclude_globs(ps).contains(ps[k]),
    decreases ps.len(),
{
    let rest = exclude_globs(ps.drop_last());
    let e = exclude_expansion(ps.last());
    assert(e[0] == ps.last());
    if k == ps.len() - 1 {
        assert((rest + e)[rest.len() as int] == ps[k]);
    } else {
        lemma_exclude_globs_keep_patterns(ps.drop_last(), k);
        let j = choose|j: int| 0 <= j < rest.len() && rest[j] == ps[k];
        assert((rest + e)[j] == ps[k]);
    }
}

/// Include globs filter files only: a directory is left out exactly when an
/// exclude glob matches it, and any entry an exclude glob matches is left
/// out, file or directory.
pub proof fn include_globs_filter_files_only(
    rel_path: Seq<char>,
    kind: EntryKind,
    included: GlobSet,
    exclude: GlobSet,
)
    ensures
        skipped(rel_path, EntryKind::Directory, included, exclude) == any_glob_matches(
            set_sources(exclude),
            rel_path,
        ),
        any_glob_matches(set_sources(exclude), rel_path) ==> skipped(rel_path, kind, included, exclude),
{
}

/// The built-in hygiene excludes stay active: when the configured excludes
/// keep every built-in pattern (as every merged configuration does), an
/// entry that a built-in pattern matches is left out of the index.
pub proof fn builtin_excludes_stay_active(
    excludes: Seq<Seq<char>>,
    included: GlobSet,
    exclude: GlobSet,
    rel_path: Seq<char>,
    kind: EntryKind,
    builtin: int,
)
    requires
        forall|q: Seq<char>| default_exclude_patterns().contains(q) ==> excludes.contains(q),
        set_sources(exclude) == exclude_globs(excludes),
        0 <= builtin < default_exclude_patterns().len(),
        glob_matches(default_exclude_patterns()[builtin], rel_path),
    ensures
        skipped(rel_path, kind, included, exclude),
{
    let p = default_exclude_patterns()[builtin];
    assert(default_exclude_patterns().contains(p));
    assert(excludes.contains(p));
    let k = choose|k: int| 0 <= k < excludes.len() && excludes[k] == p;
    lemma_exclude_globs_keep_patterns(excludes, k);
    let g = exclude_globs(excludes);
    let j = choose|j: int| 0 <= j < g.len() && g[j] == p;
    assert(glob_matches(set_sources(exclude)[j], rel_path));
}

/// A directory the walk does not descend into is one the index leaves out:
/// when [`keep_entry`] refuses a non-root path, [`should_skip`] skips it.
pub proof fn pruned_entries_are_skipped(
    rel: Seq<Seq<char>>,
    kind: EntryKind,
    included: GlobSet,
    exclude: GlobSet,
)
    requires
        rel.len() > 0,
        any_glob_matches(set_sources(exclude), join_slash(rel)),
    ensures
        skipped(join_slash(rel), kind, included, exclude),
{
}

/// Directories never count against the file limit: visiting a directory
/// never stops the scan and leaves the file count unchanged.
pub proof fn directories_do_not_use_file_quota(before: IndexScan, after: IndexScan, max_files: usize)
    requires
        before.within_limit(max_files),
        after.within_limit(max_files),
        entry_views(after.entries@) == entry_views(before.entries@) || exists|e: FileEntryView|
            e.kind == EntryKind::Directory && entry_views(after.entries@) == entry_views(
                before.entries@,
            ).push(e),
    ensures
        after.file_count == before.file_count,
{
    if entry_views(after.entries@) != entry_views(before.entries@) {
        let e = choose|e: FileEntryView|
            e.kind == EntryKind::Directory && entry_views(after.entries@) == entry_views(
                before.entries@,
            ).push(e);
        assert(entry_views(after.entries@).drop_last() =~= entry_views(before.entries@));
    }
}

} // verus!

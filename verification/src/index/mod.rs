//! The in-memory index of workspace files and directories.
use vstd::prelude::*;

pub mod scanner;
pub mod scoring;
pub mod watcher;

use std::time::{Duration, SystemTime};

verus! {

#[verifier::external_type_specification]
#[verifier::external_body]
pub struct ExSystemTime(SystemTime);

/// Whether an index entry is a file or a directory.
#[derive(Debug, Clone, Copy, PartialEq, Eq, Structural)]
pub enum EntryKind {
    File,
    Directory,
}

/// One indexed file or directory of a workspace root.
#[derive(Debug, PartialEq, Eq)]
pub struct FileEntry {
    /// The components of the workspace root the entry belongs to.
    pub root: Vec<String>,
    /// The display name of that root.
    pub root_name: String,
    /// The path relative to the root, components joined with `/`.
    pub rel_path: String,
    pub file_name: String,
    pub stem: String,
    pub extension: Option<String>,
    /// Components of the relative path, minus one.
    pub depth: u16,
    pub kind: EntryKind,
}

/// The value of a [`FileEntry`], its strings as character sequences.
pub struct FileEntryView {
    pub root: Seq<Seq<char>>,
    pub root_name: Seq<char>,
    pub rel_path: Seq<char>,
    pub file_name: Seq<char>,
    pub stem: Seq<char>,
    pub extension: Option<Seq<char>>,
    pub depth: u16,
    pub kind: EntryKind,
}

impl View for FileEntry {
    type V = FileEntryView;

    open spec fn view(&self) -> FileEntryView {
        FileEntryView {
            root: self.root.deep_view(),
            root_name: self.root_name@,
            rel_path: self.rel_path@,
            file_name: self.file_name@,
            stem: self.stem@,
            extension: match self.extension {
                Some(e) => Some(e@),
                None => None,
            },
            depth: self.depth,
            kind: self.kind,
        }
    }
}

impl Clone for FileEntry {
    fn clone(&self) -> (r: Self)
        ensures
            r@ == self@,
    {
        let root = self.root.clone();
        assert(root.deep_view() =~= self.root.deep_view()) by {
            assert forall|i: int| 0 <= i < root@.len() implies root@[i] == self.root@[i] by {
                assert(cloned::<String>(self.root@[i], root@[i]));
            }
        }
        let extension = match &self.extension {
            Some(e) => Some(e.clone()),
            None => None,
        };
        FileEntry {
            root,
            root_name: self.root_name.clone(),
            rel_path: self.rel_path.clone(),
            file_name: self.file_name.clone(),
            stem: self.stem.clone(),
            extension,
            depth: self.depth,
            kind: self.kind,
        }
    }
}

/// A snapshot of the workspace index.
#[derive(Debug)]
pub struct FileIndex {
    pub entries: Vec<FileEntry>,
    /// Set when the scan stopped at the file limit.
    pub truncated: bool,
    pub updated_at: SystemTime,
}

/// The current time (`SystemTime::now`).
#[verifier::external_body]
fn system_time_now() -> SystemTime {
    SystemTime::now()
}

/// The time elapsed since `t` (`SystemTime::elapsed`), `None` when the clock
/// reads earlier than `t`. Depends on the clock: nothing is promised of it.
#[verifier::external_body]
fn elapsed_since(t: &SystemTime) -> Option<Duration> {
    t.elapsed().ok()
}

/// Whole seconds of `d` (`Duration::as_secs`). Nothing is promised of the value.
#[verifier::external_body]
fn whole_seconds(d: &Duration) -> u64 {
    d.as_secs()
}

/// Whether an index whose age is `elapsed_secs` (unknown when `None`) is older
/// than the refresh interval `ttl_seconds`; an interval of 0 never expires.
pub fn stale_after(elapsed_secs: Option<u64>, ttl_seconds: u64) -> (r: bool)
    ensures
        r == (ttl_seconds != 0 && (match elapsed_secs {
            Some(secs) => secs > ttl_seconds,
            None => false,
        })),
{
    if ttl_seconds == 0 {
        return false;
    }
    match elapsed_secs {
        Some(secs) => secs > ttl_seconds,
        None => false,
    }
}

impl FileIndex {
    /// An index with no entries, stamped with the current time.
    pub fn empty() -> (r: Self)
        ensures
            r.entries@.len() == 0,
            !r.truncated,
    {
        FileIndex { entries: Vec::new(), truncated: false, updated_at: system_time_now() }
    }

    /// An index holding `entries`, stamped with the current time.
    pub fn with_entries(entries: Vec<FileEntry>, truncated: bool) -> (r: Self)
        ensures
            r.entries@ == entries@,
            r.truncated == truncated,
    {
        FileIndex { entries, truncated, updated_at: system_time_now() }
    }

    /// Whether the index is older than `ttl_seconds` (never, when it is 0).
    /// The age comes from the clock; [`stale_after`] decides on it.
    pub fn is_stale(&self, ttl_seconds: u64) -> (r: bool)
        ensures
            ttl_seconds == 0 ==> !r,
    {
        let elapsed = match elapsed_since(&self.updated_at) {
            Some(d) => Some(whole_seconds(&d)),
            None => None,
        };
        stale_after(elapsed, ttl_seconds)
    }
}

impl Default for FileIndex {
    fn default() -> (r: Self)
        ensures
            r.entries@.len() == 0,
            !r.truncated,
    {
        Self::empty()
    }
}

} // verus!

//! Decisions of the file-watcher loop: which events matter, and when the
//! index is rebuilt.
use vstd::prelude::*;

use crate::config::Config;
use crate::text::{chars_of, contains_exec, contains_seq, ends_with, ends_with_exec, replace_char, replace_char_exec, starts_with, starts_with_exec, sub_chars};

verus! {

/// `s` with every leading copy of `pre` removed (`str::trim_start_matches`).
pub open spec fn trim_start_all(s: Seq<char>, pre: Seq<char>) -> Seq<char>
    decreases s.len(),
{
    if pre.len() > 0 && starts_with(s, pre) {
        trim_start_all(s.skip(pre.len() as int), pre)
    } else {
        s
    }
}

/// `s` with every trailing copy of `suf` removed (`str::trim_end_matches`).
pub open spec fn trim_end_all(s: Seq<char>, suf: Seq<char>) -> Seq<char>
    decreases s.len(),
{
    if suf.len() > 0 && ends_with(s, suf) {
        trim_end_all(s.take(s.len() - suf.len()), suf)
    } else {
        s
    }
}

/// The path fragment an exclude pattern stands for in file events: the
/// pattern without its leading `**/` and trailing `/**` parts.
pub open spec fn exclude_needle(pattern: Seq<char>) -> Seq<char> {
    trim_end_all(trim_start_all(pattern, seq!['*', '*', '/']), seq!['/', '*', '*'])
}

/// Whether an exclude needle covers the event path `text`.
pub open spec fn covered_by_excludes(text: Seq<char>, excludes: Seq<Seq<char>>) -> bool {
    exists|j: int|
        0 <= j < excludes.len() && exclude_needle(excludes[j]).len() > 0 && contains_seq(
            text,
            #[trigger] exclude_needle(excludes[j]),
        )
}

/// An event is ignored when every path it touches (with `\` read as `/`)
/// holds the needle of some exclude pattern; an event with no paths is
/// ignored.
pub open spec fn event_ignored(paths: Seq<Seq<char>>, excludes: Seq<Seq<char>>) -> bool {
    forall|i: int|
        0 <= i < paths.len() ==> covered_by_excludes(
            replace_char(#[trigger] paths[i], '\\', '/'),
            excludes,
        )
}

fn trim_start_all_exec(s: &Vec<char>, pre: &Vec<char>) -> (r: Vec<char>)
    ensures
        r@ == trim_start_all(s@, pre@),
{
    if pre.len() == 0 {
        return sub_chars(s, 0, s.len());
    }
    let mut lo: usize = 0;
    let mut cur = sub_chars(s, 0, s.len());
    assert(s@.subrange(0, s@.len() as int) =~= s@);
    while starts_with_exec(&cur, pre)
        invariant
            pre@.len() > 0,
            trim_start_all(s@, pre@) == trim_start_all(cur@, pre@),
        decreases cur@.len(),
    {
        let next = sub_chars(&cur, pre.len(), cur.len());
        assert(next@ == cur@.skip(pre@.len() as int));
        cur = next;
    }
    cur
}

fn trim_end_all_exec(s: &Vec<char>, suf: &Vec<char>) -> (r: Vec<char>)
    ensures
        r@ == trim_end_all(s@, suf@),
{
    let mut cur = sub_chars(s, 0, s.len());
    assert(s@.subrange(0, s@.len() as int) =~= s@);
    if suf.len() == 0 {
        return cur;
    }
    while ends_with_exec(&cur, suf)
        invariant
            suf@.len() > 0,
            trim_end_all(s@, suf@) == trim_end_all(cur@, suf@),
        decreases cur@.len(),
    {
        let next = sub_chars(&cur, 0, cur.len() - suf.len());
        assert(next@ == cur@.take(cur@.len() - suf@.len()));
        cur = next;
    }
    cur
}

fn needle_of(pattern: &String) -> (r: Vec<char>)
    ensures
        r@ == exclude_needle(pattern@),
{
    let mut pre: Vec<char> = Vec::new();
    pre.push('*');
    pre.push('*');
    pre.push('/');
    let mut suf: Vec<char> = Vec::new();
    suf.push('/');
    suf.push('*');
    suf.push('*');
    assert(pre@ =~= seq!['*', '*', '/']);
    assert(suf@ =~= seq!['/', '*', '*']);
    let start = trim_start_all_exec(&chars_of(pattern.as_str()), &pre);
    trim_end_all_exec(&start, &suf)
}

/// Whether a file event on `paths` can be ignored because every path lies
/// in an excluded location (see [`event_ignored`]).
pub fn should_ignore_event(paths: &Vec<String>, config: &Config) -> (r: bool)
    ensures
        r == event_ignored(paths.deep_view(), config.index.exclude.deep_view()),
{
    let excludes = &config.index.exclude;
    let ghost ex = excludes.deep_view();
    let ghost ps = paths.deep_view();
    let mut i: usize = 0;
    while i < paths.len()
        invariant
            i <= paths@.len(),
            ps == paths.deep_view(),
            ex == excludes.deep_view(),
            ex == config.index.exclude.deep_view(),
            forall|k: int| 0 <= k < i ==> covered_by_excludes(replace_char(#[trigger] ps[k], '\\', '/'), ex),
        decreases paths@.len() - i,
    {
        let text = replace_char_exec(&chars_of(paths[i].as_str()), '\\', '/');
        assert(ps[i as int] == paths@[i as int]@);
        let mut covered = false;
        let mut j: usize = 0;
        while j < excludes.len() && !covered
            invariant
                j <= excludes@.len(),
                ex == excludes.deep_view(),
                i < ps.len(),
                text@ == replace_char(ps[i as int], '\\', '/'),
                covered ==> covered_by_excludes(text@, ex),
                !covered ==> forall|m: int| 0 <= m < j ==> !(exclude_needle(ex[m]).len() > 0 && contains_seq(text@, #[trigger] exclude_needle(ex[m]))),
            decreases excludes@.len() - j,
        {
            let needle = needle_of(&excludes[j]);
            assert(ex[j as int] == excludes@[j as int]@);
            if needle.len() > 0 && contains_exec(&text, &needle) {
                covered = true;
            }
            j += 1;
        }
        if !covered {
            assert(!covered_by_excludes(text@, ex));
            assert(!covered_by_excludes(replace_char(ps[i as int], '\\', '/'), ex));
            assert(!event_ignored(ps, ex));
            return false;
        }
        assert(ps[i as int] == paths@[i as int]@);
        i += 1;
    }
    true
}

/// Whether file watchers are installed at all: only when watching is
/// switched on in the settings.
pub fn watching_enabled(config: &Config) -> (r: bool)
    ensures
        r == config.index.watch_files,
{
    config.index.watch_files
}

/// Whether the periodic refresh runs: only for a refresh interval other
/// than 0; the interval is then both the sleep between checks and the age
/// at which the index is stale.
pub fn periodic_refresh_enabled(config: &Config) -> (r: bool)
    ensures
        r == (config.index.refresh_ttl_seconds != 0),
{
    config.index.refresh_ttl_seconds != 0
}

/// The quiet time, in milliseconds, that the watcher waits for before a
/// rebuild: the configured debounce, at least 100.
pub fn debounce_interval_ms(config: &Config) -> (r: u64)
    ensures
        r == if config.index.debounce_ms < 100 {
            100
        } else {
            config.index.debounce_ms
        },
{
    if config.index.debounce_ms < 100 {
        100
    } else {
        config.index.debounce_ms
    }
}

/// What the watcher loop received.
#[derive(Debug, Clone, Copy, PartialEq, Eq, Structural)]
pub enum WatchInput {
    /// A file event; `ignored` tells whether [`should_ignore_event`] holds.
    Event { ignored: bool },
    /// The watcher reported an error.
    Error,
    /// Nothing arrived within the debounce interval; `quiet` tells whether a
    /// full interval has passed since the last recorded event.
    Timeout { quiet: bool },
    /// The event channel closed.
    Disconnected,
}

/// What the watcher loop does next.
#[derive(Debug, Clone, Copy, PartialEq, Eq, Structural)]
pub enum WatchAction {
    /// Keep waiting.
    Wait,
    /// Note the time of a relevant event and keep waiting.
    RecordEvent,
    /// Log the watcher error and keep waiting.
    LogError,
    /// Rescan the roots and replace the index.
    Rebuild,
    /// Leave the loop.
    Stop,
}

/// One step of the watcher loop: `pending` tells whether a relevant event
/// awaits a rebuild; returns the new `pending` and the action to take.
/// Relevant events are debounced: the index is rebuilt once a full quiet
/// interval follows them.
pub fn watch_step(pending: bool, input: WatchInput) -> (r: (bool, WatchAction))
    ensures
        r == match input {
            WatchInput::Event { ignored } => if ignored {
                (pending, WatchAction::Wait)
            } else {
                (true, WatchAction::RecordEvent)
            },
            WatchInput::Error => (pending, WatchAction::LogError),
            WatchInput::Timeout { quiet } => if pending && quiet {
                (false, WatchAction::Rebuild)
            } else {
                (pending, WatchAction::Wait)
            },
            WatchInput::Disconnected => (pending, WatchAction::Stop),
        },
{
    match input {
        WatchInput::Event { ignored } => {
            if ignored {
                (pending, WatchAction::Wait)
            } else {
                (true, WatchAction::RecordEvent)
            }
        },
        WatchInput::Error => (pending, WatchAction::LogError),
        WatchInput::Timeout { quiet } => {
            if pending && quiet {
                (false, WatchAction::Rebuild)
            } else {
                (pending, WatchAction::Wait)
            }
        },
        WatchInput::Disconnected => (pending, WatchAction::Stop),
    }
}

} // verus!

//! The decisions of the file watcher: which changed files are locale files,
//! and which change event a reload publishes.
use vstd::prelude::*;

use crate::change::{ChangeKind, LangChangeEvent};
use crate::error::{LangError, LangErrorView};
use crate::text::{chars_equal, chars_of, copy_range, string_views};

verus! {

broadcast use vstd::string::group_string_axioms;

/// A file name of the form `<stem>.toml` with a non-empty stem.
pub open spec fn is_toml_file_name(name: Seq<char>) -> bool {
    name.len() > 5 && name.skip(name.len() - 5) == seq!['.', 't', 'o', 'm', 'l']
}

pub open spec fn toml_extension() -> Seq<char> {
    seq!['.', 't', 'o', 'm', 'l']
}

/// A file is a locale file exactly when its name is a non-empty stem
/// followed by `.toml`, whatever characters the stem holds (`en-US.toml`,
/// `pt_BR.toml` and `en.toml` alike).
pub proof fn law_locale_file_is_stem_and_extension(name: Seq<char>, stem: Seq<char>)
    ensures
        stem.len() > 0 ==> is_toml_file_name(stem + toml_extension()),
        is_toml_file_name(name) <==> exists|s: Seq<char>|
            s.len() > 0 && name == #[trigger] (s + toml_extension()),
{
    let ext = toml_extension();
    assert((stem + ext).skip(stem.len() as int) =~= ext);
    if is_toml_file_name(name) {
        let s = name.take(name.len() - 5);
        assert(name =~= s + ext);
    }
    if exists|s: Seq<char>| s.len() > 0 && name == #[trigger] (s + ext) {
        let s = choose|s: Seq<char>| s.len() > 0 && name == #[trigger] (s + ext);
        assert((s + ext).skip(s.len() as int) =~= ext);
    }
}

/// Whether a changed file, named `file_name`, is a locale file that the
/// watcher reloads.
pub fn is_toml_file(file_name: &str) -> (r: bool)
    ensures
        r == is_toml_file_name(file_name@),
{
    let name = chars_of(file_name);
    let n = name.len();
    if n <= 5 {
        return false;
    }
    let tail = copy_range(&name, n - 5, n);
    let ext: Vec<char> = vec!['.', 't', 'o', 'm', 'l'];
    assert(ext@ =~= seq!['.', 't', 'o', 'm', 'l']);
    assert(tail@ =~= name@.skip(n - 5));
    chars_equal(&tail, &ext)
}

/// The event that reloading the file of `locale` publishes, given what the
/// load gave: the load's own event on success, [`ChangeKind::FileMissing`]
/// when the file could not be read, [`ChangeKind::ParseFailed`] when it no
/// longer parses, and nothing when the locale name was rejected.
pub fn reload_event(locale: &str, outcome: Result<LangChangeEvent, LangError>) -> (r: Option<
    LangChangeEvent,
>)
    ensures
        match outcome {
            Ok(ev) => r matches Some(e) && e@ == ev@,
            Err(err) => match err@ {
                LangErrorView::Io { .. } => r matches Some(e) && e@ == (
                    locale@,
                    ChangeKind::FileMissing,
                ),
                LangErrorView::Parse { .. } => r matches Some(e) && e@ == (
                    locale@,
                    ChangeKind::ParseFailed,
                ),
                _ => r is None,
            },
        },
{
    match outcome {
        Ok(ev) => Some(ev),
        Err(LangError::Io { .. }) => Some(
            LangChangeEvent { locale: locale.to_owned(), kind: ChangeKind::FileMissing },
        ),
        Err(LangError::Parse { .. }) => Some(
            LangChangeEvent { locale: locale.to_owned(), kind: ChangeKind::ParseFailed },
        ),
        Err(LangError::NotLoaded { .. }) | Err(LangError::InvalidLocale { .. }) => None,
    }
}

/// How long a changed file must stay quiet, in microseconds, before the
/// watcher reloads it; a burst of events for one file reloads it once.
pub const DEBOUNCE_MICROS: u64 = 150_000;

/// Time elapsed from `since` to `now`, zero when `now` is earlier.
pub open spec fn elapsed(since: u64, now: u64) -> int {
    if now >= since {
        now - since
    } else {
        0
    }
}

/// A file last seen changing at `seen_at` has been quiet long enough at `now`.
pub open spec fn is_settled(seen_at: u64, now: u64, quiet: u64) -> bool {
    elapsed(seen_at, now) >= quiet
}

/// The paths of a list of `(path, time)` entries, by their characters.
pub open spec fn entry_paths(s: Seq<(String, u64)>) -> Seq<Seq<char>> {
    s.map_values(|e: (String, u64)| e.0@)
}

/// Each path of the entries with its time, a later entry for a path
/// replacing an earlier one.
pub open spec fn entries_map(s: Seq<(String, u64)>) -> Map<Seq<char>, u64>
    decreases s.len(),
{
    if s.len() == 0 {
        Map::empty()
    } else {
        entries_map(s.drop_last()).insert(s.last().0@, s.last().1)
    }
}

/// Entries whose time satisfies `q`.
pub open spec fn with_time(q: spec_fn(u64) -> bool) -> spec_fn((String, u64)) -> bool {
    |e: (String, u64)| q(e.1)
}

pub open spec fn settled_at(now: u64, quiet: u64) -> spec_fn(u64) -> bool {
    |t: u64| is_settled(t, now, quiet)
}

pub open spec fn unsettled_at(now: u64, quiet: u64) -> spec_fn(u64) -> bool {
    |t: u64| !is_settled(t, now, quiet)
}

/// The part of `m` whose times satisfy `q`.
pub open spec fn restrict_time(m: Map<Seq<char>, u64>, q: spec_fn(u64) -> bool) -> Map<
    Seq<char>,
    u64,
> {
    Map::new(|p: Seq<char>| m.contains_key(p) && q(m[p]), |p: Seq<char>| m[p])
}

proof fn lemma_entries_map_dom(s: Seq<(String, u64)>, p: Seq<char>)
    ensures
        entries_map(s).contains_key(p) == entry_paths(s).contains(p),
    decreases s.len(),
{
    if s.len() > 0 {
        let d = s.drop_last();
        lemma_entries_map_dom(d, p);
        assert(entry_paths(s) =~= entry_paths(d).push(s.last().0@));
        if entry_paths(d).contains(p) {
            let k = choose|k: int| 0 <= k < entry_paths(d).len() && entry_paths(d)[k] == p;
            assert(entry_paths(s)[k] == p);
        }
        if entry_paths(s).contains(p) && p != s.last().0@ {
            let k = choose|k: int| 0 <= k < entry_paths(s).len() && entry_paths(s)[k] == p;
            assert(entry_paths(d)[k] == p);
        }
        if p == s.last().0@ {
            assert(entry_paths(s)[s.len() - 1] == p);
        }
    }
}

proof fn lemma_push_no_duplicates(s: Seq<(String, u64)>, e: (String, u64))
    requires
        entry_paths(s).no_duplicates(),
        !entry_paths(s).contains(e.0@),
    ensures
        entry_paths(s.push(e)).no_duplicates(),
{
    assert(entry_paths(s.push(e)) =~= entry_paths(s).push(e.0@));
    assert forall|i: int, j: int|
        0 <= i < s.len() + 1 && 0 <= j < s.len() + 1 && i != j implies entry_paths(s.push(e))[i]
        != entry_paths(s.push(e))[j] by {
        if i == s.len() {
            assert(entry_paths(s)[j] == entry_paths(s.push(e))[j]);
        } else if j == s.len() {
            assert(entry_paths(s)[i] == entry_paths(s.push(e))[i]);
        }
    }
}

/// Replacing the entry of a path keeps the other paths' times.
proof fn lemma_entries_map_update(s: Seq<(String, u64)>, i: int, e: (String, u64))
    requires
        entry_paths(s).no_duplicates(),
        0 <= i < s.len(),
        s[i].0@ == e.0@,
    ensures
        entries_map(s.update(i, e)) == entries_map(s).insert(e.0@, e.1),
        entry_paths(s.update(i, e)) == entry_paths(s),
    decreases s.len(),
{
    let t = s.update(i, e);
    let d = s.drop_last();
    assert(entry_paths(t) =~= entry_paths(s));
    if i == s.len() - 1 {
        assert(t.drop_last() =~= d);
        assert(entries_map(t) =~= entries_map(s).insert(e.0@, e.1));
    } else {
        assert(t.drop_last() =~= d.update(i, e));
        assert(entry_paths(d).no_duplicates()) by {
            assert forall|a: int, b: int|
                0 <= a < d.len() && 0 <= b < d.len() && a != b implies entry_paths(d)[a]
                != entry_paths(d)[b] by {
                assert(entry_paths(d)[a] == entry_paths(s)[a]);
                assert(entry_paths(d)[b] == entry_paths(s)[b]);
            }
        }
        lemma_entries_map_update(d, i, e);
        assert(entry_paths(s)[i] != entry_paths(s)[s.len() - 1]);
        assert(entries_map(t) =~= entries_map(s).insert(e.0@, e.1));
    }
}

/// One more entry for the filter.
proof fn lemma_filter_take_step(s: Seq<(String, u64)>, i: int, p: spec_fn((String, u64)) -> bool)
    requires
        0 <= i < s.len(),
    ensures
        s.take(i + 1).filter(p) == (if p(s[i]) {
            s.take(i).filter(p).push(s[i])
        } else {
            s.take(i).filter(p)
        }),
{
    reveal(Seq::filter);
    assert(s.take(i + 1).drop_last() =~= s.take(i));
}

/// Keeping the entries whose times satisfy `q` keeps the paths with such
/// times, each once.
proof fn lemma_filter_entries(s: Seq<(String, u64)>, q: spec_fn(u64) -> bool)
    requires
        entry_paths(s).no_duplicates(),
    ensures
        entry_paths(s.filter(with_time(q))).no_duplicates(),
        entries_map(s.filter(with_time(q))) == restrict_time(entries_map(s), q),
    decreases s.len(),
{
    reveal(Seq::filter);
    let f = s.filter(with_time(q));
    if s.len() == 0 {
        assert(entries_map(f) =~= restrict_time(entries_map(s), q));
    } else {
        let d = s.drop_last();
        let x = s.last();
        assert(entry_paths(d).no_duplicates()) by {
            assert forall|a: int, b: int|
                0 <= a < d.len() && 0 <= b < d.len() && a != b implies entry_paths(d)[a]
                != entry_paths(d)[b] by {
                assert(entry_paths(d)[a] == entry_paths(s)[a]);
                assert(entry_paths(d)[b] == entry_paths(s)[b]);
            }
        }
        lemma_filter_entries(d, q);
        let fd = d.filter(with_time(q));
        assert(!entry_paths(d).contains(x.0@)) by {
            if entry_paths(d).contains(x.0@) {
                let k = choose|k: int| 0 <= k < entry_paths(d).len() && entry_paths(d)[k] == x.0@;
                assert(entry_paths(s)[k] == entry_paths(s)[s.len() - 1]);
            }
        }
        lemma_entries_map_dom(d, x.0@);
        lemma_entries_map_dom(fd, x.0@);
        if q(x.1) {
            assert(f == fd.push(x));
            lemma_push_no_duplicates(fd, x);
            assert(f.drop_last() =~= fd);
        }
        assert(entries_map(f) =~= restrict_time(entries_map(s), q));
    }
}

/// Files that changed recently, each with the time of its latest change,
/// waiting to be reloaded once they have been quiet for a while.
pub struct PendingReloads {
    entries: Vec<(String, u64)>,
}

impl View for PendingReloads {
    type V = Map<Seq<char>, u64>;

    closed spec fn view(&self) -> Map<Seq<char>, u64> {
        entries_map(self.entries@)
    }
}

impl PendingReloads {
    /// Each path is held once.
    pub closed spec fn wf(&self) -> bool {
        entry_paths(self.entries@).no_duplicates()
    }

    /// Nothing pending.
    pub fn new() -> (r: PendingReloads)
        ensures
            r.wf(),
            r@ == Map::<Seq<char>, u64>::empty(),
    {
        PendingReloads { entries: Vec::new() }
    }

    /// Notes that `path` changed at `now`; a later change of a pending path
    /// restarts its wait.
    pub fn record(&mut self, path: String, now: u64)
        requires
            old(self).wf(),
        ensures
            final(self).wf(),
            final(self)@ == old(self)@.insert(path@, now),
    {
        let ghost old_entries = self.entries@;
        let key = chars_of(path.as_str());
        let mut i: usize = 0;
        let mut found = false;
        while i < self.entries.len() && !found
            invariant
                self.entries@ == old_entries,
                key@ == path@,
                0 <= i <= old_entries.len(),
                found ==> i < old_entries.len() && old_entries[i as int].0@ == path@,
                !found ==> forall|k: int| 0 <= k < i ==> #[trigger] old_entries[k].0@ != path@,
            decreases old_entries.len() - i + (if found {
                0int
            } else {
                1int
            }),
        {
            let other = chars_of(self.entries[i].0.as_str());
            if chars_equal(&other, &key) {
                found = true;
            } else {
                i = i + 1;
            }
        }
        if found {
            proof {
                lemma_entries_map_update(old_entries, i as int, (path, now));
            }
            self.entries.set(i, (path, now));
        } else {
            proof {
                assert(!entry_paths(old_entries).contains(path@)) by {
                    if entry_paths(old_entries).contains(path@) {
                        let k = choose|k: int|
                            0 <= k < entry_paths(old_entries).len() && entry_paths(old_entries)[k]
                                == path@;
                        assert(old_entries[k].0@ == path@);
                    }
                }
                lemma_push_no_duplicates(old_entries, (path, now));
                assert(old_entries.push((path, now)).drop_last() =~= old_entries);
            }
            self.entries.push((path, now));
        }
    }

    /// Removes and returns the paths that have been quiet for at least
    /// `quiet` at `now`; the others stay pending with their times.
    pub fn take_ready(&mut self, now: u64, quiet: u64) -> (r: Vec<String>)
        requires
            old(self).wf(),
        ensures
            final(self).wf(),
            string_views(r@).no_duplicates(),
            forall|p: Seq<char>|
                string_views(r@).contains(p) <==> old(self)@.contains_key(p) && is_settled(
                    old(self)@[p],
                    now,
                    quiet,
                ),
            final(self)@ == restrict_time(old(self)@, unsettled_at(now, quiet)),
    {
        let ghost old_entries = self.entries@;
        let ghost done = with_time(settled_at(now, quiet));
        let ghost waiting = with_time(unsettled_at(now, quiet));
        let mut ready: Vec<String> = Vec::new();
        let mut kept: Vec<(String, u64)> = Vec::new();
        let mut i: usize = 0;
        while i < self.entries.len()
            invariant
                self.entries@ == old_entries,
                done == with_time(settled_at(now, quiet)),
                waiting == with_time(unsettled_at(now, quiet)),
                0 <= i <= old_entries.len(),
                kept@ == old_entries.take(i as int).filter(waiting),
                string_views(ready@) == entry_paths(old_entries.take(i as int).filter(done)),
            decreases old_entries.len() - i,
        {
            let path = self.entries[i].0.clone();
            let seen_at = self.entries[i].1;
            let settled = (now >= seen_at && now - seen_at >= quiet) || (now < seen_at && quiet
                == 0);
            proof {
                lemma_filter_take_step(old_entries, i as int, done);
                lemma_filter_take_step(old_entries, i as int, waiting);
                assert(old_entries[i as int] == (path, seen_at));
            }
            let ghost before = ready@;
            if settled {
                ready.push(path);
                proof {
                    assert(string_views(ready@) =~= string_views(before).push(path@));
                    assert(entry_paths(old_entries.take(i as int).filter(done).push((path, seen_at)))
                        =~= entry_paths(old_entries.take(i as int).filter(done)).push(path@));
                }
            } else {
                kept.push((path, seen_at));
            }
            i = i + 1;
        }
        proof {
            assert(old_entries.take(old_entries.len() as int) =~= old_entries);
            lemma_filter_entries(old_entries, settled_at(now, quiet));
            lemma_filter_entries(old_entries, unsettled_at(now, quiet));
            let rv = string_views(ready@);
            assert forall|p: Seq<char>| rv.contains(p) <==> entries_map(old_entries).contains_key(
                p,
            ) && is_settled(entries_map(old_entries)[p], now, quiet) by {
                lemma_entries_map_dom(old_entries.filter(done), p);
                assert(restrict_time(entries_map(old_entries), settled_at(now, quiet)).contains_key(
                    p,
                ) == (entries_map(old_entries).contains_key(p) && is_settled(
                    entries_map(old_entries)[p],
                    now,
                    quiet,
                )));
            }
        }
        self.entries = kept;
        ready
    }
}

} // verus!

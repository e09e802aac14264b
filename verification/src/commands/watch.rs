//! Watching the documentation for changes: the decisions of each polling
//! round.

use vstd::prelude::*;
use crate::text::{chars_of, lines, owned, replace_str, spec_lines, spec_replace, spec_starts_with, spec_trim, starts_with, str_eq, string_of, strs, trim, views};

verus! {

/// Kind of a change.
#[derive(Debug, Clone, Copy, PartialEq, Eq, Structural)]
pub enum WatchEventType {
    Created,
    Modified,
    Deleted,
    Renamed,
}

/// A change seen on a file.
#[derive(Debug, Clone)]
pub struct WatchEvent {
    pub path: String,
    pub event_type: WatchEventType,
    pub timestamp: String,
}

/// Settings of the watcher.
#[derive(Debug, Clone)]
pub struct WatchConfig {
    pub debounce_ms: u64,
    pub patterns: Vec<String>,
    pub ignore_patterns: Vec<String>,
}

/// What `std::time::Duration::from_millis(ms)` gives: a span of `ms`
/// milliseconds.
pub uninterp spec fn spec_duration_from_millis(ms: u64) -> std::time::Duration;

/// `std::time::Duration::from_millis`.
#[verifier::external_body]
fn duration_from_millis(ms: u64) -> (r: std::time::Duration)
    ensures
        r == spec_duration_from_millis(ms),
{
    std::time::Duration::from_millis(ms)
}

impl WatchConfig {
    /// The default settings: half a second, Markdown files, ignoring
    /// dependencies and version control.
    pub fn default_config() -> (c: WatchConfig)
        ensures
            c.debounce_ms == 500,
            strs(c.patterns@) == seq!["*.md"@],
            strs(c.ignore_patterns@) == seq!["node_modules"@, ".git"@],
    {
        let mut patterns: Vec<String> = Vec::new();
        patterns.push(owned("*.md"));
        let mut ignore: Vec<String> = Vec::new();
        ignore.push(owned("node_modules"));
        ignore.push(owned(".git"));
        assert(strs(patterns@) =~= seq!["*.md"@]);
        assert(strs(ignore@) =~= seq!["node_modules"@, ".git"@]);
        WatchConfig { debounce_ms: 500, patterns, ignore_patterns: ignore }
    }

    /// How long to wait between rounds: `debounce_ms` milliseconds.
    pub fn debounce_duration(&self) -> (r: std::time::Duration)
        ensures
            r == spec_duration_from_millis(self.debounce_ms),
    {
        duration_from_millis(self.debounce_ms)
    }
}

impl Default for WatchConfig {
    fn default() -> (c: WatchConfig)
        ensures
            c.debounce_ms == 500,
            strs(c.patterns@) == seq!["*.md"@],
            strs(c.ignore_patterns@) == seq!["node_modules"@, ".git"@],
    {
        WatchConfig::default_config()
    }
}

/// Options of the watch command.
#[derive(Debug, Clone)]
pub struct WatchCommand {
    pub path: Option<String>,
    pub exec_cmd: Option<String>,
    pub debounce: u64,
    pub quiet: bool,
    pub verify: bool,
    pub hooks: Option<String>,
    pub max_iterations: usize,
}

/// The modification time recorded for a path, if any (the first record).
pub open spec fn known_time(known: Seq<(Seq<char>, u64)>, p: Seq<char>) -> Option<u64>
    decreases known.len(),
{
    if known.len() == 0 {
        None
    } else {
        match known_time(known.drop_last(), p) {
            Some(t) => Some(t),
            None => if known.last().0 == p { Some(known.last().1) } else { None },
        }
    }
}

/// The record with the time of a path set: replacing its first record,
/// or added at the end.
pub open spec fn set_time(known: Seq<(Seq<char>, u64)>, p: Seq<char>, t: u64) -> Seq<(Seq<char>, u64)>
    decreases known.len(),
{
    if known.len() == 0 {
        seq![(p, t)]
    } else if known_time(known.drop_last(), p) is Some {
        set_time(known.drop_last(), p, t).push(known.last())
    } else if known.last().0 == p {
        known.drop_last().push((p, t))
    } else {
        known.push((p, t))
    }
}

/// One polling round over the files seen, as (path, modification time):
/// a file with another time than recorded is modified, an unknown file is
/// created; each change updates the record. Gives (events, record).
pub open spec fn poll_round(known: Seq<(Seq<char>, u64)>, seen: Seq<(Seq<char>, u64)>) -> (Seq<(Seq<char>, WatchEventType)>, Seq<(Seq<char>, u64)>)
    decreases seen.len(),
{
    if seen.len() == 0 {
        (Seq::empty(), known)
    } else {
        let p = poll_round(known, seen.drop_last());
        let f = seen.last();
        match known_time(p.1, f.0) {
            Some(t) => if t != f.1 { (p.0.push((f.0, WatchEventType::Modified)), set_time(p.1, f.0, f.1)) } else { p },
            None => (p.0.push((f.0, WatchEventType::Created)), set_time(p.1, f.0, f.1)),
        }
    }
}

/// The views of records.
pub open spec fn times_view(v: Seq<(String, u64)>) -> Seq<(Seq<char>, u64)> {
    v.map_values(|x: (String, u64)| (x.0@, x.1))
}

/// The views of events.
pub open spec fn events_view(v: Seq<(String, WatchEventType)>) -> Seq<(Seq<char>, WatchEventType)> {
    v.map_values(|x: (String, WatchEventType)| (x.0@, x.1))
}

/// The hook commands of a hooks file for a changed file: its lines,
/// trimmed, that are neither empty nor comments, with `$FILE` replaced by
/// the file.
pub open spec fn hook_lines(ls: Seq<Seq<char>>, file: Seq<char>) -> Seq<Seq<char>>
    decreases ls.len(),
{
    if ls.len() == 0 {
        Seq::empty()
    } else {
        let p = hook_lines(ls.drop_last(), file);
        let t = spec_trim(ls.last());
        if t.len() > 0 && !spec_starts_with(t, "#"@) { p.push(spec_replace(t, "$FILE"@, file)) } else { p }
    }
}

/// Position of the first record of a path.
fn find_time(known: &Vec<(String, u64)>, p: &str) -> (r: Option<usize>)
    ensures
        match r {
            Some(k) => k < known@.len() && known@[k as int].0@ == p@
                && forall|j: int| 0 <= j < k ==> (#[trigger] known@[j]).0@ != p@,
            None => forall|j: int| 0 <= j < known@.len() ==> (#[trigger] known@[j]).0@ != p@,
        },
{
    let ghost kv = times_view(known@);
    let mut r: Option<usize> = None;
    let mut i: usize = 0;
    while i < known.len()
        invariant
            i <= known@.len(),
            kv == times_view(known@),
            match r {
                Some(k) => k < i && known@[k as int].0@ == p@
                    && forall|j: int| 0 <= j < k ==> (#[trigger] known@[j]).0@ != p@,
                None => forall|j: int| 0 <= j < i ==> (#[trigger] known@[j]).0@ != p@,
            },
        decreases known@.len() - i,
    {
        if r.is_none() && str_eq(known[i].0.as_str(), p) {
            r = Some(i);
        }
        i = i + 1;
    }
    r
}

proof fn lemma_set_time_at(known: Seq<(Seq<char>, u64)>, p: Seq<char>, t: u64, k: int)
    requires
        0 <= k < known.len(),
        known[k].0 == p,
        forall|j: int| 0 <= j < k ==> known[j].0 != p,
    ensures
        set_time(known, p, t) == known.update(k, (p, t)),
    decreases known.len(),
{
    if k < known.len() - 1 {
        lemma_known_time_at(known.drop_last(), p, k);
        lemma_set_time_at(known.drop_last(), p, t, k);
        assert(known.update(k, (p, t)) =~= known.drop_last().update(k, (p, t)).push(known.last()));
    } else {
        lemma_known_none(known.drop_last(), p);
        assert(known.drop_last().push((p, t)) =~= known.update(k, (p, t)));
    }
}

proof fn lemma_known_time_at(known: Seq<(Seq<char>, u64)>, p: Seq<char>, k: int)
    requires
        0 <= k < known.len(),
        known[k].0 == p,
        forall|j: int| 0 <= j < k ==> known[j].0 != p,
    ensures
        known_time(known, p) == Some(known[k].1),
    decreases known.len(),
{
    if k < known.len() - 1 {
        lemma_known_time_at(known.drop_last(), p, k);
    } else {
        lemma_known_none(known.drop_last(), p);
    }
}

proof fn lemma_set_time_none(known: Seq<(Seq<char>, u64)>, p: Seq<char>, t: u64)
    requires
        forall|j: int| 0 <= j < known.len() ==> known[j].0 != p,
    ensures
        set_time(known, p, t) == known.push((p, t)),
{
    if known.len() > 0 {
        lemma_known_none(known.drop_last(), p);
    }
}

proof fn lemma_known_none(known: Seq<(Seq<char>, u64)>, p: Seq<char>)
    requires
        forall|j: int| 0 <= j < known.len() ==> known[j].0 != p,
    ensures
        known_time(known, p) is None,
    decreases known.len(),
{
    if known.len() > 0 {
        lemma_known_none(known.drop_last(), p);
    }
}



impl WatchCommand {
    /// The settings of this watch: its debounce with the default patterns.
    pub fn config(&self) -> (c: WatchConfig)
        ensures
            c.debounce_ms == self.debounce,
            strs(c.patterns@) == seq!["*.md"@],
            strs(c.ignore_patterns@) == seq!["node_modules"@, ".git"@],
    {
        let d = WatchConfig::default_config();
        WatchConfig { debounce_ms: self.debounce, patterns: d.patterns, ignore_patterns: d.ignore_patterns }
    }

    /// How many rounds to poll: the maximum, or one when unbounded.
    pub fn rounds(&self) -> (n: usize)
        ensures
            n == if self.max_iterations == 0 { 1 } else { self.max_iterations },
    {
        if self.max_iterations == 0 { 1 } else { self.max_iterations }
    }

    /// One polling round (see [`poll_round`]): updates the record and gives
    /// the events in order.
    pub fn poll(&self, known: &mut Vec<(String, u64)>, seen: &Vec<(String, u64)>) -> (ev: Vec<(String, WatchEventType)>)
        ensures
            (events_view(ev@), times_view(final(known)@)) == poll_round(times_view(old(known)@), times_view(seen@)),
    {
        let ghost k0 = times_view(known@);
        let ghost sv = times_view(seen@);
        let mut ev: Vec<(String, WatchEventType)> = Vec::new();
        let mut i: usize = 0;
        assert(sv.subrange(0, 0) =~= Seq::<(Seq<char>, u64)>::empty());
        assert(events_view(ev@) =~= Seq::<(Seq<char>, WatchEventType)>::empty());
        while i < seen.len()
            invariant
                i <= seen@.len(),
                sv == times_view(seen@),
                (events_view(ev@), times_view(known@)) == poll_round(k0, sv.subrange(0, i as int)),
            decreases seen@.len() - i,
        {
            let ghost sub = sv.subrange(0, i + 1);
            assert(sub.drop_last() =~= sv.subrange(0, i as int));
            assert(sub.last() == (seen@[i as int].0@, seen@[i as int].1));
            let ghost kv = times_view(known@);
            let ghost e0 = events_view(ev@);
            let p = &seen[i].0;
            let t = seen[i].1;
            match find_time(known, p.as_str()) {
                Some(k) => {
                    proof {
                        let kk = k as int;
                        assert forall|j: int| 0 <= j < kk implies kv[j].0 != p@ by {
                            assert(kv[j].0 == known@[j].0@);
                        }
                        lemma_known_time_at(kv, p@, kk);
                    }
                    if known[k].1 != t {
                        proof {
                            let kk = k as int;
                            assert(kv[kk].0 == p@);
                            assert forall|j: int| 0 <= j < kk implies kv[j].0 != p@ by {
                                assert(kv[j].0 == known@[j].0@);
                            }
                            lemma_known_time_at(kv, p@, kk);
                            lemma_set_time_at(kv, p@, t, kk);
                        }
                        known.set(k, (owned(p.as_str()), t));
                        ev.push((owned(p.as_str()), WatchEventType::Modified));
                        assert(times_view(known@) =~= kv.update(k as int, (p@, t)));
                        assert(events_view(ev@) =~= e0.push((p@, WatchEventType::Modified)));
                    }
                },
                None => {
                    proof {
                        assert forall|j: int| 0 <= j < kv.len() implies kv[j].0 != p@ by {
                            assert(kv[j].0 == known@[j].0@);
                        }
                        lemma_known_none(kv, p@);
                        lemma_set_time_none(kv, p@, t);
                        if kv.len() > 0 {
                            assert(set_time(kv, p@, t) == kv.push((p@, t)));
                        } else {
                            assert(set_time(kv, p@, t) =~= kv.push((p@, t)));
                        }
                    }
                    known.push((owned(p.as_str()), t));
                    ev.push((owned(p.as_str()), WatchEventType::Created));
                    assert(times_view(known@) =~= kv.push((p@, t)));
                    assert(events_view(ev@) =~= e0.push((p@, WatchEventType::Created)));
                },
            }
            i = i + 1;
        }
        assert(sv.subrange(0, seen@.len() as int) =~= sv);
        ev
    }

    /// The hook commands to run for a changed file (see [`hook_lines`]).
    pub fn hook_commands(hooks: &str, file: &str) -> (v: Vec<String>)
        ensures
            strs(v@) == hook_lines(spec_lines(hooks@), file@),
    {
        let ls = lines(&chars_of(hooks));
        let ghost lv = views(ls@);
        let hash = chars_of("#");
        let mut v: Vec<String> = Vec::new();
        let mut i: usize = 0;
        assert(lv.subrange(0, 0) =~= Seq::<Seq<char>>::empty());
        while i < ls.len()
            invariant
                i <= ls@.len(),
                lv == views(ls@),
                lv == spec_lines(hooks@),
                hash@ == "#"@,
                strs(v@) == hook_lines(lv.subrange(0, i as int), file@),
            decreases ls@.len() - i,
        {
            let ghost sub = lv.subrange(0, i + 1);
            assert(sub.drop_last() =~= lv.subrange(0, i as int));
            assert(sub.last() == ls@[i as int]@);
            let t = trim(&ls[i]);
            if t.len() > 0 && !starts_with(&t, &hash) {
                let ghost v0 = strs(v@);
                proof {
                    reveal_strlit("$FILE");
                }
                let cmd = replace_str(string_of(&t).as_str(), "$FILE", file);
                v.push(cmd);
                assert(strs(v@) =~= v0.push(spec_replace(t@, "$FILE"@, file@)));
            }
            i = i + 1;
        }
        assert(lv.subrange(0, ls@.len() as int) =~= lv);
        v
    }

    /// The `--exec` command for a changed file: `$FILE` replaced by it.
    pub fn exec_command(command: &str, file: &str) -> (c: String)
        ensures
            c@ == spec_replace(command@, "$FILE"@, file@),
    {
        proof {
            reveal_strlit("$FILE");
        }
        replace_str(command, "$FILE", file)
    }
}


} // verus!

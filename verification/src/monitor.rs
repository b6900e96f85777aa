//! Deciding whether a watched program is running.
//!
//! This runs on a timer, every two seconds by default, so it is the only thing
//! the tool does repeatedly. The process ids come from one cheap system call,
//! and a pid's executable name never changes, so a name only has to be
//! resolved once and is then remembered. The [`Watcher`] holds those names
//! and makes every decision; the caller performs the two system calls it asks
//! for ([`Scan::ListProcesses`] and [`Scan::Resolve`]) and hands back what
//! they gave.
use vstd::prelude::*;
use std::collections::HashMap;
use crate::text::{lower, lower_char, lower_char_exec, push_char};

verus! {

broadcast use {vstd::std_specs::hash::group_hash_axioms, vstd::string::group_string_axioms};

/// The characters after the last `\` or `/` of a path: the file name.
pub open spec fn file_name(path: Seq<char>) -> Seq<char>
    decreases path.len(),
{
    if path.len() == 0 {
        path
    } else if path.last() == '\\' || path.last() == '/' {
        Seq::empty()
    } else {
        file_name(path.drop_last()).push(path.last())
    }
}

/// The lower case file name of an executable's full path, which is how the
/// process list is matched.
pub fn exe_file_name(path: &str) -> (r: String)
    ensures
        r@ == lower(file_name(path@)),
        r@.len() <= path@.len(),
        forall|i: int|
            0 <= i < r@.len() ==> #[trigger] r@[i] == lower_char(
                path@[path@.len() - r@.len() + i],
            ),
        forall|i: int|
            path@.len() - r@.len() <= i < path@.len() ==> #[trigger] path@[i] != '\\' && path@[i]
                != '/',
        r@.len() == path@.len() || path@[path@.len() - r@.len() - 1] == '\\' || path@[path@.len()
            - r@.len() - 1] == '/',
{
    let mut out = String::new();
    for c in it: path.chars()
        invariant
            it.seq() == path@,
            out@ == lower(file_name(path@.take(it.index() as int))),
    {
        let ghost pre = path@.take(it.index() as int);
        assert(path@.take(it.index() + 1).drop_last() =~= pre);
        if c == '\\' || c == '/' {
            out = String::new();
            assert(out@ =~= lower(file_name(path@.take(it.index() + 1))));
        } else {
            let l = lower_char_exec(c);
            push_char(&mut out, l);
            assert(out@ =~= lower(file_name(path@.take(it.index() + 1))));
        }
    }
    assert(path@.take(path@.len() as int) =~= path@);
    proof {
        lemma_file_name_after_last_separator(path@);
        let f = file_name(path@);
        assert forall|i: int| 0 <= i < out@.len() implies #[trigger] out@[i] == lower_char(
            path@[path@.len() - out@.len() + i],
        ) by {
            assert(out@[i] == lower_char(f[i]));
        }
    }
    out
}

/// The file name of a path is everything after its last `\\` or `/`, and
/// nothing less: a suffix of the path that holds no separator and is either
/// the whole path or comes right after a separator.
pub proof fn lemma_file_name_after_last_separator(path: Seq<char>)
    ensures
        file_name(path).len() <= path.len(),
        file_name(path) == path.subrange(path.len() - file_name(path).len(), path.len() as int),
        forall|i: int|
            path.len() - file_name(path).len() <= i < path.len() ==> #[trigger] path[i] != '\\'
                && path[i] != '/',
        file_name(path).len() == path.len() || path[path.len() - file_name(path).len() - 1]
            == '\\' || path[path.len() - file_name(path).len() - 1] == '/',
    decreases path.len(),
{
    if path.len() > 0 {
        let front = path.drop_last();
        lemma_file_name_after_last_separator(front);
        let f = file_name(front);
        if !(path.last() == '\\' || path.last() == '/') {
            assert(path.subrange(path.len() - f.len() - 1, path.len() as int) =~= f.push(path.last()));
            assert forall|i: int|
                path.len() - file_name(path).len() <= i < path.len() implies #[trigger] path[i]
                != '\\' && path[i] != '/' by {
                if i < path.len() - 1 {
                    assert(path[i] == front[i]);
                }
            }
            if f.len() < front.len() {
                assert(path[path.len() - file_name(path).len() - 1] == front[front.len() - f.len() - 1]);
            }
        } else {
            assert(path.subrange(path.len() as int, path.len() as int) =~= Seq::<char>::empty());
        }
    } else {
        assert(path.subrange(0, 0) =~= path);
    }
}

/// What the watcher needs next, or its answer.
#[derive(Debug, Clone, Copy, PartialEq, Eq, Structural)]
pub enum Scan {
    /// Hand over the current process id list (`pids_listed`).
    ListProcesses,
    /// Resolve this process id to its executable path (`name_resolved`).
    Resolve(u32),
    /// A watched program is running.
    Running,
    /// No watched program is running.
    NotRunning,
}

/// The view of a remembered name.
pub open spec fn known_name(o: Option<String>) -> Option<Seq<char>> {
    match o {
        Some(s) => Some(s@),
        None => None,
    }
}

/// Whether a resolved name is one of the watched ones.
pub open spec fn is_wanted(wanted: Seq<Seq<char>>, name: Option<Seq<char>>) -> bool {
    name matches Some(n) && wanted.contains(n)
}

/// The outcome of scanning the process ids from position `i` on: the first
/// id without a remembered name must be resolved, the first one with a
/// watched name ends the scan, and reaching the end means nothing watched is
/// running.
pub open spec fn scan_from(
    names: Map<u32, Option<Seq<char>>>,
    pids: Seq<u32>,
    i: int,
    wanted: Seq<Seq<char>>,
) -> Scan
    decreases pids.len() - i,
{
    if i < 0 || i >= pids.len() {
        Scan::NotRunning
    } else if !names.contains_key(pids[i]) {
        Scan::Resolve(pids[i])
    } else if is_wanted(wanted, names[pids[i]]) {
        Scan::Running
    } else {
        scan_from(names, pids, i + 1, wanted)
    }
}

/// Holds the resolved names between ticks so they are only looked up once.
pub struct Watcher {
    /// pid to its lower case executable name, or `None` when it could not be
    /// resolved. Storing the name rather than a match result matters: caching
    /// the result would bake in whichever watch list was current at the time,
    /// and would then keep answering with it after the user edits the list and
    /// reloads.
    seen: HashMap<u32, Option<String>>,
    /// The process ids of the last listing.
    pids: Vec<u32>,
}

impl Watcher {
    /// The remembered names, by process id.
    pub closed spec fn names(&self) -> Map<u32, Option<Seq<char>>> {
        self.seen@.map_values(|o: Option<String>| known_name(o))
    }

    /// The process ids of the last listing.
    pub closed spec fn pid_list(&self) -> Seq<u32> {
        self.pids@
    }

    pub fn new() -> (w: Self)
        ensures
            w.names() == Map::<u32, Option<Seq<char>>>::empty(),
            w.pid_list() == Seq::<u32>::empty(),
    {
        let w = Watcher { seen: HashMap::new(), pids: Vec::new() };
        assert(w.names() =~= Map::<u32, Option<Seq<char>>>::empty());
        w
    }

    /// Start answering whether any of the given executable names is running.
    ///
    /// `wanted` must already be lower cased, which is how the process list is
    /// stored. With nothing to watch the answer is no at once; otherwise the
    /// process ids are needed first.
    pub fn any_running(&self, wanted: &[String]) -> (r: Scan)
        ensures
            r == (if wanted@.len() == 0 {
                Scan::NotRunning
            } else {
                Scan::ListProcesses
            }),
    {
        if wanted.len() == 0 {
            Scan::NotRunning
        } else {
            Scan::ListProcesses
        }
    }

    /// Whether `name` is one of `wanted`.
    fn wants(wanted: &[String], name: &String) -> (r: bool)
        ensures
            r == wanted.deep_view().contains(name@),
    {
        let ghost w = wanted.deep_view();
        let mut j: usize = 0;
        while j < wanted.len()
            invariant
                j <= wanted@.len(),
                w == wanted.deep_view(),
                w.len() == wanted@.len(),
                forall|k: int| 0 <= k < j ==> w[k] != name@,
            decreases wanted@.len() - j,
        {
            assert(w[j as int] == wanted@[j as int]@);
            if wanted[j] == *name {
                return true;
            }
            j = j + 1;
        }
        false
    }

    /// Scan the listed process ids in order, with the names remembered now.
    fn scan(&self, wanted: &[String]) -> (r: Scan)
        ensures
            r == scan_from(self.names(), self.pids@, 0, wanted.deep_view()),
    {
        let ghost names = self.names();
        let ghost w = wanted.deep_view();
        let n = self.pids.len();
        let mut i: usize = 0;
        while i < n
            invariant
                n == self.pids@.len(),
                i <= n,
                names == self.names(),
                w == wanted.deep_view(),
                scan_from(names, self.pids@, 0, w) == scan_from(names, self.pids@, i as int, w),
            decreases n - i,
        {
            let pid = self.pids[i];
            match self.seen.get(&pid) {
                None => {
                    return Scan::Resolve(pid);
                },
                Some(entry) => {
                    assert(names[pid] == known_name(*entry));
                    match entry {
                        Some(name) => {
                            if Self::wants(wanted, name) {
                                return Scan::Running;
                            }
                        },
                        None => {},
                    }
                },
            }
            i = i + 1;
        }
        Scan::NotRunning
    }

    /// The process ids were listed. An empty list (the call failed, or there
    /// is nothing) means no; otherwise names of processes that have exited are
    /// forgotten, since ids are reused, and the scan starts.
    pub fn pids_listed(&mut self, wanted: &[String], pids: Vec<u32>) -> (r: Scan)
        ensures
            final(self).pid_list() == pids@,
            pids@.len() == 0 ==> r == Scan::NotRunning && final(self).names() == old(self).names(),
            pids@.len() > 0 ==> {
                &&& final(self).names() == old(self).names().restrict(pids@.to_set())
                &&& forall|k: u32| #[trigger] final(self).names().contains_key(k) ==> pids@.contains(k)
                &&& r == scan_from(final(self).names(), pids@, 0, wanted.deep_view())
            },
    {
        if pids.len() == 0 {
            self.pids = pids;
            return Scan::NotRunning;
        }
        let ghost old_names = self.names();
        let mut seen: HashMap<u32, Option<String>> = HashMap::new();
        std::mem::swap(&mut seen, &mut self.seen);
        let mut live: HashMap<u32, Option<String>> = HashMap::new();
        let mut i: usize = 0;
        while i < pids.len()
            invariant
                i <= pids@.len(),
                forall|k: u32|
                    #[trigger] live@.contains_key(k) ==> pids@.take(i as int).contains(k)
                        && old_names.contains_key(k),
                forall|k: u32|
                    #[trigger] seen@.contains_key(k) ==> !pids@.take(i as int).contains(k)
                        && old_names.contains_key(k) && old_names[k] == known_name(seen@[k]),
                forall|k: u32|
                    #[trigger] old_names.contains_key(k) && pids@.take(i as int).contains(k)
                        ==> live@.contains_key(k) && old_names[k] == known_name(live@[k]),
                forall|k: u32|
                    #[trigger] old_names.contains_key(k) && !pids@.take(i as int).contains(k)
                        ==> seen@.contains_key(k),
            decreases pids@.len() - i,
        {
            let pid = pids[i];
            let ghost pre = pids@.take(i as int);
            assert(pids@.take(i + 1) =~= pre.push(pid));
            match seen.remove(&pid) {
                Some(entry) => {
                    live.insert(pid, entry);
                },
                None => {},
            }
            proof {
                assert forall|k: u32| #[trigger] pre.push(pid).contains(k) <==> (pre.contains(k)
                    || k == pid) by {
                    if pre.push(pid).contains(k) {
                        let j = choose|j: int| 0 <= j < pre.push(pid).len() && pre.push(pid)[j] == k;
                        if j < pre.len() {
                            assert(pre[j] == k);
                        }
                    }
                    if pre.contains(k) {
                        let j = choose|j: int| 0 <= j < pre.len() && pre[j] == k;
                        assert(pre.push(pid)[j] == k);
                    }
                    if k == pid {
                        assert(pre.push(pid)[pre.len() as int] == k);
                    }
                }
            }
            i = i + 1;
        }
        assert(pids@.take(pids@.len() as int) =~= pids@);
        self.seen = live;
        self.pids = pids;
        assert(self.names() =~= old_names.restrict(self.pids@.to_set()));
        self.scan(wanted)
    }

    /// A process id asked for was resolved to this executable name (`None`
    /// when it could not be opened). The name is remembered and the scan
    /// goes on.
    pub fn name_resolved(&mut self, wanted: &[String], pid: u32, name: Option<String>) -> (r: Scan)
        ensures
            final(self).names() == old(self).names().insert(pid, known_name(name)),
            final(self).pid_list() == old(self).pid_list(),
            r == scan_from(final(self).names(), final(self).pid_list(), 0, wanted.deep_view()),
    {
        let ghost before = self.names();
        let ghost kn = known_name(name);
        let mut seen: HashMap<u32, Option<String>> = HashMap::new();
        std::mem::swap(&mut seen, &mut self.seen);
        seen.insert(pid, name);
        self.seen = seen;
        assert(self.names() =~= before.insert(pid, kn));
        self.scan(wanted)
    }
}

impl Default for Watcher {
    fn default() -> (w: Self)
        ensures
            w.names() == Map::<u32, Option<Seq<char>>>::empty(),
            w.pid_list() == Seq::<u32>::empty(),
    {
        Self::new()
    }
}

/// A scan only ever asks to resolve a listed process id whose name is not
/// remembered, so a process is resolved at most once while it lives.
pub proof fn lemma_resolve_only_unknown(
    names: Map<u32, Option<Seq<char>>>,
    pids: Seq<u32>,
    i: int,
    wanted: Seq<Seq<char>>,
    pid: u32,
)
    requires
        scan_from(names, pids, i, wanted) == Scan::Resolve(pid),
    ensures
        !names.contains_key(pid),
        pids.contains(pid),
    decreases pids.len() - i,
{
    if 0 <= i < pids.len() && names.contains_key(pids[i]) && !is_wanted(wanted, names[pids[i]]) {
        lemma_resolve_only_unknown(names, pids, i + 1, wanted, pid);
    }
}

/// Once every listed process has a remembered name, the answer is yes exactly
/// when one of them is a watched name, judged against the watch list of this
/// call: the names are remembered, never an earlier verdict.
pub proof fn lemma_scan_complete(
    names: Map<u32, Option<Seq<char>>>,
    pids: Seq<u32>,
    i: int,
    wanted: Seq<Seq<char>>,
)
    requires
        0 <= i <= pids.len(),
        forall|k: int| 0 <= k < pids.len() ==> names.contains_key(#[trigger] pids[k]),
    ensures
        scan_from(names, pids, i, wanted) == (if exists|k: int|
            i <= k < pids.len() && is_wanted(wanted, names[#[trigger] pids[k]]) {
            Scan::Running
        } else {
            Scan::NotRunning
        }),
    decreases pids.len() - i,
{
    if i < pids.len() {
        lemma_scan_complete(names, pids, i + 1, wanted);
        if is_wanted(wanted, names[pids[i]]) {
            assert(i <= i < pids.len() && is_wanted(wanted, names[pids[i]]));
        } else {
            if exists|k: int| i + 1 <= k < pids.len() && is_wanted(wanted, names[#[trigger] pids[k]]) {
                let k = choose|k: int| i + 1 <= k < pids.len() && is_wanted(wanted, names[#[trigger] pids[k]]);
                assert(i <= k < pids.len());
            }
            if exists|k: int| i <= k < pids.len() && is_wanted(wanted, names[#[trigger] pids[k]]) {
                let k = choose|k: int| i <= k < pids.len() && is_wanted(wanted, names[#[trigger] pids[k]]);
                assert(k != i);
            }
        }
    }
}

/// Whether remembered names are the names the process ids really have:
/// `truth` gives each live process id its lower case executable name, or
/// `None` when it cannot be opened.
pub open spec fn names_true(
    names: Map<u32, Option<Seq<char>>>,
    truth: spec_fn(u32) -> Option<Seq<char>>,
) -> bool {
    forall|p: u32| #[trigger] names.contains_key(p) ==> names[p] == truth(p)
}

/// Whether a watched program is among the listed processes, judged by their
/// true names.
pub open spec fn truly_running(
    pids: Seq<u32>,
    wanted: Seq<Seq<char>>,
    truth: spec_fn(u32) -> Option<Seq<char>>,
) -> bool {
    exists|k: int| 0 <= k < pids.len() && is_wanted(wanted, truth(#[trigger] pids[k]))
}

/// Whether a scan step is a final answer.
pub open spec fn is_answer(s: Scan) -> bool {
    s == Scan::Running || s == Scan::NotRunning
}

/// A scan's answer, from position `i` on, is the truth about the ids from
/// there.
proof fn lemma_scan_truthful_from(
    names: Map<u32, Option<Seq<char>>>,
    pids: Seq<u32>,
    i: int,
    wanted: Seq<Seq<char>>,
    truth: spec_fn(u32) -> Option<Seq<char>>,
)
    requires
        names_true(names, truth),
        0 <= i <= pids.len(),
    ensures
        scan_from(names, pids, i, wanted) == Scan::Running ==> exists|k: int|
            i <= k < pids.len() && is_wanted(wanted, truth(#[trigger] pids[k])),
        scan_from(names, pids, i, wanted) == Scan::NotRunning ==> forall|k: int|
            i <= k < pids.len() ==> !is_wanted(wanted, truth(#[trigger] pids[k])),
    decreases pids.len() - i,
{
    if i < pids.len() {
        lemma_scan_truthful_from(names, pids, i + 1, wanted, truth);
        if names.contains_key(pids[i]) {
            assert(names[pids[i]] == truth(pids[i]));
        }
    }
}

/// The scan tells the truth. With remembered names that are true, a scan
/// says yes only when a listed process truly has a watched name, says no only
/// when none has, and otherwise asks to resolve a listed id it does not know
/// yet. The names a scan remembers are true whatever the watch list, so every
/// answer is judged against the watch list of its own call.
pub proof fn lemma_scan_truthful(
    names: Map<u32, Option<Seq<char>>>,
    pids: Seq<u32>,
    wanted: Seq<Seq<char>>,
    truth: spec_fn(u32) -> Option<Seq<char>>,
)
    requires
        names_true(names, truth),
    ensures
        scan_from(names, pids, 0, wanted) == Scan::Running ==> truly_running(pids, wanted, truth),
        scan_from(names, pids, 0, wanted) == Scan::NotRunning ==> !truly_running(
            pids,
            wanted,
            truth,
        ),
        scan_from(names, pids, 0, wanted) matches Scan::Resolve(p) ==> pids.contains(p)
            && !names.contains_key(p),
        scan_from(names, pids, 0, wanted) != Scan::ListProcesses,
{
    lemma_scan_truthful_from(names, pids, 0, wanted, truth);
    match scan_from(names, pids, 0, wanted) {
        Scan::Resolve(p) => lemma_resolve_only_unknown(names, pids, 0, wanted, p),
        _ => {},
    }
    lemma_scan_never_lists(names, pids, 0, wanted);
}

proof fn lemma_scan_never_lists(
    names: Map<u32, Option<Seq<char>>>,
    pids: Seq<u32>,
    i: int,
    wanted: Seq<Seq<char>>,
)
    ensures
        scan_from(names, pids, i, wanted) != Scan::ListProcesses,
    decreases pids.len() - i,
{
    if 0 <= i < pids.len() {
        lemma_scan_never_lists(names, pids, i + 1, wanted);
    }
}

/// The watcher's steps keep its names true: forgetting the ids that are no
/// longer listed, and remembering the name an id was resolved to.
pub proof fn lemma_steps_keep_names_true(
    names: Map<u32, Option<Seq<char>>>,
    live: Set<u32>,
    pid: u32,
    truth: spec_fn(u32) -> Option<Seq<char>>,
)
    requires
        names_true(names, truth),
    ensures
        names_true(names.restrict(live), truth),
        names_true(names.insert(pid, truth(pid)), truth),
{
}

/// An answer never depends on an earlier watch list, or on anything else a
/// watcher went through before: two watchers whose remembered names are true,
/// one fresh and one that has scanned for other programs, answer alike once
/// each has an answer for the same processes and watch list.
pub proof fn lemma_answer_ignores_history(
    earlier: Map<u32, Option<Seq<char>>>,
    fresh: Map<u32, Option<Seq<char>>>,
    pids: Seq<u32>,
    wanted: Seq<Seq<char>>,
    truth: spec_fn(u32) -> Option<Seq<char>>,
)
    requires
        names_true(earlier, truth),
        names_true(fresh, truth),
        is_answer(scan_from(earlier, pids, 0, wanted)),
        is_answer(scan_from(fresh, pids, 0, wanted)),
    ensures
        scan_from(earlier, pids, 0, wanted) == scan_from(fresh, pids, 0, wanted),
{
    lemma_scan_truthful(earlier, pids, wanted, truth);
    lemma_scan_truthful(fresh, pids, wanted, truth);
}

/// Adding names to the watch list never turns yes into no: with the same
/// processes, when a watch list gets yes, any list holding all its names gets
/// yes too.
pub proof fn lemma_more_names_keep_yes(
    names1: Map<u32, Option<Seq<char>>>,
    names2: Map<u32, Option<Seq<char>>>,
    pids: Seq<u32>,
    w1: Seq<Seq<char>>,
    w2: Seq<Seq<char>>,
    truth: spec_fn(u32) -> Option<Seq<char>>,
)
    requires
        names_true(names1, truth),
        names_true(names2, truth),
        forall|n: Seq<char>| #[trigger] w1.contains(n) ==> w2.contains(n),
        scan_from(names1, pids, 0, w1) == Scan::Running,
        is_answer(scan_from(names2, pids, 0, w2)),
    ensures
        scan_from(names2, pids, 0, w2) == Scan::Running,
{
    lemma_scan_truthful(names1, pids, w1, truth);
    lemma_scan_truthful(names2, pids, w2, truth);
    let k = choose|k: int| 0 <= k < pids.len() && is_wanted(w1, truth(#[trigger] pids[k]));
    assert(is_wanted(w2, truth(pids[k])));
}

} // verus!

//! The game session tracker.
//!
//! A single-writer state machine holding the registry of known games and the
//! table of currently-running tracked processes.  It applies start/stop
//! events, resolves path-matching ambiguity, suppresses duplicate
//! deliveries, tolerates stop notifications racing ahead of starts, and
//! returns the consumer-facing creation/termination events to emit.

use vstd::prelude::*;

use crate::events::{
    event_models, EventModel, ProcessEvent, ProcessEventType, ProcessInfo, ProcessMessage,
    ProcessStatus,
};
use crate::paths::{
    chars_of, is_key_match, key_for, key_matches, key_of, normalize_query, normalized_query,
    rfind_backslash, rfind_sep, str_eq,
};
use crate::registry::{
    map_of, pair_models, pairs_distinct, registry_get, registry_insert, registry_remove_id,
};
use crate::text::{lower_of, lowercase};

verus! {

/// One currently-running tracked process.
pub struct RunningEntry {
    pub key: String,
    pub pid: u32,
    pub status: ProcessStatus,
    pub path: String,
    pub game_id: String,
}

/// Mathematical model of a running-table entry.
pub struct EntryModel {
    pub key: Seq<char>,
    pub pid: u32,
    pub status: ProcessStatus,
    pub path: Seq<char>,
    pub game_id: Seq<char>,
}

impl View for RunningEntry {
    type V = EntryModel;

    open spec fn view(&self) -> EntryModel {
        EntryModel {
            key: self.key@,
            pid: self.pid,
            status: self.status,
            path: self.path@,
            game_id: self.game_id@,
        }
    }
}

/// The models of a sequence of running entries.
pub open spec fn entry_models(s: Seq<RunningEntry>) -> Seq<EntryModel> {
    s.map_values(|e: RunningEntry| e@)
}

/// Whether some entry of `s` has key `k`.
pub open spec fn has_entry_key(s: Seq<EntryModel>, k: Seq<char>) -> bool {
    exists|i: int| 0 <= i < s.len() && s[i].key == k
}

/// Whether the keys of `s` are pairwise distinct.
pub open spec fn entries_distinct(s: Seq<EntryModel>) -> bool {
    forall|i: int, j: int| 0 <= i < j < s.len() ==> s[i].key != s[j].key
}

/// Whether every entry's key is built from its own path and pid.
pub open spec fn entries_keyed(s: Seq<EntryModel>) -> bool {
    forall|i: int| 0 <= i < s.len() ==> s[i].key == key_of(s[i].path, s[i].pid)
}

/// The index of the first entry with key `k`, or `-1`.
pub open spec fn find_key(s: Seq<EntryModel>, k: Seq<char>) -> int
    decreases s.len(),
{
    if s.len() == 0 {
        -1
    } else if s[0].key == k {
        0
    } else {
        let r = find_key(s.drop_first(), k);
        if r == -1 {
            -1
        } else {
            r + 1
        }
    }
}

/// What `find_key` returns: the first index carrying `k`, or `-1` when no
/// entry carries it.
pub proof fn lemma_find_key(s: Seq<EntryModel>, k: Seq<char>)
    ensures
        find_key(s, k) == -1 ==> !has_entry_key(s, k),
        find_key(s, k) != -1 ==> {
            let r = find_key(s, k);
            &&& 0 <= r < s.len()
            &&& s[r].key == k
            &&& forall|m: int| 0 <= m < r ==> s[m].key != k
        },
    decreases s.len(),
{
    if s.len() > 0 && s[0].key != k {
        lemma_find_key(s.drop_first(), k);
        if find_key(s, k) == -1 && has_entry_key(s, k) {
            let i = choose|i: int| 0 <= i < s.len() && s[i].key == k;
            assert(s.drop_first()[i - 1] == s[i]);
        }
        if find_key(s, k) != -1 {
            let r = find_key(s, k);
            assert forall|m: int| 0 <= m < r implies s[m].key != k by {
                if m > 0 {
                    assert(s.drop_first()[m - 1] == s[m]);
                }
            }
        }
    }
}

/// The index of the first live (`Started`) entry with pid `pid`, or `-1`.
pub open spec fn find_live_pid(s: Seq<EntryModel>, pid: u32) -> int
    decreases s.len(),
{
    if s.len() == 0 {
        -1
    } else if s[0].pid == pid && s[0].status == ProcessStatus::Started {
        0
    } else {
        let r = find_live_pid(s.drop_first(), pid);
        if r == -1 {
            -1
        } else {
            r + 1
        }
    }
}

/// The game id of the first live entry with pid `pid`, if any.
pub open spec fn live_game_for_pid(s: Seq<EntryModel>, pid: u32) -> Option<Seq<char>> {
    let i = find_live_pid(s, pid);
    if i == -1 {
        None
    } else {
        Some(s[i].game_id)
    }
}

/// What `find_live_pid` returns: the first live index with that pid, or
/// `-1` when there is none.
pub proof fn lemma_find_live_pid(s: Seq<EntryModel>, pid: u32)
    ensures
        find_live_pid(s, pid) == -1 ==> forall|i: int|
            0 <= i < s.len() ==> !(s[i].pid == pid && #[trigger] s[i].status
                == ProcessStatus::Started),
        find_live_pid(s, pid) != -1 ==> {
            let r = find_live_pid(s, pid);
            &&& 0 <= r < s.len()
            &&& s[r].pid == pid && s[r].status == ProcessStatus::Started
            &&& forall|m: int|
                0 <= m < r ==> !(s[m].pid == pid && #[trigger] s[m].status
                    == ProcessStatus::Started)
        },
    decreases s.len(),
{
    if s.len() > 0 && !(s[0].pid == pid && s[0].status == ProcessStatus::Started) {
        lemma_find_live_pid(s.drop_first(), pid);
        assert(forall|i: int| 1 <= i < s.len() ==> s.drop_first()[i - 1] == s[i]);
    }
}

/// A new running-table entry.
pub open spec fn entry_model(
    l_path: Seq<char>,
    pid: u32,
    status: ProcessStatus,
    id: Seq<char>,
) -> EntryModel {
    EntryModel { key: key_of(l_path, pid), pid: pid, status: status, path: l_path, game_id: id }
}

/// A creation event for a newly-tracked process.
pub open spec fn creation_model(l_path: Seq<char>, pid: u32, id: Seq<char>) -> EventModel {
    EventModel {
        event_type: ProcessEventType::Creation,
        full_path: l_path,
        pid: pid,
        id: id,
    }
}

/// A termination event for a tracked process that stopped.
pub open spec fn termination_model(l_path: Seq<char>, pid: u32, id: Seq<char>) -> EventModel {
    EventModel {
        event_type: ProcessEventType::Termination,
        full_path: l_path,
        pid: pid,
        id: id,
    }
}

/// Resolves a lower-cased full path against the registry: the path's parent
/// directory first, then the full path, then the bare executable name; the
/// first hit wins.
pub open spec fn lookup_id(m: Map<Seq<char>, Seq<char>>, p: Seq<char>) -> Option<Seq<char>> {
    match rfind_sep(p) {
        Some(j) => {
            let dir = p.subrange(0, j);
            let exe = p.subrange(j + 1, p.len() as int);
            if m.contains_key(dir) {
                Some(m[dir])
            } else if m.contains_key(p) {
                Some(m[p])
            } else if m.contains_key(exe) {
                Some(m[exe])
            } else {
                None
            }
        },
        None => {
            if m.contains_key(p) {
                Some(m[p])
            } else {
                None
            }
        },
    }
}

/// The running table after one path-carrying lifecycle event for the
/// lower-cased path `l_path`.
///
/// A `Started` event for a key already marked `Terminated` only clears that
/// stale placeholder: the stop notification of a previous instance raced
/// ahead of this start.  A `Terminated` event for an unknown key inserts a
/// placeholder in anticipation of the delayed start.  Exact duplicates are
/// ignored.
pub open spec fn wmi_next(
    m: Map<Seq<char>, Seq<char>>,
    running: Seq<EntryModel>,
    l_path: Seq<char>,
    pid: u32,
    status: ProcessStatus,
) -> Seq<EntryModel> {
    match lookup_id(m, l_path) {
        None => running,
        Some(id) => {
            let key = key_of(l_path, pid);
            let i = find_key(running, key);
            match status {
                ProcessStatus::Started => {
                    if i >= 0 {
                        if running[i].status == ProcessStatus::Terminated {
                            running.remove(i)
                        } else {
                            running
                        }
                    } else {
                        running.push(entry_model(l_path, pid, ProcessStatus::Started, id))
                    }
                },
                ProcessStatus::Terminated => {
                    if i >= 0 {
                        if running[i].status == ProcessStatus::Started {
                            running.remove(i)
                        } else {
                            running
                        }
                    } else {
                        running.push(entry_model(l_path, pid, ProcessStatus::Terminated, id))
                    }
                },
            }
        },
    }
}

/// The events emitted for one path-carrying lifecycle event: one creation
/// for a fresh start, one termination for a stop of a live entry, nothing
/// otherwise.
pub open spec fn wmi_emits(
    m: Map<Seq<char>, Seq<char>>,
    running: Seq<EntryModel>,
    l_path: Seq<char>,
    pid: u32,
    status: ProcessStatus,
) -> Seq<EventModel> {
    match lookup_id(m, l_path) {
        None => Seq::empty(),
        Some(id) => {
            let key = key_of(l_path, pid);
            let i = find_key(running, key);
            match status {
                ProcessStatus::Started => {
                    if i >= 0 {
                        Seq::empty()
                    } else {
                        seq![creation_model(l_path, pid, id)]
                    }
                },
                ProcessStatus::Terminated => {
                    if i >= 0 && running[i].status == ProcessStatus::Started {
                        seq![termination_model(l_path, pid, id)]
                    } else {
                        Seq::empty()
                    }
                },
            }
        },
    }
}

/// The entries that survive removal of a game id: those of another game.
pub open spec fn other_game_id(id: Seq<char>) -> spec_fn(EntryModel) -> bool {
    |e: EntryModel| e.game_id != id
}

/// The entries that survive a termination-by-pid: those with another pid.
pub open spec fn other_pid(pid: u32) -> spec_fn(EntryModel) -> bool {
    |e: EntryModel| e.pid != pid
}

/// The entries removed by a termination-by-pid: those with that pid.
pub open spec fn same_pid(pid: u32) -> spec_fn(EntryModel) -> bool {
    |e: EntryModel| e.pid == pid
}

/// The running table after a kernel-trace stop record, which carries only a
/// pid: every entry with that pid leaves.
pub open spec fn etw_stop_next(running: Seq<EntryModel>, pid: u32) -> Seq<EntryModel> {
    running.filter(other_pid(pid))
}

/// The events emitted for a kernel-trace stop record: one termination per
/// removed entry, in table order.
pub open spec fn etw_stop_emits(running: Seq<EntryModel>, pid: u32) -> Seq<EventModel> {
    running.filter(same_pid(pid)).map_values(
        |e: EntryModel| termination_model(e.path, e.pid, e.game_id),
    )
}

/// The running table after a kernel-trace start record, which carries a
/// path: as for a path-carrying start, except that any entry under the same
/// key, of either status, makes the record a duplicate.
pub open spec fn etw_start_next(
    m: Map<Seq<char>, Seq<char>>,
    running: Seq<EntryModel>,
    l_path: Seq<char>,
    pid: u32,
) -> Seq<EntryModel> {
    match lookup_id(m, l_path) {
        None => running,
        Some(id) => {
            if has_entry_key(running, key_of(l_path, pid)) {
                running
            } else {
                running.push(entry_model(l_path, pid, ProcessStatus::Started, id))
            }
        },
    }
}

/// The events emitted for a kernel-trace start record.
pub open spec fn etw_start_emits(
    m: Map<Seq<char>, Seq<char>>,
    running: Seq<EntryModel>,
    l_path: Seq<char>,
    pid: u32,
) -> Seq<EventModel> {
    match lookup_id(m, l_path) {
        None => Seq::empty(),
        Some(id) => {
            if has_entry_key(running, key_of(l_path, pid)) {
                Seq::empty()
            } else {
                seq![creation_model(l_path, pid, id)]
            }
        },
    }
}

/// The pid and path of each snapshot entry.
pub open spec fn proc_models(s: Seq<ProcessInfo>) -> Seq<(u32, Seq<char>)> {
    s.map_values(|p: ProcessInfo| (p.pid, p.full_path@))
}

/// The running table after a whole process snapshot is fed in as synthetic
/// start events, front to back.
pub open spec fn snapshot_next(
    m: Map<Seq<char>, Seq<char>>,
    running: Seq<EntryModel>,
    procs: Seq<(u32, Seq<char>)>,
) -> Seq<EntryModel>
    decreases procs.len(),
{
    if procs.len() == 0 {
        running
    } else {
        snapshot_next(
            m,
            wmi_next(m, running, lower_of(procs[0].1), procs[0].0, ProcessStatus::Started),
            procs.drop_first(),
        )
    }
}

/// The events emitted while a whole process snapshot is fed in.
pub open spec fn snapshot_emits(
    m: Map<Seq<char>, Seq<char>>,
    running: Seq<EntryModel>,
    procs: Seq<(u32, Seq<char>)>,
) -> Seq<EventModel>
    decreases procs.len(),
{
    if procs.len() == 0 {
        Seq::empty()
    } else {
        wmi_emits(m, running, lower_of(procs[0].1), procs[0].0, ProcessStatus::Started)
            + snapshot_emits(
            m,
            wmi_next(m, running, lower_of(procs[0].1), procs[0].0, ProcessStatus::Started),
            procs.drop_first(),
        )
    }
}

/// The registry after a sequence of pattern/id registrations; later
/// registrations of the same lower-cased pattern win, and registration
/// stops at the shorter of the two lists.
pub open spec fn register_from(
    m: Map<Seq<char>, Seq<char>>,
    paths: Seq<Seq<char>>,
    ids: Seq<Seq<char>>,
) -> Map<Seq<char>, Seq<char>>
    decreases paths.len(),
{
    if paths.len() == 0 || ids.len() == 0 {
        m
    } else {
        register_from(m.insert(lower_of(paths[0]), ids[0]), paths.drop_first(), ids.drop_first())
    }
}

/// The single-writer tracker state: the known-game registry and the
/// running-process table.
pub struct GameManager {
    pub(crate) known_games: Vec<(String, String)>,
    pub(crate) running: Vec<RunningEntry>,
}

impl GameManager {
    /// The pattern-to-id dictionary, keyed by lower-cased pattern.
    pub open(crate) spec fn games(&self) -> Map<Seq<char>, Seq<char>> {
        map_of(pair_models(self.known_games@))
    }

    /// The running table, in insertion order.
    pub open(crate) spec fn running_models(&self) -> Seq<EntryModel> {
        entry_models(self.running@)
    }

    /// Internal consistency: registry keys are distinct, running keys are
    /// distinct, and each running key is built from its entry's path and
    /// pid.
    pub open(crate) spec fn wf(&self) -> bool {
        &&& pairs_distinct(pair_models(self.known_games@))
        &&& entries_distinct(self.running_models())
        &&& entries_keyed(self.running_models())
    }

    /// An empty tracker: no known games, nothing running.
    pub fn new() -> (r: GameManager)
        ensures
            r.wf(),
            r.games() == Map::<Seq<char>, Seq<char>>::empty(),
            r.running_models() == Seq::<EntryModel>::empty(),
    {
        let r = GameManager { known_games: Vec::new(), running: Vec::new() };
        proof {
            assert(r.running_models() =~= Seq::<EntryModel>::empty());
        }
        r
    }

    /// Replaces the whole registry by the given pattern/id pairs.
    #[verifier::loop_isolation(false)]
    pub fn init_known_games(&mut self, pathes: Vec<String>, ids: Vec<String>)
        requires
            old(self).wf(),
        ensures
            final(self).wf(),
            final(self).games() == register_from(
                Map::<Seq<char>, Seq<char>>::empty(),
                pathes@.map_values(|p: String| p@),
                ids@.map_values(|s: String| s@),
            ),
            final(self).running_models() == old(self).running_models(),
    {
        let ghost all_paths = pathes@.map_values(|p: String| p@);
        let ghost all_ids = ids@.map_values(|s: String| s@);
        self.known_games.clear();
        proof {
            assert(pair_models(self.known_games@) =~= Seq::<(Seq<char>, Seq<char>)>::empty());
            assert(self.games() =~= Map::<Seq<char>, Seq<char>>::empty());
            assert(all_paths.subrange(0, all_paths.len() as int) =~= all_paths);
            assert(all_ids.subrange(0, all_ids.len() as int) =~= all_ids);
        }
        let n = if pathes.len() < ids.len() {
            pathes.len()
        } else {
            ids.len()
        };
        let mut i: usize = 0;
        while i < n
            invariant
                i <= n,
                self.running == old(self).running,
                pairs_distinct(pair_models(self.known_games@)),
                register_from(
                    self.games(),
                    all_paths.subrange(i as int, all_paths.len() as int),
                    all_ids.subrange(i as int, all_ids.len() as int),
                ) == register_from(Map::<Seq<char>, Seq<char>>::empty(), all_paths, all_ids),
            decreases n - i,
        {
            let l_path = lowercase(pathes[i].as_str());
            let id = ids[i].clone();
            let ghost ps = all_paths.subrange(i as int, all_paths.len() as int);
            let ghost is = all_ids.subrange(i as int, all_ids.len() as int);
            registry_insert(&mut self.known_games, l_path, id);
            proof {
                assert(ps[0] == all_paths[i as int]);
                assert(is[0] == all_ids[i as int]);
                assert(ps.drop_first() =~= all_paths.subrange(i + 1, all_paths.len() as int));
                assert(is.drop_first() =~= all_ids.subrange(i + 1, all_ids.len() as int));
            }
            i = i + 1;
        }
        proof {
            let ps = all_paths.subrange(n as int, all_paths.len() as int);
            let is = all_ids.subrange(n as int, all_ids.len() as int);
            assert(ps.len() == 0 || is.len() == 0);
        }
    }

    /// Registers one more pattern for a game id, replacing any game
    /// registered under the same lower-cased pattern.
    pub fn add_known_game(&mut self, path: String, id: String)
        requires
            old(self).wf(),
        ensures
            final(self).wf(),
            final(self).games() == old(self).games().insert(lower_of(path@), id@),
            final(self).running_models() == old(self).running_models(),
    {
        let l_path = lowercase(path.as_str());
        registry_insert(&mut self.known_games, l_path, id);
    }

    /// Removes a game by id: every pattern registered for it leaves the
    /// registry, and every running instance of it leaves the running table.
    #[verifier::loop_isolation(false)]
    pub fn remove_known_game(&mut self, id: &str)
        requires
            old(self).wf(),
        ensures
            final(self).wf(),
            final(self).games() == Map::<Seq<char>, Seq<char>>::new(
                |k: Seq<char>| old(self).games().contains_key(k) && old(self).games()[k] != id@,
                |k: Seq<char>| old(self).games()[k],
            ),
            final(self).running_models() == old(self).running_models().filter(other_game_id(id@)),
    {
        registry_remove_id(&mut self.known_games, id);
        let ghost m = entry_models(self.running@);
        let ghost pred = other_game_id(id@);
        let n = self.running.len();
        let mut kept: Vec<RunningEntry> = Vec::new();
        let mut i: usize = 0;
        while i < n
            invariant
                i <= n,
                n == self.running@.len(),
                self.running == old(self).running,
                m == entry_models(self.running@),
                entry_models(kept@) == entry_models(self.running@.subrange(0, i as int)).filter(
                    pred,
                ),
            decreases n - i,
        {
            let ghost prev = entry_models(kept@);
            let e = &self.running[i];
            if !str_eq(e.game_id.as_str(), id) {
                let copied = RunningEntry {
                    key: e.key.clone(),
                    pid: e.pid,
                    status: e.status,
                    path: e.path.clone(),
                    game_id: e.game_id.clone(),
                };
                kept.push(copied);
                proof {
                    reveal(Seq::filter);
                    let ext = entry_models(self.running@.subrange(0, i + 1));
                    assert(ext.drop_last() =~= entry_models(self.running@.subrange(0, i as int)));
                    assert(ext.last() == self.running@[i as int]@);
                    assert(pred(ext.last()));
                    assert(entry_models(kept@) =~= prev.push(ext.last()));
                    assert(entry_models(kept@) =~= ext.filter(pred));
                }
            } else {
                proof {
                    reveal(Seq::filter);
                    let ext = entry_models(self.running@.subrange(0, i + 1));
                    assert(ext.drop_last() =~= entry_models(self.running@.subrange(0, i as int)));
                    assert(ext.last() == self.running@[i as int]@);
                    assert(!pred(ext.last()));
                    assert(entry_models(kept@) =~= ext.filter(pred));
                }
            }
            i = i + 1;
        }
        proof {
            assert(self.running@.subrange(0, n as int) =~= self.running@);
            lemma_entries_filter_distinct(m, pred);
            lemma_entries_filter_sub(m, pred);
            let f = m.filter(pred);
            assert forall|w: int| 0 <= w < f.len() implies f[w].key == key_of(
                f[w].path,
                f[w].pid,
            ) by {
                let v = choose|v: int| 0 <= v < m.len() && m[v] == f[w];
            }
        }
        self.running = kept;
    }

    /// Looks a lower-cased path up in the registry, exactly as given.
    pub fn get_known_game_id_exact<'a>(&'a self, l_path: &str) -> (r: Option<&'a String>)
        requires
            self.wf(),
        ensures
            match r {
                Some(id) => self.games().contains_key(l_path@) && id@ == self.games()[l_path@],
                None => !self.games().contains_key(l_path@),
            },
    {
        registry_get(&self.known_games, l_path)
    }

    /// Resolves a lower-cased full path: parent directory first, then the
    /// full path, then the bare executable name.
    pub fn get_known_game_id<'a>(&'a self, l_path: &str) -> (r: Option<&'a String>)
        requires
            self.wf(),
        ensures
            match r {
                Some(id) => lookup_id(self.games(), l_path@) == Some(id@),
                None => lookup_id(self.games(), l_path@) == None::<Seq<char>>,
            },
    {
        proof {
            crate::paths::lemma_rfind_sep_props(l_path@);
        }
        let j = match rfind_backslash(l_path) {
            Some(j) => j,
            None => {
                return self.get_known_game_id_exact(l_path);
            },
        };
        let n = l_path.unicode_len();
        let l_dir = l_path.substring_char(0, j);
        let l_exe = l_path.substring_char(j + 1, n);
        let by_dir = self.get_known_game_id_exact(l_dir);
        if by_dir.is_some() {
            return by_dir;
        }
        let by_path = self.get_known_game_id_exact(l_path);
        if by_path.is_some() {
            return by_path;
        }
        self.get_known_game_id_exact(l_exe)
    }

    /// Whether some running-table key matches the given path: for a folder
    /// query, as `<path>\<single-segment>-<digits>`; otherwise as
    /// `<path>-<digits>`.  The query is lower-cased, its separators unified,
    /// and trailing separators dropped before matching.
    pub fn is_running(&self, path: &str, as_folder: bool) -> (r: bool)
        requires
            self.wf(),
        ensures
            r == exists|i: int|
                0 <= i < self.running_models().len() && key_matches(
                    normalized_query(lower_of(path@)),
                    #[trigger] self.running_models()[i].key,
                    as_folder,
                ),
    {
        let l_path = lowercase(path);
        let q = normalize_query(l_path.as_str());
        let n = self.running.len();
        let mut i: usize = 0;
        while i < n
            invariant
                i <= n,
                n == self.running@.len(),
                q@ == normalized_query(lower_of(path@)),
                forall|m: int|
                    0 <= m < i ==> !key_matches(
                        q@,
                        #[trigger] entry_models(self.running@)[m].key,
                        as_folder,
                    ),
            decreases n - i,
        {
            let k = chars_of(self.running[i].key.as_str());
            if is_key_match(&q, &k, as_folder) {
                proof {
                    assert(entry_models(self.running@)[i as int] == self.running@[i as int]@);
                    assert(key_matches(
                        normalized_query(lower_of(path@)),
                        self.running_models()[i as int].key,
                        as_folder,
                    ));
                }
                return true;
            }
            i = i + 1;
        }
        false
    }

    /// The game id of the first live running entry with pid `pid`, used by
    /// the foreground debouncer to attribute a foreground window to a
    /// tracked game.
    #[verifier::loop_isolation(false)]
    pub fn live_game_for_pid<'a>(&'a self, pid: u32) -> (r: Option<&'a String>)
        ensures
            match r {
                Some(id) => live_game_for_pid(self.running_models(), pid) == Some(id@),
                None => live_game_for_pid(self.running_models(), pid) == None::<Seq<char>>,
            },
    {
        let ghost models = self.running_models();
        let n = self.running.len();
        let mut i: usize = 0;
        while i < n
            invariant
                i <= n,
                n == self.running@.len(),
                forall|m: int|
                    0 <= m < i ==> !(models[m].pid == pid && #[trigger] models[m].status
                        == ProcessStatus::Started),
            decreases n - i,
        {
            if self.running[i].pid == pid && self.running[i].status == ProcessStatus::Started {
                proof {
                    lemma_find_live_pid(models, pid);
                    assert(models[i as int] == self.running@[i as int]@);
                    let r = find_live_pid(models, pid);
                    if r == -1 {
                        assert(!(models[i as int].pid == pid && models[i as int].status
                            == ProcessStatus::Started));
                        assert(false);
                    }
                    if r < i {
                        assert(!(models[r].pid == pid && models[r].status
                            == ProcessStatus::Started));
                        assert(false);
                    }
                    if r > i {
                        assert(!(models[i as int].pid == pid && models[i as int].status
                            == ProcessStatus::Started));
                        assert(false);
                    }
                }
                return Some(&self.running[i].game_id);
            }
            i = i + 1;
        }
        proof {
            lemma_find_live_pid(models, pid);
            if find_live_pid(models, pid) != -1 {
                assert(false);
            }
        }
        None
    }

    /// The index of the running entry under `key`, if one is there.
    #[verifier::loop_isolation(false)]
    fn find_running(&self, key: &str) -> (r: Option<usize>)
        ensures
            match r {
                Some(i) => i < self.running_models().len() && find_key(
                    self.running_models(),
                    key@,
                ) == i as int,
                None => find_key(self.running_models(), key@) == -1,
            },
    {
        let ghost models = self.running_models();
        let n = self.running.len();
        let mut i: usize = 0;
        while i < n
            invariant
                i <= n,
                n == self.running@.len(),
                forall|m: int| 0 <= m < i ==> models[m].key != key@,
            decreases n - i,
        {
            if str_eq(self.running[i].key.as_str(), key) {
                proof {
                    lemma_find_key(models, key@);
                    assert(models[i as int] == self.running@[i as int]@);
                    let r = find_key(models, key@);
                    if r == -1 {
                        assert(!has_entry_key(models, key@));
                        assert(false);
                    }
                    if r < i {
                        assert(models[r].key != key@);
                        assert(false);
                    }
                    if r > i {
                        assert(models[i as int].key != key@);
                        assert(false);
                    }
                }
                return Some(i);
            }
            i = i + 1;
        }
        proof {
            lemma_find_key(models, key@);
            if find_key(models, key@) != -1 {
                assert(models[find_key(models, key@)].key == key@);
            }
        }
        None
    }

    /// Applies one path-carrying lifecycle event whose path is already
    /// lower-cased, and returns the events to emit.
    pub fn apply_wmi_event(&mut self, l_path: String, pid: u32, status: ProcessStatus) -> (events:
        Vec<ProcessEvent>)
        requires
            old(self).wf(),
        ensures
            final(self).wf(),
            final(self).games() == old(self).games(),
            final(self).running_models() == wmi_next(
                old(self).games(),
                old(self).running_models(),
                l_path@,
                pid,
                status,
            ),
            event_models(events@) == wmi_emits(
                old(self).games(),
                old(self).running_models(),
                l_path@,
                pid,
                status,
            ),
    {
        let ghost models = self.running_models();
        let mut events: Vec<ProcessEvent> = Vec::new();
        proof {
            assert(event_models(events@) =~= Seq::<EventModel>::empty());
        }
        let game_id = match self.get_known_game_id(l_path.as_str()) {
            Some(id) => id.clone(),
            None => {
                return events;
            },
        };
        let key = key_for(l_path.as_str(), pid);
        let found = self.find_running(key.as_str());
        match status {
            ProcessStatus::Started => {
                match found {
                    Some(i) => {
                        if self.running[i].status == ProcessStatus::Terminated {
                            self.running.remove(i);
                            proof {
                                assert(self.running_models() =~= models.remove(i as int));
                                lemma_entries_remove_wf(models, i as int);
                            }
                        }
                    },
                    None => {
                        let entry = RunningEntry {
                            key: key,
                            pid: pid,
                            status: ProcessStatus::Started,
                            path: l_path.clone(),
                            game_id: game_id.clone(),
                        };
                        self.running.push(entry);
                        events.push(
                            ProcessEvent {
                                event_type: ProcessEventType::Creation,
                                full_path: l_path,
                                pid: pid,
                                id: game_id,
                            },
                        );
                        proof {
                            lemma_find_key(models, key_of(l_path@, pid));
                            assert(self.running_models() =~= models.push(
                                entry_model(l_path@, pid, ProcessStatus::Started, game_id@),
                            ));
                            assert(event_models(events@) =~= seq![
                                creation_model(l_path@, pid, game_id@),
                            ]);
                        }
                    },
                }
            },
            ProcessStatus::Terminated => {
                match found {
                    Some(i) => {
                        if self.running[i].status == ProcessStatus::Started {
                            self.running.remove(i);
                            events.push(
                                ProcessEvent {
                                    event_type: ProcessEventType::Termination,
                                    full_path: l_path,
                                    pid: pid,
                                    id: game_id,
                                },
                            );
                            proof {
                                assert(self.running_models() =~= models.remove(i as int));
                                lemma_entries_remove_wf(models, i as int);
                                assert(event_models(events@) =~= seq![
                                    termination_model(l_path@, pid, game_id@),
                                ]);
                            }
                        }
                    },
                    None => {
                        let entry = RunningEntry {
                            key: key,
                            pid: pid,
                            status: ProcessStatus::Terminated,
                            path: l_path,
                            game_id: game_id,
                        };
                        self.running.push(entry);
                        proof {
                            lemma_find_key(models, entry@.key);
                            assert(self.running_models() =~= models.push(entry@));
                        }
                    },
                }
            },
        }
        events
    }

    /// Handles one instrumentation-backend notification: lower-cases its
    /// path and applies it as a lifecycle event.
    pub fn handle_wmi_message(&mut self, msg: ProcessMessage) -> (events: Vec<ProcessEvent>)
        requires
            old(self).wf(),
        ensures
            final(self).wf(),
            final(self).games() == old(self).games(),
            final(self).running_models() == wmi_next(
                old(self).games(),
                old(self).running_models(),
                lower_of(msg.path@),
                msg.pid,
                msg.status,
            ),
            event_models(events@) == wmi_emits(
                old(self).games(),
                old(self).running_models(),
                lower_of(msg.path@),
                msg.pid,
                msg.status,
            ),
    {
        let l_path = lowercase(msg.path.as_str());
        self.apply_wmi_event(l_path, msg.pid, msg.status)
    }

    /// Applies a kernel-trace start record whose path is already
    /// lower-cased: any entry under the same key makes it a duplicate.
    pub fn apply_etw_start(&mut self, l_path: String, pid: u32) -> (events: Vec<ProcessEvent>)
        requires
            old(self).wf(),
        ensures
            final(self).wf(),
            final(self).games() == old(self).games(),
            final(self).running_models() == etw_start_next(
                old(self).games(),
                old(self).running_models(),
                l_path@,
                pid,
            ),
            event_models(events@) == etw_start_emits(
                old(self).games(),
                old(self).running_models(),
                l_path@,
                pid,
            ),
    {
        let ghost models = self.running_models();
        let mut events: Vec<ProcessEvent> = Vec::new();
        proof {
            assert(event_models(events@) =~= Seq::<EventModel>::empty());
        }
        let game_id = match self.get_known_game_id(l_path.as_str()) {
            Some(id) => id.clone(),
            None => {
                return events;
            },
        };
        let key = key_for(l_path.as_str(), pid);
        let found = self.find_running(key.as_str());
        proof {
            lemma_find_key(models, key_of(l_path@, pid));
            if find_key(models, key_of(l_path@, pid)) != -1 {
                assert(has_entry_key(models, key_of(l_path@, pid)));
            }
        }
        if found.is_none() {
            let entry = RunningEntry {
                key: key,
                pid: pid,
                status: ProcessStatus::Started,
                path: l_path.clone(),
                game_id: game_id.clone(),
            };
            self.running.push(entry);
            events.push(
                ProcessEvent {
                    event_type: ProcessEventType::Creation,
                    full_path: l_path,
                    pid: pid,
                    id: game_id,
                },
            );
            proof {
                assert(self.running_models() =~= models.push(
                    entry_model(l_path@, pid, ProcessStatus::Started, game_id@),
                ));
                assert(event_models(events@) =~= seq![creation_model(l_path@, pid, game_id@)]);
            }
        }
        events
    }

    /// Applies a kernel-trace stop record, which carries only a pid: every
    /// entry with that pid leaves the table, with one termination event per
    /// removed entry.
    #[verifier::loop_isolation(false)]
    pub fn apply_etw_stop(&mut self, pid: u32) -> (events: Vec<ProcessEvent>)
        requires
            old(self).wf(),
        ensures
            final(self).wf(),
            final(self).games() == old(self).games(),
            final(self).running_models() == etw_stop_next(old(self).running_models(), pid),
            event_models(events@) == etw_stop_emits(old(self).running_models(), pid),
    {
        let ghost m = entry_models(self.running@);
        let ghost keep = other_pid(pid);
        let ghost gone = same_pid(pid);
        let ghost to_event = |e: EntryModel| termination_model(e.path, e.pid, e.game_id);
        let n = self.running.len();
        let mut kept: Vec<RunningEntry> = Vec::new();
        let mut events: Vec<ProcessEvent> = Vec::new();
        let mut i: usize = 0;
        while i < n
            invariant
                i <= n,
                n == self.running@.len(),
                self.running == old(self).running,
                m == entry_models(self.running@),
                entry_models(kept@) == entry_models(self.running@.subrange(0, i as int)).filter(
                    keep,
                ),
                event_models(events@) == entry_models(
                    self.running@.subrange(0, i as int),
                ).filter(gone).map_values(to_event),
            decreases n - i,
        {
            let e = &self.running[i];
            let ghost prev_kept = entry_models(kept@);
            let ghost prev_events = event_models(events@);
            if e.pid != pid {
                let copied = RunningEntry {
                    key: e.key.clone(),
                    pid: e.pid,
                    status: e.status,
                    path: e.path.clone(),
                    game_id: e.game_id.clone(),
                };
                kept.push(copied);
                proof {
                    reveal(Seq::filter);
                    let ext = entry_models(self.running@.subrange(0, i + 1));
                    assert(ext.drop_last() =~= entry_models(self.running@.subrange(0, i as int)));
                    assert(ext.last() == self.running@[i as int]@);
                    assert(entry_models(kept@) =~= prev_kept.push(ext.last()));
                    assert(entry_models(kept@) =~= ext.filter(keep));
                    assert(event_models(events@) =~= ext.filter(gone).map_values(to_event));
                }
            } else {
                events.push(
                    ProcessEvent {
                        event_type: ProcessEventType::Termination,
                        full_path: e.path.clone(),
                        pid: e.pid,
                        id: e.game_id.clone(),
                    },
                );
                proof {
                    reveal(Seq::filter);
                    let ext = entry_models(self.running@.subrange(0, i + 1));
                    assert(ext.drop_last() =~= entry_models(self.running@.subrange(0, i as int)));
                    assert(ext.last() == self.running@[i as int]@);
                    assert(entry_models(kept@) =~= ext.filter(keep));
                    assert(event_models(events@) =~= prev_events.push(to_event(ext.last())));
                    assert(event_models(events@) =~= ext.filter(gone).map_values(to_event));
                }
            }
            i = i + 1;
        }
        proof {
            assert(self.running@.subrange(0, n as int) =~= self.running@);
            lemma_entries_filter_distinct(m, keep);
            lemma_entries_filter_sub(m, keep);
            let f = m.filter(keep);
            assert forall|w: int| 0 <= w < f.len() implies f[w].key == key_of(
                f[w].path,
                f[w].pid,
            ) by {
                let v = choose|v: int| 0 <= v < m.len() && m[v] == f[w];
            }
            assert(m.filter(gone).map_values(to_event) =~= etw_stop_emits(m, pid));
        }
        self.running = kept;
        events
    }

    /// Handles one kernel-trace notification: a start record carries a path
    /// and is applied under its lower-cased form; a stop record carries
    /// only a pid and terminates every entry sharing it.
    pub fn handle_etw_message(&mut self, msg: ProcessMessage) -> (events: Vec<ProcessEvent>)
        requires
            old(self).wf(),
        ensures
            final(self).wf(),
            final(self).games() == old(self).games(),
            final(self).running_models() == match msg.status {
                ProcessStatus::Started => etw_start_next(
                    old(self).games(),
                    old(self).running_models(),
                    lower_of(msg.path@),
                    msg.pid,
                ),
                ProcessStatus::Terminated => etw_stop_next(old(self).running_models(), msg.pid),
            },
            event_models(events@) == match msg.status {
                ProcessStatus::Started => etw_start_emits(
                    old(self).games(),
                    old(self).running_models(),
                    lower_of(msg.path@),
                    msg.pid,
                ),
                ProcessStatus::Terminated => etw_stop_emits(old(self).running_models(), msg.pid),
            },
    {
        match msg.status {
            ProcessStatus::Started => {
                let l_path = lowercase(msg.path.as_str());
                self.apply_etw_start(l_path, msg.pid)
            },
            ProcessStatus::Terminated => self.apply_etw_stop(msg.pid),
        }
    }

    /// Feeds a one-time snapshot of all running processes to the tracker,
    /// each entry as a synthetic start event, to catch games that were
    /// already running before monitoring began.
    #[verifier::loop_isolation(false)]
    pub fn startup_process_check(&mut self, procs: Vec<ProcessInfo>) -> (events: Vec<
        ProcessEvent,
    >)
        requires
            old(self).wf(),
        ensures
            final(self).wf(),
            final(self).games() == old(self).games(),
            final(self).running_models() == snapshot_next(
                old(self).games(),
                old(self).running_models(),
                proc_models(procs@),
            ),
            event_models(events@) == snapshot_emits(
                old(self).games(),
                old(self).running_models(),
                proc_models(procs@),
            ),
    {
        let ghost m = old(self).games();
        let ghost all = proc_models(procs@);
        let mut events: Vec<ProcessEvent> = Vec::new();
        let n = procs.len();
        let mut i: usize = 0;
        proof {
            assert(all.subrange(0, all.len() as int) =~= all);
            assert(event_models(events@) =~= Seq::<EventModel>::empty());
        }
        while i < n
            invariant
                i <= n,
                n == procs@.len(),
                self.wf(),
                self.games() == m,
                snapshot_next(m, self.running_models(), all.subrange(i as int, all.len() as int))
                    == snapshot_next(m, old(self).running_models(), all),
                event_models(events@) + snapshot_emits(
                    m,
                    self.running_models(),
                    all.subrange(i as int, all.len() as int),
                ) == snapshot_emits(m, old(self).running_models(), all),
            decreases n - i,
        {
            let ghost suffix = all.subrange(i as int, all.len() as int);
            let ghost before = self.running_models();
            let ghost prev_events = event_models(events@);
            let msg = ProcessMessage {
                pid: procs[i].pid,
                status: ProcessStatus::Started,
                path: procs[i].full_path.clone(),
            };
            let mut step = self.handle_wmi_message(msg);
            let ghost step_models = event_models(step@);
            events.append(&mut step);
            proof {
                assert(suffix[0] == all[i as int]);
                assert(suffix.drop_first() =~= all.subrange(i + 1, all.len() as int));
                assert(event_models(events@) =~= prev_events + step_models);
                assert(step_models == wmi_emits(
                    m,
                    before,
                    lower_of(all[i as int].1),
                    all[i as int].0,
                    ProcessStatus::Started,
                ));
            }
            i = i + 1;
        }
        proof {
            assert(all.subrange(n as int, all.len() as int).len() == 0);
            assert(event_models(events@) + Seq::<EventModel>::empty() =~= event_models(events@));
        }
        events
    }
}

/// Law: pattern resolution is order-consistent.  For a path with a parent
/// directory, a registered directory pattern wins; a full-path pattern is
/// consulted only when the directory pattern is absent; a bare-name pattern
/// only when both are.
pub proof fn lemma_lookup_order(m: Map<Seq<char>, Seq<char>>, p: Seq<char>, j: int)
    requires
        rfind_sep(p) == Some(j),
    ensures
        m.contains_key(p.subrange(0, j)) ==> lookup_id(m, p) == Some(m[p.subrange(0, j)]),
        !m.contains_key(p.subrange(0, j)) && m.contains_key(p) ==> lookup_id(m, p) == Some(m[p]),
        !m.contains_key(p.subrange(0, j)) && !m.contains_key(p) && m.contains_key(
            p.subrange(j + 1, p.len() as int),
        ) ==> lookup_id(m, p) == Some(m[p.subrange(j + 1, p.len() as int)]),
        !m.contains_key(p.subrange(0, j)) && !m.contains_key(p) && !m.contains_key(
            p.subrange(j + 1, p.len() as int),
        ) ==> lookup_id(m, p) == None::<Seq<char>>,
{
}

/// Law: registering a more specific pattern does not shadow an existing
/// directory match.  With the path's directory registered, registering the
/// full path changes nothing about the path's resolution; neither does
/// registering the bare executable name, as long as that name is not the
/// directory string itself.
pub proof fn lemma_specific_no_shadow(
    m: Map<Seq<char>, Seq<char>>,
    p: Seq<char>,
    j: int,
    id: Seq<char>,
)
    requires
        rfind_sep(p) == Some(j),
        0 <= j < p.len(),
        m.contains_key(p.subrange(0, j)),
    ensures
        lookup_id(m.insert(p, id), p) == lookup_id(m, p),
        p.subrange(j + 1, p.len() as int) != p.subrange(0, j) ==> lookup_id(
            m.insert(p.subrange(j + 1, p.len() as int), id),
            p,
        ) == lookup_id(m, p),
{
    let dir = p.subrange(0, j);
    assert(dir.len() < p.len());
}

/// After pushing an entry whose key was absent, the first index carrying
/// that key is the pushed one.
proof fn lemma_find_key_push(s: Seq<EntryModel>, x: EntryModel)
    requires
        find_key(s, x.key) == -1,
    ensures
        find_key(s.push(x), x.key) == s.len(),
{
    lemma_find_key(s, x.key);
    lemma_find_key(s.push(x), x.key);
    let t = s.push(x);
    assert(t[s.len() as int].key == x.key);
    assert(has_entry_key(t, x.key));
    let r = find_key(t, x.key);
    if r == -1 {
        assert(false);
    }
    if r < s.len() {
        assert(t[r] == s[r]);
        assert(has_entry_key(s, x.key));
        assert(false);
    }
}

/// After removing the only entry carrying a key, no entry carries it.
proof fn lemma_find_key_remove(s: Seq<EntryModel>, i: int)
    requires
        entries_distinct(s),
        0 <= i < s.len(),
    ensures
        find_key(s.remove(i), s[i].key) == -1,
{
    s.remove_ensures(i);
    let t = s.remove(i);
    lemma_find_key(t, s[i].key);
    let r = find_key(t, s[i].key);
    if r != -1 {
        if r < i {
            assert(t[r] == s[r]);
        } else {
            assert(t[r] == s[r + 1]);
        }
        assert(false);
    }
}

/// Law: start delivery is idempotent.  Two deliveries of the same start
/// event yield exactly one creation event when the key was not already
/// live, and none at all when it was.
pub proof fn lemma_start_idempotent(
    m: Map<Seq<char>, Seq<char>>,
    running: Seq<EntryModel>,
    l_path: Seq<char>,
    pid: u32,
)
    requires
        entries_distinct(running),
        lookup_id(m, l_path) is Some,
    ensures
        ({
            let key = key_of(l_path, pid);
            let s1 = wmi_next(m, running, l_path, pid, ProcessStatus::Started);
            let e1 = wmi_emits(m, running, l_path, pid, ProcessStatus::Started);
            let e2 = wmi_emits(m, s1, l_path, pid, ProcessStatus::Started);
            let live = find_key(running, key) >= 0 && running[find_key(running, key)].status
                == ProcessStatus::Started;
            e1 + e2 == if live {
                Seq::<EventModel>::empty()
            } else {
                seq![creation_model(l_path, pid, lookup_id(m, l_path)->Some_0)]
            }
        }),
{
    let key = key_of(l_path, pid);
    let id = lookup_id(m, l_path)->Some_0;
    let s1 = wmi_next(m, running, l_path, pid, ProcessStatus::Started);
    let e1 = wmi_emits(m, running, l_path, pid, ProcessStatus::Started);
    let e2 = wmi_emits(m, s1, l_path, pid, ProcessStatus::Started);
    let i = find_key(running, key);
    lemma_find_key(running, key);
    if i == -1 {
        let x = entry_model(l_path, pid, ProcessStatus::Started, id);
        lemma_find_key_push(running, x);
        assert(s1[find_key(s1, key)].status == ProcessStatus::Started);
        assert(e1 + e2 =~= seq![creation_model(l_path, pid, id)]);
    } else if running[i].status == ProcessStatus::Started {
        assert(e1 + e2 =~= Seq::<EventModel>::empty());
    } else {
        lemma_find_key_remove(running, i);
        let x = entry_model(l_path, pid, ProcessStatus::Started, id);
        assert(e1 + e2 =~= seq![creation_model(l_path, pid, id)]);
    }
}

/// Law: a stop racing ahead of its start is safe.  Delivering a stop for a
/// fresh key and then the matching start yields no creation event, no
/// termination event, and a running table without that key.
pub proof fn lemma_stop_start_race(
    m: Map<Seq<char>, Seq<char>>,
    running: Seq<EntryModel>,
    l_path: Seq<char>,
    pid: u32,
)
    requires
        entries_distinct(running),
        lookup_id(m, l_path) is Some,
        find_key(running, key_of(l_path, pid)) == -1,
    ensures
        ({
            let key = key_of(l_path, pid);
            let s1 = wmi_next(m, running, l_path, pid, ProcessStatus::Terminated);
            let s2 = wmi_next(m, s1, l_path, pid, ProcessStatus::Started);
            &&& wmi_emits(m, running, l_path, pid, ProcessStatus::Terminated)
                == Seq::<EventModel>::empty()
            &&& wmi_emits(m, s1, l_path, pid, ProcessStatus::Started)
                == Seq::<EventModel>::empty()
            &&& s2 == running
            &&& !has_entry_key(s2, key)
        }),
{
    let key = key_of(l_path, pid);
    let id = lookup_id(m, l_path)->Some_0;
    let x = entry_model(l_path, pid, ProcessStatus::Terminated, id);
    let s1 = wmi_next(m, running, l_path, pid, ProcessStatus::Terminated);
    lemma_find_key(running, key);
    lemma_find_key_push(running, x);
    let s2 = wmi_next(m, s1, l_path, pid, ProcessStatus::Started);
    assert(s1 == running.push(x));
    assert(s1[find_key(s1, key)].status == ProcessStatus::Terminated);
    assert(s2 == s1.remove(running.len() as int));
    assert(s2 =~= running);
}

/// The two complementary pid filters split the running table exactly.
proof fn lemma_pid_filter_split(s: Seq<EntryModel>, pid: u32)
    ensures
        s.filter(other_pid(pid)).len() + s.filter(same_pid(pid)).len() == s.len(),
    decreases s.len(),
{
    reveal(Seq::filter);
    if s.len() > 0 {
        lemma_pid_filter_split(s.drop_last(), pid);
    }
}

/// Law: termination by pid removes every entry sharing the pid, keeps every
/// other entry, and emits exactly one termination event per removed entry.
pub proof fn lemma_stop_by_pid(running: Seq<EntryModel>, pid: u32)
    ensures
        forall|i: int|
            0 <= i < etw_stop_next(running, pid).len() ==> #[trigger] etw_stop_next(
                running,
                pid,
            )[i].pid != pid,
        etw_stop_emits(running, pid).len() + etw_stop_next(running, pid).len() == running.len(),
        forall|i: int|
            0 <= i < etw_stop_emits(running, pid).len() ==> {
                &&& #[trigger] etw_stop_emits(running, pid)[i].event_type
                    == ProcessEventType::Termination
                &&& etw_stop_emits(running, pid)[i].pid == pid
            },
{
    lemma_pid_filter_split(running, pid);
    assert forall|i: int| 0 <= i < etw_stop_next(running, pid).len() implies #[trigger] etw_stop_next(
        running,
        pid,
    )[i].pid != pid by {
        running.lemma_filter_pred(other_pid(pid), i);
    }
    assert forall|i: int| 0 <= i < etw_stop_emits(running, pid).len() implies {
        &&& #[trigger] etw_stop_emits(running, pid)[i].event_type == ProcessEventType::Termination
        &&& etw_stop_emits(running, pid)[i].pid == pid
    } by {
        running.lemma_filter_pred(same_pid(pid), i);
        assert(etw_stop_emits(running, pid)[i] == termination_model(
            running.filter(same_pid(pid))[i].path,
            running.filter(same_pid(pid))[i].pid,
            running.filter(same_pid(pid))[i].game_id,
        ));
    }
}

/// Removing one entry keeps the running table well-formed.
proof fn lemma_entries_remove_wf(s: Seq<EntryModel>, i: int)
    requires
        entries_distinct(s),
        entries_keyed(s),
        0 <= i < s.len(),
    ensures
        entries_distinct(s.remove(i)),
        entries_keyed(s.remove(i)),
{
    s.remove_ensures(i);
    let t = s.remove(i);
    assert forall|a: int, b: int| 0 <= a < b < t.len() implies t[a].key != t[b].key by {
        let oa: int = if a < i {
            a
        } else {
            a + 1
        };
        let ob: int = if b < i {
            b
        } else {
            b + 1
        };
        assert(t[a] == s[oa]);
        assert(t[b] == s[ob]);
    }
    assert forall|a: int| 0 <= a < t.len() implies t[a].key == key_of(t[a].path, t[a].pid) by {
        let oa: int = if a < i {
            a
        } else {
            a + 1
        };
        assert(t[a] == s[oa]);
    }
}

/// Filtering keeps running keys pairwise distinct.
proof fn lemma_entries_filter_distinct(s: Seq<EntryModel>, pred: spec_fn(EntryModel) -> bool)
    requires
        entries_distinct(s),
    ensures
        entries_distinct(s.filter(pred)),
    decreases s.len(),
{
    reveal(Seq::filter);
    if s.len() > 0 {
        let head = s.drop_last();
        assert(entries_distinct(head)) by {
            assert(forall|i: int| 0 <= i < head.len() ==> head[i] == s[i]);
        }
        lemma_entries_filter_distinct(head, pred);
        if pred(s.last()) {
            let fh = head.filter(pred);
            let f = s.filter(pred);
            assert(f == fh.push(s.last()));
            assert forall|i: int, j: int| 0 <= i < j < f.len() implies f[i].key != f[j].key by {
                if j == f.len() - 1 {
                    assert(f[i] == fh[i]);
                    lemma_entries_filter_sub(head, pred);
                    let w = choose|w: int| 0 <= w < head.len() && head[w] == fh[i];
                    assert(s[w] == head[w]);
                } else {
                    assert(f[i] == fh[i]);
                    assert(f[j] == fh[j]);
                }
            }
        }
    }
}

/// Every entry of a filtering stands somewhere in the original sequence.
proof fn lemma_entries_filter_sub(s: Seq<EntryModel>, pred: spec_fn(EntryModel) -> bool)
    ensures
        forall|i: int|
            0 <= i < s.filter(pred).len() ==> exists|w: int|
                0 <= w < s.len() && s[w] == #[trigger] s.filter(pred)[i],
    decreases s.len(),
{
    reveal(Seq::filter);
    if s.len() > 0 {
        let head = s.drop_last();
        lemma_entries_filter_sub(head, pred);
        let f = s.filter(pred);
        assert forall|i: int| 0 <= i < f.len() implies exists|w: int|
            0 <= w < s.len() && s[w] == #[trigger] f[i] by {
            if pred(s.last()) && i == f.len() - 1 {
                assert(s[s.len() - 1] == f[i]);
            } else {
                assert(f[i] == head.filter(pred)[i]);
                let w = choose|w: int| 0 <= w < head.len() && head[w] == head.filter(pred)[i];
                assert(s[w] == f[i]);
            }
        }
    }
}

} // verus!

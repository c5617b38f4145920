//! The loop of the daemon: what is due, which projects are served and in which
//! order, and what becomes of what runs.
use crate::json;
use crate::json::Json;
use crate::path;
use crate::spool;
use crate::strmap::StrMap;
use crate::text;
use vstd::prelude::*;
use vstd::string::*;

verus! {

// ---------------------------------------------------------------------------
// Time
// ---------------------------------------------------------------------------
/// Whether something is due again.
pub open spec fn is_due(last_ms: u64, interval_ms: nat, now_ms: u64) -> bool {
    now_ms - last_ms >= interval_ms
}

/// Whether something is due again that is done at an interval.
pub fn due(last_ms: u64, interval_ms: u64, now_ms: u64) -> (r: bool)
    requires
        last_ms <= now_ms,
    ensures
        r == is_due(last_ms, interval_ms as nat, now_ms),
{
    now_ms - last_ms >= interval_ms
}

/// Whether the registry is read: it never was, or it is due again. `interval`
/// is in seconds.
pub fn registry_due(last_ms: Option<u64>, interval_secs: u64, now_ms: u64) -> (r: bool)
    requires
        last_ms matches Some(at) ==> at <= now_ms,
    ensures
        r == (match last_ms {
            Some(at) => is_due(at, interval_secs as nat * 1000, now_ms),
            None => true,
        }),
{
    match last_ms {
        Some(at) => (now_ms - at) as u128 >= interval_secs as u128 * 1000,
        None => true,
    }
}

/// The projects that were not known before.
pub open spec fn newly_known(before: Seq<String>, now: Seq<String>, n: int) -> Seq<Seq<char>>
    decreases n,
{
    if n <= 0 {
        Seq::empty()
    } else if path::lists_path(before, now[n - 1]@) {
        newly_known(before, now, n - 1)
    } else {
        newly_known(before, now, n - 1).push(now[n - 1]@)
    }
}

/// The projects that were not known before.
pub fn new_roots(before: &Vec<String>, now: &Vec<String>) -> (r: Vec<String>)
    ensures
        text::string_views(r@) == newly_known(before@, now@, now@.len() as int),
{
    let mut out: Vec<String> = Vec::new();
    assert(text::string_views(out@) =~= Seq::<Seq<char>>::empty());
    for i in 0..now.len()
        invariant
            text::string_views(out@) == newly_known(before@, now@, i as int),
    {
        let ghost so_far = out@;
        if !path::list_contains_path(before, now[i].as_str()) {
            out.push(now[i].clone());
            assert(text::string_views(out@) =~= text::string_views(so_far).push(now@[i as int]@));
        }
    }
    out
}

/// The projects that are known now.
pub fn read_known_project_roots(known: &Vec<String>) -> (r: Vec<String>)
    ensures
        text::string_views(r@) == text::string_views(known@),
{
    let mut out: Vec<String> = Vec::new();
    for i in 0..known.len()
        invariant
            text::string_views(out@) == text::string_views(known@).take(i as int),
    {
        let ghost before = out@;
        out.push(known[i].clone());
        assert(text::string_views(out@) =~= text::string_views(before).push(known@[i as int]@));
        assert(text::string_views(known@).take(i + 1) =~= text::string_views(known@).take(
            i as int,
        ).push(known@[i as int]@));
    }
    assert(text::string_views(known@).take(known@.len() as int) =~= text::string_views(known@));
    out
}

/// How often abandoned browsers are looked for, in milliseconds.
pub const BROWSER_ORPHAN_SWEEP_INTERVAL_MS: u64 = 300_000;

/// How often projects without work are looked at, in milliseconds.
pub const COLD_PROJECT_SWEEP_INTERVAL_MS: u64 = 30_000;

/// Starts fetching the instructions of a project, where that is due and not
/// going on. Gives whether it is started. The tables keep a project under the
/// key of its path.
pub fn start_source_sync(
    last: &mut StrMap<u64>,
    syncing: &mut StrMap<bool>,
    root: &str,
    interval_secs: u64,
    now_ms: u64,
) -> (r: bool)
    requires
        old(last)@.dom().contains(path::key(root@)) ==> old(last)@[path::key(root@)] <= now_ms,
    ensures
        r == ((old(last)@.dom().contains(path::key(root@)) ==> is_due(
            old(last)@[path::key(root@)],
            interval_secs as nat * 1000,
            now_ms,
        )) && !old(syncing)@.dom().contains(path::key(root@))),
        final(last)@ == (if r {
            old(last)@.insert(path::key(root@), now_ms)
        } else {
            old(last)@
        }),
        final(syncing)@ == (if r {
            old(syncing)@.insert(path::key(root@), true)
        } else {
            old(syncing)@
        }),
{
    let key = path::key_of(root);
    let is_time = match last.get(key.as_str()) {
        Some(at) => (now_ms - *at) as u128 >= interval_secs as u128 * 1000,
        None => true,
    };
    if is_time && !syncing.contains(key.as_str()) {
        last.insert(key.clone(), now_ms);
        syncing.insert(key, true);
        true
    } else {
        false
    }
}

/// Notes that fetching the instructions of a project is over.
pub fn end_source_sync(syncing: &mut StrMap<bool>, root: &str)
    ensures
        final(syncing)@ == old(syncing)@.remove(path::key(root@)),
{
    let _ = syncing.remove(path::key_of(root).as_str());
}

// ---------------------------------------------------------------------------
// Compiled plugins
// ---------------------------------------------------------------------------
/// What a file system tells of a file.
#[derive(Debug, Clone, Copy, PartialEq, Eq, Structural)]
pub struct FileStat {
    pub modified_ns: u128,
    pub len: u64,
}

/// The plugins that are compiled: the content of each, and what the file
/// system told of its file when the content was last looked at.
pub struct PluginModules {
    pub loaded: StrMap<String>,
    pub checked: StrMap<FileStat>,
}

/// What is done about a plugin before it is used.
pub enum CompileStep {
    /// Nothing: it is compiled from what is there.
    Ready,
    /// Its content is looked at.
    Hash,
}

/// What is done about a plugin whose content is known.
pub struct CompilePlan {
    /// The content that is compiled and no longer there, if that is so: its
    /// instances are swapped.
    pub outdated: Option<String>,
    /// Whether it is compiled.
    pub compile: bool,
}

impl PluginModules {
    /// Nothing is compiled.
    pub fn new() -> (r: Self)
        ensures
            r.loaded@ == Map::<Seq<char>, String>::empty(),
            r.checked@ == Map::<Seq<char>, FileStat>::empty(),
    {
        PluginModules { loaded: StrMap::new(), checked: StrMap::new() }
    }

    /// What is done about a plugin: its content is looked at, unless its file
    /// is the one that was compiled, as far as the file system tells.
    pub fn get_or_compile(&self, plugin_name: &str, stat: Option<FileStat>) -> (r: CompileStep)
        ensures
            r is Ready <==> (stat is Some && self.checked@.dom().contains(plugin_name@)
                && self.checked@[plugin_name@] == stat->0 && self.loaded@.dom().contains(
                plugin_name@,
            )),
    {
        let unchanged = match (stat, self.checked.get(plugin_name)) {
            (Some(now), Some(then_seen)) => now == *then_seen,
            _ => false,
        };
        if unchanged && self.loaded.contains(plugin_name) {
            CompileStep::Ready
        } else {
            CompileStep::Hash
        }
    }

    /// What is done about a plugin whose content was looked at: one that
    /// changed is compiled anew, and what was compiled is dropped.
    pub fn content_known(&mut self, plugin_name: &str, stat: Option<FileStat>, on_disk: &str) -> (r:
        CompilePlan)
        ensures
            ({
                let known = old(self).loaded@.dom().contains(plugin_name@);
                let changed = known && old(self).loaded@[plugin_name@]@ != on_disk@;
                &&& text::opt_string_view(r.outdated) == (if changed {
                    Some(old(self).loaded@[plugin_name@]@)
                } else {
                    None
                })
                &&& r.compile == (!known || changed)
                &&& final(self).loaded@ == (if changed {
                    old(self).loaded@.remove(plugin_name@)
                } else {
                    old(self).loaded@
                })
                &&& final(self).checked@ == (match stat {
                    Some(s) => old(self).checked@.insert(plugin_name@, s),
                    None => old(self).checked@,
                })
            }),
    {
        match stat {
            Some(s) => {
                self.checked.insert(plugin_name.to_owned(), s);
            },
            None => {},
        }
        let known = self.loaded.contains(plugin_name);
        let changed = match self.loaded.get(plugin_name) {
            Some(h) => !text::str_eq(h.as_str(), on_disk),
            None => false,
        };
        let outdated = if changed {
            self.loaded.remove(plugin_name)
        } else {
            None
        };
        CompilePlan { outdated, compile: !known || changed }
    }

    /// Notes that a plugin was compiled.
    pub fn compiled(&mut self, plugin_name: &str, on_disk: &str)
        ensures
            final(self).loaded@.dom() == old(self).loaded@.dom().insert(plugin_name@),
            final(self).loaded@[plugin_name@]@ == on_disk@,
            forall|k: Seq<char>|
                k != plugin_name@ && old(self).loaded@.dom().contains(k) ==> #[trigger] final(
                    self).loaded@[k] == old(self).loaded@[k],
            final(self).checked@ == old(self).checked@,
    {
        let ghost before = self.loaded@;
        self.loaded.insert(plugin_name.to_owned(), on_disk.to_owned());
        assert(self.loaded@.dom() =~= before.dom().insert(plugin_name@));
    }
}

/// How long a plugin that could not be compiled is not tried again, in
/// milliseconds.
pub const PLUGIN_COMPILE_RETRY_BACKOFF_MS: u64 = 60_000;

/// Why plugins could not be compiled, and until when they are not tried again.
pub struct CompileFailures {
    pub reasons: StrMap<String>,
    pub until: StrMap<u64>,
}

impl CompileFailures {
    /// Every plugin could be compiled.
    pub fn new() -> (r: Self)
        ensures
            r.reasons@ == Map::<Seq<char>, String>::empty(),
            r.until@ == Map::<Seq<char>, u64>::empty(),
    {
        CompileFailures { reasons: StrMap::new(), until: StrMap::new() }
    }

    /// Notes that a plugin could not be compiled.
    pub fn record_plugin_compile_failure(&mut self, plugin_name: &str, reason: String, now_ms: u64)
        requires
            now_ms + PLUGIN_COMPILE_RETRY_BACKOFF_MS <= u64::MAX,
        ensures
            final(self).reasons@ == old(self).reasons@.insert(plugin_name@, reason),
            final(self).until@ == old(self).until@.insert(
                plugin_name@,
                (now_ms + PLUGIN_COMPILE_RETRY_BACKOFF_MS) as u64,
            ),
    {
        self.reasons.insert(plugin_name.to_owned(), reason);
        self.until.insert(plugin_name.to_owned(), now_ms + PLUGIN_COMPILE_RETRY_BACKOFF_MS);
    }

    /// Notes that a plugin could be compiled.
    pub fn clear_plugin_compile_failure(&mut self, plugin_name: &str)
        ensures
            final(self).reasons@ == old(self).reasons@.remove(plugin_name@),
            final(self).until@ == old(self).until@.remove(plugin_name@),
    {
        let _ = self.reasons.remove(plugin_name);
        let _ = self.until.remove(plugin_name);
    }

    /// Whether a plugin is not tried now.
    pub fn plugin_compile_in_backoff(&self, plugin_name: &str, now_ms: u64) -> (r: bool)
        ensures
            r == (self.until@.dom().contains(plugin_name@) && now_ms < self.until@[plugin_name@]),
    {
        match self.until.get(plugin_name) {
            Some(until) => now_ms < *until,
            None => false,
        }
    }

    /// Why a plugin could not be compiled.
    pub fn read_plugin_compile_failure(&self, plugin_name: &str) -> (r: Option<String>)
        ensures
            text::opt_string_view(r) == (if self.reasons@.dom().contains(plugin_name@) {
                Some(self.reasons@[plugin_name@]@)
            } else {
                None
            }),
    {
        match self.reasons.get(plugin_name) {
            Some(s) => Some(s.clone()),
            None => None,
        }
    }
}

// ---------------------------------------------------------------------------
// Which projects are served
// ---------------------------------------------------------------------------
/// What is known of a project when a round begins.
#[derive(Debug, Clone, Copy, PartialEq, Eq, Structural)]
pub struct ProjectState {
    /// Whether it was served before and is kept.
    pub kept: bool,
    /// Whether it has requests.
    pub pending: bool,
    /// Whether it was not known before.
    pub fresh: bool,
}

/// Whether a project is looked at in this round, and whether there is work.
#[derive(Debug, Clone, Copy, PartialEq, Eq, Structural)]
pub enum Selection {
    Skip,
    Look { active: bool },
}

/// Whether a project is looked at: one that is kept always is; another where
/// it is new, has requests, or all are looked at.
pub open spec fn selected(p: ProjectState, sweep_cold: bool) -> Selection {
    if p.kept {
        Selection::Look { active: p.pending }
    } else if sweep_cold || p.fresh || p.pending {
        Selection::Look { active: p.fresh || p.pending }
    } else {
        Selection::Skip
    }
}

/// Whether a project is looked at in this round.
pub fn select_project(p: ProjectState, sweep_cold: bool) -> (r: Selection)
    ensures
        r == selected(p, sweep_cold),
{
    if p.kept {
        Selection::Look { active: p.pending }
    } else if sweep_cold || p.fresh || p.pending {
        Selection::Look { active: p.fresh || p.pending }
    } else {
        Selection::Skip
    }
}

/// No project with requests is passed over.
pub proof fn law_projects_with_requests_are_served(p: ProjectState, sweep_cold: bool)
    requires
        p.pending,
    ensures
        selected(p, sweep_cold) == (Selection::Look { active: true }),
{
}

/// How many workers a round has: as many as projects, up to a limit, and at
/// least one for a limit of at least one.
pub fn worker_count(limit: usize, projects: usize) -> (r: usize)
    ensures
        r == (if projects == 0 {
            if limit < 1 {
                limit
            } else {
                1
            }
        } else if limit < projects {
            limit
        } else {
            projects
        }),
{
    let n: usize = if projects < 1 {
        1
    } else {
        projects
    };
    if limit < n {
        limit
    } else {
        n
    }
}

/// The positions, among the first `n`, of the projects with or without work.
pub open spec fn positions(active: Seq<bool>, which: bool, n: int) -> Seq<usize>
    decreases n,
{
    if n <= 0 {
        Seq::empty()
    } else if active[n - 1] == which {
        positions(active, which, n - 1).push((n - 1) as usize)
    } else {
        positions(active, which, n - 1)
    }
}

/// A list that begins further on, with what was passed at its end.
pub open spec fn rotated(s: Seq<usize>, by: int) -> Seq<usize> {
    s.skip(by) + s.take(by)
}

/// The order in which projects are queued: those without work, then those with
/// work, from where the last round stopped. The queue is taken from its end.
pub open spec fn queue_of(active: Seq<bool>, cursor: usize) -> Seq<usize> {
    let n = active.len() as int;
    let busy = positions(active, true, n);
    let idle = positions(active, false, n);
    if busy.len() == 0 {
        idle
    } else {
        idle + rotated(busy, cursor as int % busy.len() as int)
    }
}

/// Where the next round begins among the projects with work.
pub open spec fn next_cursor(busy: nat, cursor: usize, workers: usize) -> int {
    if busy == 0 {
        cursor as int
    } else {
        (cursor + workers) % busy as int
    }
}

/// The order in which projects are queued, and where the next round begins.
pub fn serving_order(active: &Vec<bool>, cursor: usize, workers: usize) -> (r: (Vec<usize>, usize))
    requires
        cursor + workers <= usize::MAX,
    ensures
        r.0@ == queue_of(active@, cursor),
        r.1 == next_cursor(
            positions(active@, true, active@.len() as int).len(),
            cursor,
            workers,
        ),
{
    let mut busy: Vec<usize> = Vec::new();
    let mut out: Vec<usize> = Vec::new();
    for i in 0..active.len()
        invariant
            busy@ == positions(active@, true, i as int),
            out@ == positions(active@, false, i as int),
    {
        if active[i] {
            busy.push(i);
        } else {
            out.push(i);
        }
    }
    let n: usize = busy.len();
    if n == 0 {
        return (out, cursor);
    }
    let ghost idle = out@;
    let by: usize = cursor % n;
    for i in by..n
        invariant
            n == busy@.len(),
            by < n,
            out@ == idle + busy@.subrange(by as int, i as int),
    {
        out.push(busy[i]);
        assert(busy@.subrange(by as int, i + 1) =~= busy@.subrange(by as int, i as int).push(
            busy@[i as int],
        ));
    }
    assert(busy@.subrange(by as int, n as int) =~= busy@.skip(by as int));
    let ghost first = out@;
    assert(first =~= idle + busy@.skip(by as int));
    for i in 0..by
        invariant
            n == busy@.len(),
            by < n,
            out@ == first + busy@.take(i as int),
    {
        out.push(busy[i]);
        assert(busy@.take(i + 1) =~= busy@.take(i as int).push(busy@[i as int]));
    }
    assert(out@ =~= idle + rotated(busy@, by as int));
    (out, (cursor + workers) % n)
}

/// The projects that are told to wait, in their order: all with work, where
/// they are more than the workers, and else none. The first of them is told
/// that it is at position 0.
pub open spec fn told_to_wait(active: Seq<bool>, workers: usize) -> Seq<usize> {
    let busy = positions(active, true, active.len() as int);
    if busy.len() > workers {
        busy
    } else {
        Seq::empty()
    }
}

/// The projects that are told to wait.
pub fn waiting_projects(active: &Vec<bool>, workers: usize) -> (r: Vec<usize>)
    ensures
        r@ == told_to_wait(active@, workers),
{
    let mut busy: Vec<usize> = Vec::new();
    for i in 0..active.len()
        invariant
            busy@ == positions(active@, true, i as int),
    {
        if active[i] {
            busy.push(i);
        }
    }
    if busy.len() > workers {
        busy
    } else {
        Vec::new()
    }
}

/// What is known of the positions of the projects with or without work.
proof fn lemma_positions(active: Seq<bool>, which: bool, n: int)
    requires
        0 <= n <= active.len(),
        active.len() <= usize::MAX,
    ensures
        positions(active, which, n).len() <= n,
        positions(active, which, n).len() + positions(active, !which, n).len() == n,
        forall|i: int|
            0 <= i < n && active[i] == which ==> #[trigger] positions(active, which, n).contains(
                i as usize,
            ),
        forall|k: int|
            0 <= k < positions(active, which, n).len() ==> {
                &&& (#[trigger] positions(active, which, n)[k]) < n
                &&& active[positions(active, which, n)[k] as int] == which
            },
        forall|j: int, k: int|
            0 <= j < k < positions(active, which, n).len() ==> positions(active, which, n)[j]
                < positions(active, which, n)[k],
    decreases n,
{
    if n > 0 {
        lemma_positions(active, which, n - 1);
        let rest = positions(active, which, n - 1);
        let all = positions(active, which, n);
        assert forall|i: int| 0 <= i < n && active[i] == which implies #[trigger] all.contains(
            i as usize,
        ) by {
            if i < n - 1 {
                assert(rest.contains(i as usize));
                let k = choose|k: int| 0 <= k < rest.len() && rest[k] == i as usize;
                assert(all[k] == i as usize);
            } else {
                assert(all[rest.len() as int] == i as usize);
            }
        }
    }
}

/// Every project that is looked at is queued, once: nothing is passed over and
/// nothing is served twice in a round.
pub proof fn law_every_project_is_queued_once(active: Seq<bool>, cursor: usize)
    requires
        active.len() <= usize::MAX,
    ensures
        queue_of(active, cursor).len() == active.len(),
        forall|i: int|
            0 <= i < active.len() ==> #[trigger] queue_of(active, cursor).contains(i as usize),
        forall|j: int, k: int|
            0 <= j < k < queue_of(active, cursor).len() ==> queue_of(active, cursor)[j]
                != queue_of(active, cursor)[k],
{
    let n = active.len() as int;
    let busy = positions(active, true, n);
    let idle = positions(active, false, n);
    let q = queue_of(active, cursor);
    lemma_positions(active, true, n);
    lemma_positions(active, false, n);
    if busy.len() > 0 {
        let by = cursor as int % busy.len() as int;
        let turned = rotated(busy, by);
        let tail = busy.len() - by;
        assert forall|k: int| 0 <= k < turned.len() implies #[trigger] turned[k] == (if k < tail {
            busy[by + k]
        } else {
            busy[k - tail]
        }) by {}
        assert forall|i: int| 0 <= i < active.len() implies #[trigger] q.contains(i as usize) by {
            if active[i] {
                assert(busy.contains(i as usize));
                let k = choose|k: int| 0 <= k < busy.len() && busy[k] == i as usize;
                if k >= by {
                    assert(turned[k - by] == i as usize);
                    assert(q[idle.len() + k - by] == i as usize);
                } else {
                    assert(turned[k + tail] == i as usize);
                    assert(q[idle.len() + k + tail] == i as usize);
                }
            } else {
                assert(idle.contains(i as usize));
                let k = choose|k: int| 0 <= k < idle.len() && idle[k] == i as usize;
                assert(q[k] == i as usize);
            }
        }
        assert forall|j: int, k: int| 0 <= j < k < q.len() implies q[j] != q[k] by {
            if k < idle.len() {
                assert(idle[j] < idle[k]);
            } else if j < idle.len() {
                assert(!active[idle[j] as int]);
                let b = k - idle.len();
                assert(q[k] == turned[b]);
                let pos = if b < tail {
                    by + b
                } else {
                    b - tail
                };
                assert(active[busy[pos] as int]);
            } else {
                let a = j - idle.len();
                let b = k - idle.len();
                let x = if a < tail {
                    by + a
                } else {
                    a - tail
                };
                let y = if b < tail {
                    by + b
                } else {
                    b - tail
                };
                assert(q[j] == turned[a] && q[k] == turned[b]);
                assert(turned[a] == busy[x] && turned[b] == busy[y]);
                assert(x != y);
                if x < y {
                    assert(busy[x] < busy[y]);
                } else {
                    assert(busy[y] < busy[x]);
                }
            }
        }
    } else {
        assert forall|i: int| 0 <= i < active.len() implies #[trigger] q.contains(i as usize) by {
            if active[i] {
                assert(busy.contains(i as usize));
            }
            assert(idle.contains(i as usize));
        }
    }
}

/// Projects with work are served before projects without: they stand at the
/// end of the queue, from which it is taken.
pub proof fn law_work_comes_first(active: Seq<bool>, cursor: usize, j: int, k: int)
    requires
        active.len() <= usize::MAX,
        0 <= j < queue_of(active, cursor).len(),
        0 <= k < queue_of(active, cursor).len(),
        active[queue_of(active, cursor)[j] as int],
        !active[queue_of(active, cursor)[k] as int],
    ensures
        k < j,
{
    let n = active.len() as int;
    let busy = positions(active, true, n);
    let idle = positions(active, false, n);
    lemma_positions(active, true, n);
    lemma_positions(active, false, n);
    let q = queue_of(active, cursor);
    if j < idle.len() {
        assert(!active[idle[j] as int]);
    }
    if k >= idle.len() {
        let by = cursor as int % busy.len() as int;
        let b = k - idle.len();
        let pos = if b < busy.len() - by {
            by + b
        } else {
            b - (busy.len() - by)
        };
        assert(q[k] == rotated(busy, by)[b]);
        assert(rotated(busy, by)[b] == busy[pos]);
        assert(active[busy[pos] as int]);
    }
}

/// Whether a project that was not active for long is dropped.
pub fn is_idle_project(last_active_ms: u64, idle_evict_ms: u64, now_ms: u64) -> (r: bool)
    ensures
        r == (last_active_ms < (if now_ms >= idle_evict_ms {
            now_ms - idle_evict_ms
        } else {
            now_ms as int
        })),
{
    let before: u64 = if now_ms >= idle_evict_ms {
        now_ms - idle_evict_ms
    } else {
        now_ms
    };
    last_active_ms < before
}

// ---------------------------------------------------------------------------
// Looking for updates
// ---------------------------------------------------------------------------
/// The plugins that are looked for: the one that is asked, or all that are
/// compiled.
pub fn poll_targets(forced: &Option<Option<String>>, compiled: &Vec<String>) -> (r: Vec<String>)
    ensures
        text::string_views(r@) == (match *forced {
            Some(Some(name)) => seq![name@],
            _ => text::string_views(compiled@),
        }),
{
    match forced {
        Some(Some(name)) => {
            let mut out: Vec<String> = Vec::new();
            out.push(name.clone());
            assert(text::string_views(out@) =~= seq![name@]);
            out
        },
        _ => read_known_project_roots(compiled),
    }
}

/// Whether a plugin is looked for: it is asked for, or due again. It is noted
/// then.
pub fn start_plugin_poll(
    polls: &mut StrMap<u64>,
    plugin_name: &str,
    forced: &Option<Option<String>>,
    interval_secs: u64,
    now_ms: u64,
) -> (r: bool)
    requires
        old(polls)@.dom().contains(plugin_name@) ==> old(polls)@[plugin_name@] <= now_ms,
    ensures
        r == (asks_for(*forced, plugin_name@) || (old(polls)@.dom().contains(plugin_name@)
            ==> is_due(old(polls)@[plugin_name@], interval_secs as nat * 1000, now_ms))),
        final(polls)@ == (if r {
            old(polls)@.insert(plugin_name@, now_ms)
        } else {
            old(polls)@
        }),
{
    let asked = match forced {
        Some(Some(name)) => text::str_eq(name.as_str(), plugin_name),
        _ => false,
    };
    let is_time = match polls.get(plugin_name) {
        Some(at) => (now_ms - *at) as u128 >= interval_secs as u128 * 1000,
        None => true,
    };
    if asked || is_time {
        polls.insert(plugin_name.to_owned(), now_ms);
        true
    } else {
        false
    }
}

/// Whether one plugin is asked for, and it is this one.
pub open spec fn asks_for(forced: Option<Option<String>>, plugin: Seq<char>) -> bool {
    forced matches Some(Some(name)) && name@ == plugin
}

/// What is told of errors in a round of looking for updates.
pub fn poll_errors(errors: &Vec<String>) -> (r: Option<String>)
    ensures
        text::opt_string_view(r) == (if errors@.len() == 0 {
            None
        } else {
            Some(text::joined(text::string_views(errors@), "; "@))
        }),
{
    if errors.len() == 0 {
        None
    } else {
        Some(text::join_strings(errors, "; "))
    }
}

/// A newer runner that waits: where, and of which version.
pub struct PendingUpdate {
    pub staged: String,
    pub version: String,
}

/// Notes that a newer runner waits. It waits since the first that was not
/// taken yet.
pub fn note_staged(
    pending: &mut Option<PendingUpdate>,
    since: &mut Option<u64>,
    staged: String,
    version: String,
    now_ms: u64,
)
    ensures
        *final(pending) == Some((PendingUpdate { staged, version })),
        *final(since) == (if *old(pending) is None {
            Some(now_ms)
        } else {
            *old(since)
        }),
{
    if pending.is_none() {
        *since = Some(now_ms);
    }
    *pending = Some(PendingUpdate { staged, version });
}

// ---------------------------------------------------------------------------
// What runs
// ---------------------------------------------------------------------------
/// How long a dispatch is waited for, in milliseconds.
pub const WORKER_AUTO_DETACH_AFTER_MS: u64 = 45_000;

/// How often the status of a project is written while a dispatch is waited for,
/// in milliseconds.
pub const STATUS_REFRESH_INTERVAL_MS: u64 = 5_000;

/// What is done about a dispatch that is waited for.
#[derive(Debug, Clone, Copy, PartialEq, Eq, Structural)]
pub enum WorkerStep {
    /// It is waited for further.
    Wait,
    /// It is waited for no more: it took too long, and runs on.
    Detach,
    /// It has ended.
    Finish,
    /// It is waited for no more: it was taken out of the daemon's hands.
    LetGo,
}

/// What is done about a dispatch that is waited for.
pub open spec fn worker_next(finished: bool, detached: bool, elapsed_ms: u64) -> WorkerStep {
    if !detached && elapsed_ms >= WORKER_AUTO_DETACH_AFTER_MS {
        WorkerStep::Detach
    } else if finished {
        WorkerStep::Finish
    } else if detached {
        WorkerStep::LetGo
    } else {
        WorkerStep::Wait
    }
}

/// What is done about a dispatch that is waited for.
pub fn worker_step(finished: bool, detached: bool, elapsed_ms: u64) -> (r: WorkerStep)
    ensures
        r == worker_next(finished, detached, elapsed_ms),
{
    if !detached && elapsed_ms >= WORKER_AUTO_DETACH_AFTER_MS {
        WorkerStep::Detach
    } else if finished {
        WorkerStep::Finish
    } else if detached {
        WorkerStep::LetGo
    } else {
        WorkerStep::Wait
    }
}

/// No dispatch keeps the daemon from its other projects for longer than that.
pub proof fn law_no_dispatch_blocks_the_daemon(finished: bool, detached: bool, elapsed_ms: u64)
    requires
        elapsed_ms >= WORKER_AUTO_DETACH_AFTER_MS,
    ensures
        worker_next(finished, detached, elapsed_ms) != WorkerStep::Wait,
{
}

/// Whether a project is left without more ado: nothing was claimed, it had its
/// requests, and has none now.
pub fn leaves_project(claimed: bool, in_dir_existed: bool, pending: bool) -> (r: bool)
    ensures
        r == (!claimed && in_dir_existed && !pending),
{
    !claimed && in_dir_existed && !pending
}

/// What is done about a plugin that is asked directly.
#[derive(Debug, Clone, Copy, PartialEq, Eq, Structural)]
pub enum DirectLoad {
    /// It is loaded.
    Ready,
    /// It is loaded first.
    Load,
    /// It is not compiled.
    NotCompiled,
}

/// What is done about a plugin that is asked directly: it must be loaded from
/// what is compiled, or loaded at all where nothing is.
pub fn direct_load(compiled: bool, loaded_current: bool, loaded: bool) -> (r: DirectLoad)
    ensures
        r == (if compiled {
            if loaded_current {
                DirectLoad::Ready
            } else {
                DirectLoad::Load
            }
        } else if loaded {
            DirectLoad::Ready
        } else {
            DirectLoad::NotCompiled
        }),
{
    if compiled {
        if loaded_current {
            DirectLoad::Ready
        } else {
            DirectLoad::Load
        }
    } else if loaded {
        DirectLoad::Ready
    } else {
        DirectLoad::NotCompiled
    }
}

/// What is answered where a plugin is asked that is not compiled.
pub fn not_compiled_yet(plugin_name: &str) -> (r: Json)
    ensures
        json::tree(r) == spool::failure(
            "plugin "@ + plugin_name@ + " not compiled yet for this daemon -- retry shortly"@,
            None,
        ),
{
    spool::failed_answer(
        text::add3(
            "plugin ",
            plugin_name,
            " not compiled yet for this daemon -- retry shortly",
        ).as_str(),
        None,
    )
}

/// What is answered where a plugin is asked that does not start.
pub fn instantiate_failed(error: &str) -> (r: Json)
    ensures
        json::tree(r) == spool::failure("plugin instantiate failed: "@ + error@, None),
{
    spool::failed_answer(text::add2("plugin instantiate failed: ", error).as_str(), None)
}

// ---------------------------------------------------------------------------
// Rest
// ---------------------------------------------------------------------------
/// What is done about instances that are kept.
#[derive(Debug, Clone, Copy, PartialEq, Eq, Structural)]
pub enum ReleaseStep {
    /// Nothing.
    Keep,
    /// There was work: they are kept for as long again.
    Restart,
    /// There was none for long: they are released.
    Release,
}

/// What is done about instances that are kept.
pub fn idle_release(worked: bool, last_ms: u64, idle_ms: u64, now_ms: u64) -> (r: ReleaseStep)
    requires
        last_ms <= now_ms,
    ensures
        r == (if worked {
            ReleaseStep::Restart
        } else if is_due(last_ms, idle_ms as nat, now_ms) {
            ReleaseStep::Release
        } else {
            ReleaseStep::Keep
        }),
{
    if worked {
        ReleaseStep::Restart
    } else if now_ms - last_ms >= idle_ms {
        ReleaseStep::Release
    } else {
        ReleaseStep::Keep
    }
}

/// How long the daemon runs without work, in milliseconds.
pub const SELF_RECYCLE_IDLE_MS: u64 = 3_600_000;

/// Whether the daemon ends because it had no work for long; never while
/// something runs.
pub fn recycles(worked: bool, last_work_ms: u64, in_flight: bool, now_ms: u64) -> (r: bool)
    requires
        last_work_ms <= now_ms,
    ensures
        r == (!worked && !in_flight && is_due(last_work_ms, SELF_RECYCLE_IDLE_MS as nat, now_ms)),
{
    !worked && now_ms - last_work_ms >= SELF_RECYCLE_IDLE_MS && !in_flight
}

// ---------------------------------------------------------------------------
// Serving one project
// ---------------------------------------------------------------------------
/// How a project comes to be served.
#[derive(Debug, Clone, Copy, PartialEq, Eq, Structural)]
pub enum SpoolStep {
    /// It is registered, and a daemon is had.
    EnsureDaemon { again: bool },
    /// It is looked which process is the daemon.
    LookForOwner { again: bool },
    /// This process becomes the daemon.
    BecomeDaemon,
    /// It is looked whether another process goes through the requests.
    LookForSweeper,
    /// This process serves the project on its own.
    Standalone,
    /// Another process serves the project.
    Served,
}

/// What follows a step, given whether what was looked for was found.
pub open spec fn after_step(s: SpoolStep, found: bool) -> SpoolStep {
    match s {
        SpoolStep::EnsureDaemon { again } => if found {
            SpoolStep::Served
        } else {
            SpoolStep::LookForOwner { again }
        },
        SpoolStep::LookForOwner { again } => if found {
            SpoolStep::Served
        } else if again {
            SpoolStep::LookForSweeper
        } else {
            SpoolStep::BecomeDaemon
        },
        SpoolStep::BecomeDaemon => SpoolStep::EnsureDaemon { again: true },
        SpoolStep::LookForSweeper => if found {
            SpoolStep::Served
        } else {
            SpoolStep::Standalone
        },
        SpoolStep::Standalone => SpoolStep::Standalone,
        SpoolStep::Served => SpoolStep::Served,
    }
}

/// What follows a step.
pub fn next_spool_step(s: SpoolStep, found: bool) -> (r: SpoolStep)
    ensures
        r == after_step(s, found),
{
    match s {
        SpoolStep::EnsureDaemon { again } => if found {
            SpoolStep::Served
        } else {
            SpoolStep::LookForOwner { again }
        },
        SpoolStep::LookForOwner { again } => if found {
            SpoolStep::Served
        } else if again {
            SpoolStep::LookForSweeper
        } else {
            SpoolStep::BecomeDaemon
        },
        SpoolStep::BecomeDaemon => SpoolStep::EnsureDaemon { again: true },
        SpoolStep::LookForSweeper => if found {
            SpoolStep::Served
        } else {
            SpoolStep::Standalone
        },
        SpoolStep::Standalone => SpoolStep::Standalone,
        SpoolStep::Served => SpoolStep::Served,
    }
}

/// A process serves a project on its own only where no other goes through its
/// requests.
pub proof fn law_standalone_only_without_sweeper(s: SpoolStep, found: bool)
    requires
        s != SpoolStep::Standalone,
        after_step(s, found) == SpoolStep::Standalone,
    ensures
        s == SpoolStep::LookForSweeper,
        !found,
{
}

/// How many steps there are at most until a project is served.
pub open spec fn spool_steps_left(s: SpoolStep) -> nat {
    match s {
        SpoolStep::EnsureDaemon { again: false } => 6,
        SpoolStep::LookForOwner { again: false } => 5,
        SpoolStep::BecomeDaemon => 4,
        SpoolStep::EnsureDaemon { again: true } => 3,
        SpoolStep::LookForOwner { again: true } => 2,
        SpoolStep::LookForSweeper => 1,
        SpoolStep::Standalone => 0,
        SpoolStep::Served => 0,
    }
}

/// A project comes to be served.
pub proof fn law_project_comes_to_be_served(s: SpoolStep, found: bool)
    requires
        s != SpoolStep::Standalone,
        s != SpoolStep::Served,
    ensures
        spool_steps_left(after_step(s, found)) < spool_steps_left(s),
{
}

/// How long the answer of the daemon is waited for, in milliseconds.
pub const DAEMON_ANSWER_WAIT_MS: u64 = 30_000;

/// How often it is looked for the answer, in milliseconds.
pub const DAEMON_ANSWER_POLL_MS: u64 = 100;

/// Whether the answer of the daemon is waited for further.
pub fn waits_for_answer(waited_ms: u64) -> (r: bool)
    ensures
        r == (waited_ms < DAEMON_ANSWER_WAIT_MS),
{
    waited_ms < DAEMON_ANSWER_WAIT_MS
}

/// The task of a request to the daemon: the process and the time.
pub fn direct_task(pid: u32, now_ms: u64) -> (r: String)
    ensures
        r@ == text::decimal(pid as nat) + text::decimal(now_ms as nat),
{
    text::add2(text::u64_text(pid as u64).as_str(), text::u64_text(now_ms).as_str())
}

/// Work is due once its interval has passed.
pub proof fn law_work_is_due_after_its_interval(last_ms: u64, interval_ms: nat, now_ms: u64)
    ensures
        is_due(last_ms, interval_ms, now_ms) <==> now_ms >= last_ms + interval_ms,
{
}

/// The projects that are new are those that were not known, in any spelling of
/// their path.
pub proof fn law_new_projects_were_not_known(before: Seq<String>, now: Seq<String>, n: int, i: int)
    requires
        0 <= i < n <= now.len(),
    ensures
        (forall|j: int| 0 <= j < before.len() ==> !path::same_path((#[trigger] before[j])@, now[i]@))
            ==> newly_known(before, now, n).contains(now[i]@),
        (forall|k: int|
            0 <= k < n ==> (exists|j: int|
                0 <= j < before.len() && path::same_path((#[trigger] before[j])@, (#[trigger] now[k])@)))
            ==> newly_known(before, now, n).len() == 0,
    decreases n,
{
    let all = newly_known(before, now, n);
    let rest = newly_known(before, now, n - 1);
    if i < n - 1 {
        law_new_projects_were_not_known(before, now, n - 1, i);
        if rest.contains(now[i]@) {
            let k = choose|k: int| 0 <= k < rest.len() && rest[k] == now[i]@;
            assert(all[k] == now[i]@);
        }
    } else {
        if n > 1 {
            law_new_projects_were_not_known(before, now, n - 1, 0);
        }
        if !path::lists_path(before, now[i]@) {
            assert(all[rest.len() as int] == now[i]@);
        }
    }
    if forall|k: int|
        0 <= k < n ==> (exists|j: int|
            0 <= j < before.len() && path::same_path((#[trigger] before[j])@, (#[trigger] now[k])@)) {
        assert(path::lists_path(before, now[n - 1]@));
    }
}

/// A project is looked at where it is kept, new or has requests, or where all
/// are; it is active where it has requests, or is new and not yet kept.
pub proof fn law_projects_are_looked_at(p: ProjectState, sweep_cold: bool)
    ensures
        selected(p, sweep_cold) is Skip <==> !p.kept && !sweep_cold && !p.fresh && !p.pending,
        selected(p, sweep_cold) matches Selection::Look { active } ==> active == (p.pending || (p.fresh
            && !p.kept)),
{
}

/// The busy projects take turns: the queue starts their part at the cursor, and
/// the next round starts where the workers left off.
pub proof fn law_busy_projects_take_turns(active: Seq<bool>, cursor: usize, workers: usize)
    requires
        positions(active, true, active.len() as int).len() > 0,
    ensures
        ({
            let busy = positions(active, true, active.len() as int);
            let idle = positions(active, false, active.len() as int);
            let q = queue_of(active, cursor);
            &&& q.len() == idle.len() + busy.len()
            &&& q[idle.len() as int] == busy[cursor as int % busy.len() as int]
            &&& cursor < busy.len() ==> q.last() == (if cursor == 0 {
                busy.last()
            } else {
                busy[cursor - 1]
            })
            &&& next_cursor(busy.len(), cursor, workers) == (cursor + workers) % busy.len() as int
            &&& cursor + workers < busy.len() ==> next_cursor(busy.len(), cursor, workers) == cursor
                + workers
        }),
        next_cursor(0, cursor, workers) == cursor,
{
    let busy = positions(active, true, active.len() as int);
    let by = cursor as int % busy.len() as int;
    assert(0 <= by < busy.len());
    if cursor < busy.len() {
        vstd::arithmetic::div_mod::lemma_small_mod(cursor as nat, busy.len());
    }
    if cursor + workers < busy.len() {
        vstd::arithmetic::div_mod::lemma_small_mod((cursor + workers) as nat, busy.len());
    }
}

/// The positions of the projects of a kind are all of them, in order.
pub proof fn law_positions_are_in_order(active: Seq<bool>, which: bool, n: int, i: int)
    requires
        0 <= i < n <= active.len(),
        n <= usize::MAX,
    ensures
        active[i] == which <==> positions(active, which, n).contains(i as usize),
        forall|j: int, k: int|
            0 <= j < k < positions(active, which, n).len() ==> positions(active, which, n)[j]
                < positions(active, which, n)[k],
        forall|j: int|
            0 <= j < positions(active, which, n).len() ==> #[trigger] positions(active, which, n)[j] < n,
    decreases n,
{
    let all = positions(active, which, n);
    let rest = positions(active, which, n - 1);
    if n > 1 {
        law_positions_are_in_order(active, which, n - 1, if i < n - 1 {
            i
        } else {
            0
        });
    }
    if active[n - 1] == which {
        assert(all[rest.len() as int] == (n - 1) as usize);
    }
    if i < n - 1 {
        if rest.contains(i as usize) {
            let k = choose|k: int| 0 <= k < rest.len() && rest[k] == i as usize;
            assert(all[k] == i as usize);
        }
        if all.contains(i as usize) {
            let k = choose|k: int| 0 <= k < all.len() && all[k] == i as usize;
            assert(k < rest.len());
            assert(rest[k] == i as usize);
        }
    } else if all.contains(i as usize) {
        let k = choose|k: int| 0 <= k < all.len() && all[k] == i as usize;
        if k < rest.len() {
            assert(rest[k] == i as usize);
        }
    }
}

/// The busy projects are told to wait where there are more of them than
/// workers, and none is otherwise.
pub proof fn law_projects_wait_where_workers_are_few(active: Seq<bool>, workers: usize)
    ensures
        ({
            let busy = positions(active, true, active.len() as int);
            &&& busy.len() > workers ==> told_to_wait(active, workers) == busy
            &&& busy.len() <= workers ==> told_to_wait(active, workers).len() == 0
        }),
{
}

/// A worker is let go on its own after 45 seconds; before that it is waited for
/// until it is done.
pub proof fn law_slow_workers_are_detached(finished: bool, detached: bool, elapsed_ms: u64)
    ensures
        !detached && elapsed_ms >= 45_000 ==> worker_next(finished, detached, elapsed_ms) is Detach,
        !detached && elapsed_ms < 45_000 && finished ==> worker_next(finished, detached, elapsed_ms)
            is Finish,
        !detached && elapsed_ms < 45_000 && !finished ==> worker_next(finished, detached, elapsed_ms)
            is Wait,
        detached && finished ==> worker_next(finished, detached, elapsed_ms) is Finish,
        detached && !finished ==> worker_next(finished, detached, elapsed_ms) is LetGo,
{
}

/// How a project comes to be served: by a daemon, by the owner of its requests,
/// by becoming the daemon, by a sweeper, and only then alone.
pub proof fn law_way_to_be_served(found: bool)
    ensures
        found ==> after_step(SpoolStep::EnsureDaemon { again: false }, found) is Served && after_step(
            SpoolStep::LookForOwner { again: false },
            found,
        ) is Served && after_step(SpoolStep::LookForSweeper, found) is Served,
        !found ==> after_step(SpoolStep::EnsureDaemon { again: false }, found) == (
        SpoolStep::LookForOwner { again: false }) && after_step(
            SpoolStep::LookForOwner { again: false },
            found,
        ) is BecomeDaemon && after_step(SpoolStep::EnsureDaemon { again: true }, found) == (
        SpoolStep::LookForOwner { again: true }) && after_step(
            SpoolStep::LookForOwner { again: true },
            found,
        ) is LookForSweeper && after_step(SpoolStep::LookForSweeper, found) is Standalone,
        after_step(SpoolStep::BecomeDaemon, found) == (SpoolStep::EnsureDaemon { again: true }),
        after_step(SpoolStep::Standalone, found) is Standalone,
        after_step(SpoolStep::Served, found) is Served,
{
}

/// The times of the daemon: browsers are swept every five minutes and cold
/// projects every half; a failed compile is tried again after one; its status
/// is written every five seconds; it starts anew after an idle hour; and an
/// answer of it is awaited for half a minute, ten times a second.
pub proof fn law_times_of_the_daemon()
    ensures
        BROWSER_ORPHAN_SWEEP_INTERVAL_MS == 5 * 60 * 1000,
        COLD_PROJECT_SWEEP_INTERVAL_MS == 30 * 1000,
        PLUGIN_COMPILE_RETRY_BACKOFF_MS == 60 * 1000,
        STATUS_REFRESH_INTERVAL_MS == 5 * 1000,
        SELF_RECYCLE_IDLE_MS == 60 * 60 * 1000,
        DAEMON_ANSWER_WAIT_MS == 30 * 1000,
        10 * DAEMON_ANSWER_POLL_MS == 1000,
{
}

} // verus!

//! Which process is the daemon.
use crate::exec_js;
use crate::imports;
use crate::json;
use crate::json::{Json, JsonTree};
use crate::path;
use crate::text;
use vstd::prelude::*;
use vstd::string::*;

verus! {

// ---------------------------------------------------------------------------
// Files
// ---------------------------------------------------------------------------
/// Where the daemon shows that it lives.
pub fn daemon_status_path(install_dir: &str) -> (r: String)
    ensures
        r@ == path::joined_path(install_dir@, "daemon-status.json"@),
{
    path::join(install_dir, "daemon-status.json")
}

/// The file that is there while a daemon is started.
pub fn daemon_lock_path(install_dir: &str) -> (r: String)
    ensures
        r@ == path::joined_path(install_dir@, "daemon.lock"@),
{
    path::join(install_dir, "daemon.lock")
}

/// Where it is noted which process is the daemon.
pub fn daemon_owner_path(install_dir: &str) -> (r: String)
    ensures
        r@ == path::joined_path(install_dir@, "daemon-owner.lock"@),
{
    path::join(install_dir, "daemon-owner.lock")
}

/// Where it is noted that daemons were started in vain.
pub fn daemon_spawn_backoff_path(install_dir: &str) -> (r: String)
    ensures
        r@ == path::joined_path(install_dir@, "daemon-spawn-backoff.json"@),
{
    path::join(install_dir, "daemon-spawn-backoff.json")
}

/// The file in which an owner is written before it takes its place.
pub fn owner_temporary_path(owner_path: &str, pid: u64) -> (r: String)
    ensures
        r@ == path::with_extension(owner_path@, "lock.tmp."@ + text::decimal(pid as nat)),
{
    path::replace_extension(
        owner_path,
        text::add2("lock.tmp.", text::u64_text(pid).as_str()).as_str(),
    )
}

/// The process that a file names.
pub open spec fn owner_in(content: Option<Seq<char>>) -> Option<nat> {
    match content {
        Some(s) => text::parsed_uint(text::trimmed(s), u64::MAX as nat),
        None => None,
    }
}

/// The process that is noted to be the daemon.
pub fn read_owner_pid(content: Option<&str>) -> (r: Option<u64>)
    ensures
        imports::opt_nat(r) == owner_in(text::opt_view(content)),
{
    match content {
        Some(s) => text::parse_u64(text::trim(s)),
        None => None,
    }
}

// ---------------------------------------------------------------------------
// Signs of life
// ---------------------------------------------------------------------------
/// After how long a sign of life is stale, in milliseconds.
pub const DAEMON_STALE_MS: u64 = 20_000;

/// A sign of life: the process and the time, as far as they are told.
#[derive(Debug, Clone, Copy, PartialEq, Eq, Structural)]
pub struct Heartbeat {
    pub pid: Option<u64>,
    pub ts: Option<u64>,
}

/// The sign of life that a status tells.
pub open spec fn heartbeat_in(status: Option<JsonTree>, h: Option<Heartbeat>) -> bool {
    match (status, h) {
        (Some(t), Some(b)) => imports::opt_nat(b.pid) == json::field_u64(t, "pid"@)
            && imports::opt_nat(b.ts) == json::field_u64(t, "ts"@),
        (None, None) => true,
        _ => false,
    }
}

/// The sign of life in a status.
pub fn heartbeat_of(status: &Option<Json>) -> (r: Option<Heartbeat>)
    ensures
        heartbeat_in(imports::opt_tree(*status), r),
{
    match status {
        Some(v) => Some(Heartbeat { pid: v.u64_field("pid"), ts: v.u64_field("ts") }),
        None => None,
    }
}

/// The sign of life in the file of a status.
pub fn read_heartbeat(content: Option<&str>) -> (r: Option<Heartbeat>)
    ensures
        heartbeat_in(exec_js::read_of(text::opt_view(content)), r),
{
    let status = match content {
        Some(s) => match json::parse(s) {
            Ok(j) => Some(j),
            Err(_) => None,
        },
        None => None,
    };
    heartbeat_of(&status)
}

/// Whether a time is not long past.
pub open spec fn recent(ts: Option<u64>, now_ms: u64, within_ms: u64) -> bool {
    now_ms - (match ts {
        Some(t) => t,
        None => 0,
    }) < within_ms
}

fn is_recent(ts: Option<u64>, now_ms: u64, within_ms: u64) -> (r: bool)
    requires
        within_ms > 0,
    ensures
        r == recent(ts, now_ms, within_ms),
{
    let t: u64 = match ts {
        Some(t) => t,
        None => 0,
    };
    now_ms.saturating_sub(t) < within_ms
}

/// The process that shows itself to be the daemon, if one does.
pub open spec fn fresh_pid(h: Option<Heartbeat>, now_ms: u64) -> Option<u64> {
    match h {
        Some(b) => if b.ts is Some && recent(b.ts, now_ms, DAEMON_STALE_MS) {
            b.pid
        } else {
            None
        },
        None => None,
    }
}

/// The process that shows itself to be the daemon. It is the daemon if it is
/// there.
pub fn fresh_daemon_pid(heartbeat: Option<Heartbeat>, now_ms: u64) -> (r: Option<u64>)
    ensures
        r == fresh_pid(heartbeat, now_ms),
{
    match heartbeat {
        Some(b) => if b.ts.is_some() && is_recent(b.ts, now_ms, DAEMON_STALE_MS) {
            b.pid
        } else {
            None
        },
        None => None,
    }
}

/// Whether a daemon serves: one shows itself, and its process is there.
pub fn shared_daemon_is_serving(heartbeat: Option<Heartbeat>, now_ms: u64, pid_alive: bool) -> (r: bool)
    ensures
        r == (fresh_pid(heartbeat, now_ms) is Some && pid_alive),
{
    fresh_daemon_pid(heartbeat, now_ms).is_some() && pid_alive
}

/// After how long another process that goes through the requests of a project
/// counts as gone, in milliseconds.
pub const FOREIGN_SWEEPER_STALE_MS: u64 = 120_000;

/// The other process that goes through the requests of a project, from the
/// status of the project. It counts if it is there.
pub fn foreign_spool_sweeper(heartbeat: Option<Heartbeat>, now_ms: u64, own_pid: u64) -> (r: Option<u64>)
    ensures
        r == (match heartbeat {
            Some(Heartbeat { pid: Some(pid), ts }) => if pid != own_pid && recent(
                ts,
                now_ms,
                FOREIGN_SWEEPER_STALE_MS,
            ) {
                Some(pid)
            } else {
                None
            },
            _ => None,
        }),
{
    match heartbeat {
        Some(b) => match b.pid {
            Some(pid) => if pid != own_pid && is_recent(b.ts, now_ms, FOREIGN_SWEEPER_STALE_MS) {
                Some(pid)
            } else {
                None
            },
            None => None,
        },
        None => None,
    }
}

/// The other process that goes through the requests of a project.
pub fn live_foreign_spool_sweeper(
    heartbeat: Option<Heartbeat>,
    now_ms: u64,
    own_pid: u64,
    pid_alive: bool,
) -> (r: Option<u64>)
    ensures
        r == (match heartbeat {
            Some(Heartbeat { pid: Some(pid), ts }) => if pid != own_pid && pid_alive && recent(
                ts,
                now_ms,
                FOREIGN_SWEEPER_STALE_MS,
            ) {
                Some(pid)
            } else {
                None
            },
            _ => None,
        }),
{
    if pid_alive {
        foreign_spool_sweeper(heartbeat, now_ms, own_pid)
    } else {
        None
    }
}

// ---------------------------------------------------------------------------
// Claiming
// ---------------------------------------------------------------------------
/// What is done next to become the daemon.
#[derive(Debug, Clone, Copy, PartialEq, Eq, Structural)]
pub enum ClaimStep {
    /// Nothing: the claim is decided.
    Decided(bool),
    /// The owner is looked at once more.
    Recheck,
    /// The process notes itself as the owner.
    Take,
}

/// Whether the owner that is noted shows that it lives.
pub open spec fn owner_is_fresh(owner: Option<u64>, h: Option<Heartbeat>, now_ms: u64) -> bool {
    match h {
        Some(b) => recent(b.ts, now_ms, DAEMON_STALE_MS) && b.pid == owner,
        None => false,
    }
}

fn owner_fresh(owner: Option<u64>, heartbeat: Option<Heartbeat>, now_ms: u64) -> (r: bool)
    ensures
        r == owner_is_fresh(owner, heartbeat, now_ms),
{
    match heartbeat {
        Some(b) => is_recent(b.ts, now_ms, DAEMON_STALE_MS) && match (b.pid, owner) {
            (Some(p), Some(o)) => p == o,
            (None, None) => true,
            _ => false,
        },
        None => false,
    }
}

fn is_me(owner: Option<u64>, me: u64) -> (r: bool)
    ensures
        r == (owner == Some(me)),
{
    match owner {
        Some(p) => p == me,
        None => false,
    }
}

/// The first look at an owner that is noted: one that lives keeps its place.
pub open spec fn first_look(
    owner: Option<u64>,
    h: Option<Heartbeat>,
    alive: bool,
    now_ms: u64,
    me: u64,
) -> ClaimStep {
    if owner_is_fresh(owner, h, now_ms) && owner is Some && alive {
        ClaimStep::Decided(owner == Some(me))
    } else {
        ClaimStep::Recheck
    }
}

/// The first look at an owner that is noted. `owner_alive` says whether its
/// process is there.
pub fn begin_claim(
    owner: Option<u64>,
    heartbeat: Option<Heartbeat>,
    owner_alive: bool,
    now_ms: u64,
    me: u64,
) -> (r: ClaimStep)
    ensures
        r == first_look(owner, heartbeat, owner_alive, now_ms, me),
{
    if owner_fresh(owner, heartbeat, now_ms) && owner.is_some() && owner_alive {
        ClaimStep::Decided(is_me(owner, me))
    } else {
        ClaimStep::Recheck
    }
}

/// Whether the owner has given up its place: it is gone, or shows no life.
pub open spec fn given_up(owner: Option<u64>, h: Option<Heartbeat>, alive: bool, now_ms: u64) -> bool {
    owner is None || !alive || match h {
        Some(b) => !recent(b.ts, now_ms, DAEMON_STALE_MS),
        None => true,
    }
}

/// The second look: the place is taken where it was given up, unless another
/// process with a lower number is there and has it.
pub open spec fn second_look(
    owner: Option<u64>,
    h: Option<Heartbeat>,
    alive: bool,
    now_ms: u64,
    me: u64,
) -> ClaimStep {
    if !given_up(owner, h, alive, now_ms) {
        ClaimStep::Decided(owner == Some(me))
    } else if owner is Some && owner->0 < me && alive {
        ClaimStep::Decided(false)
    } else {
        ClaimStep::Take
    }
}

/// The second look at an owner that is noted.
pub fn recheck_claim(
    owner: Option<u64>,
    heartbeat: Option<Heartbeat>,
    owner_alive: bool,
    now_ms: u64,
    me: u64,
) -> (r: ClaimStep)
    ensures
        r == second_look(owner, heartbeat, owner_alive, now_ms, me),
{
    let silent = match heartbeat {
        Some(b) => !is_recent(b.ts, now_ms, DAEMON_STALE_MS),
        None => true,
    };
    if owner.is_some() && owner_alive && !silent {
        return ClaimStep::Decided(is_me(owner, me));
    }
    match owner {
        Some(p) => if p < me && owner_alive {
            return ClaimStep::Decided(false);
        },
        None => {},
    }
    ClaimStep::Take
}

/// Whether the place is this process's, once it was taken: it is if the note
/// names it.
pub fn claim_ownership(owner_now: Option<u64>, me: u64) -> (r: bool)
    ensures
        r == (owner_now == Some(me)),
{
    is_me(owner_now, me)
}

/// A daemon that lives and shows it keeps its place from every other process.
pub proof fn law_live_daemon_keeps_its_place(
    owner: u64,
    h: Heartbeat,
    now_ms: u64,
    me: u64,
)
    requires
        owner != me,
        h.pid == Some(owner),
        recent(h.ts, now_ms, DAEMON_STALE_MS),
    ensures
        first_look(Some(owner), Some(h), true, now_ms, me) == ClaimStep::Decided(false),
        second_look(Some(owner), Some(h), true, now_ms, me) == ClaimStep::Decided(false),
{
}

/// Of two processes that are there and find each other noted, at most one
/// takes the place: the one with the lower number.
pub proof fn law_lower_process_wins(
    a: u64,
    b: u64,
    h: Option<Heartbeat>,
    now_ms: u64,
)
    requires
        a != b,
    ensures
        !(second_look(Some(a), h, true, now_ms, b) == ClaimStep::Take && second_look(
            Some(b),
            h,
            true,
            now_ms,
            a,
        ) == ClaimStep::Take),
        a < b ==> second_look(Some(a), h, true, now_ms, b) == ClaimStep::Decided(false),
{
}

/// A place that was given up by a process that is gone can be taken.
pub proof fn law_abandoned_place_is_taken(owner: Option<u64>, h: Option<Heartbeat>, now_ms: u64, me: u64)
    ensures
        first_look(owner, h, false, now_ms, me) == ClaimStep::Recheck,
        second_look(owner, h, false, now_ms, me) == ClaimStep::Take,
{
}

/// The owner that would refuse a claim: another process that lives and shows
/// it.
pub fn shared_daemon_owner_that_would_refuse_this_process(
    owner: Option<u64>,
    heartbeat: Option<Heartbeat>,
    owner_alive: bool,
    now_ms: u64,
    me: u64,
) -> (r: Option<u64>)
    ensures
        r == (if owner is Some && owner != Some(me) && owner_is_fresh(owner, heartbeat, now_ms)
            && owner_alive {
            owner
        } else {
            None
        }),
{
    if owner.is_some() && !is_me(owner, me) && owner_fresh(owner, heartbeat, now_ms)
        && owner_alive {
        owner
    } else {
        None
    }
}

/// The owner, where it is another process that is there.
pub fn live_foreign_daemon_owner_pid(owner: Option<u64>, owner_alive: bool, me: u64) -> (r: Option<u64>)
    ensures
        r == (if owner is Some && owner != Some(me) && owner_alive {
            owner
        } else {
            None
        }),
{
    if owner.is_some() && !is_me(owner, me) && owner_alive {
        owner
    } else {
        None
    }
}

/// How a daemon finds out whether the place is still its own.
#[derive(Debug, Clone, Copy, PartialEq, Eq, Structural)]
pub enum Authority {
    /// It is noted: the place is its own.
    Held,
    /// None is noted: it claims the place.
    Claim,
    /// Another is noted: it claims the place, and looks whether it is noted.
    ClaimAndLook,
}

/// How a daemon finds out whether the place is still its own.
pub fn holds_heartbeat_authority(owner: Option<u64>, me: u64) -> (r: Authority)
    ensures
        r == (if owner is None {
            Authority::Claim
        } else if owner == Some(me) {
            Authority::Held
        } else {
            Authority::ClaimAndLook
        }),
{
    match owner {
        None => Authority::Claim,
        Some(p) => if p == me {
            Authority::Held
        } else {
            Authority::ClaimAndLook
        },
    }
}

/// Whether a daemon that hands over removes the note of the owner: it does
/// where the note is its own.
pub fn releases_ownership(owner: Option<u64>, me: u64) -> (r: bool)
    ensures
        r == (owner == Some(me)),
{
    is_me(owner, me)
}

// ---------------------------------------------------------------------------
// Starts in vain
// ---------------------------------------------------------------------------
/// How long no daemon is started after one start in vain, in milliseconds.
pub const WASTED_DAEMON_START_BACKOFF_BASE_MS: u64 = 5_000;

/// The longest time for which no daemon is started, in milliseconds.
pub const WASTED_DAEMON_START_BACKOFF_CEILING_MS: u64 = 120_000;

/// What is noted of starts in vain: when the last was, and how many there were.
pub open spec fn wasted_in(status: Option<JsonTree>) -> (nat, nat) {
    match status {
        Some(t) => (
            match json::field_u64(t, "ts"@) {
                Some(ts) => ts,
                None => 0,
            },
            match json::field_u64(t, "wasted_starts"@) {
                Some(n) => n % 0x1_0000_0000,
                None => 0,
            },
        ),
        None => (0, 0),
    }
}

/// What is noted of starts in vain.
pub fn wasted_starts_of(status: &Option<Json>) -> (r: (u64, u32))
    ensures
        (r.0 as nat, r.1 as nat) == wasted_in(imports::opt_tree(*status)),
{
    match status {
        Some(v) => {
            let ts: u64 = match v.u64_field("ts") {
                Some(ts) => ts,
                None => 0,
            };
            let n: u64 = match v.u64_field("wasted_starts") {
                Some(n) => n,
                None => 0,
            };
            (ts, (n % 0x1_0000_0000) as u32)
        },
        None => (0, 0),
    }
}

/// What is noted of starts in vain, from the file.
pub fn read_wasted_daemon_start_backoff(content: Option<&str>) -> (r: (u64, u32))
    ensures
        (r.0 as nat, r.1 as nat) == wasted_in(exec_js::read_of(text::opt_view(content))),
{
    let status = match content {
        Some(s) => match json::parse(s) {
            Ok(j) => Some(j),
            Err(_) => None,
        },
        None => None,
    };
    wasted_starts_of(&status)
}

/// One start in vain more.
pub open spec fn one_more(n: u32) -> u32 {
    if n == u32::MAX {
        n
    } else {
        (n + 1) as u32
    }
}

/// What is noted once another start was in vain.
pub fn record_wasted_daemon_start(wasted_starts: u32, now_ms: u64) -> (r: Json)
    ensures
        json::tree(r) == json::obj2(
            "ts"@,
            json::uint_tree(now_ms as nat),
            "wasted_starts"@,
            json::uint_tree(one_more(wasted_starts) as nat),
        ),
{
    let n: u32 = if wasted_starts == u32::MAX {
        wasted_starts
    } else {
        wasted_starts + 1
    };
    json::object2("ts", json::uint(now_ms), "wasted_starts", json::uint(n as u64))
}

/// How long no daemon is started, after that many starts in vain.
pub open spec fn backoff_window(wasted_starts: nat) -> nat {
    let base = WASTED_DAEMON_START_BACKOFF_BASE_MS as nat;
    if wasted_starts == 0 {
        base
    } else if wasted_starts == 1 {
        base * 2
    } else if wasted_starts == 2 {
        base * 4
    } else if wasted_starts == 3 {
        base * 8
    } else if wasted_starts == 4 {
        base * 16
    } else {
        WASTED_DAEMON_START_BACKOFF_CEILING_MS as nat
    }
}

/// For how long no daemon is started yet.
pub open spec fn backoff_left(owner_alive: bool, ts: nat, wasted_starts: nat, now_ms: nat) -> nat {
    if !owner_alive || ts == 0 || wasted_starts == 0 {
        0
    } else {
        let past = if now_ms > ts {
            (now_ms - ts) as nat
        } else {
            0
        };
        if backoff_window(wasted_starts) > past {
            (backoff_window(wasted_starts) - past) as nat
        } else {
            0
        }
    }
}

/// For how long no daemon is started yet, given whether another process that
/// is there has the place.
pub fn wasted_daemon_start_backoff_remaining_ms(
    foreign_owner_alive: bool,
    ts: u64,
    wasted_starts: u32,
    now_ms: u64,
) -> (r: u64)
    ensures
        r == backoff_left(foreign_owner_alive, ts as nat, wasted_starts as nat, now_ms as nat),
{
    if !foreign_owner_alive || ts == 0 || wasted_starts == 0 {
        return 0;
    }
    let base: u64 = WASTED_DAEMON_START_BACKOFF_BASE_MS;
    let window: u64 = if wasted_starts == 1 {
        base * 2
    } else if wasted_starts == 2 {
        base * 4
    } else if wasted_starts == 3 {
        base * 8
    } else if wasted_starts == 4 {
        base * 16
    } else {
        WASTED_DAEMON_START_BACKOFF_CEILING_MS
    };
    window.saturating_sub(now_ms.saturating_sub(ts))
}

/// For how long no daemon is started yet, if that is so.
pub fn daemon_spawn_backoff_remaining_ms_if_active(
    foreign_owner_alive: bool,
    ts: u64,
    wasted_starts: u32,
    now_ms: u64,
) -> (r: Option<u64>)
    ensures
        ({
            let left = backoff_left(
                foreign_owner_alive,
                ts as nat,
                wasted_starts as nat,
                now_ms as nat,
            );
            imports::opt_nat(r) == (if left > 0 {
                Some(left)
            } else {
                None
            })
        }),
{
    let left: u64 = wasted_daemon_start_backoff_remaining_ms(
        foreign_owner_alive,
        ts,
        wasted_starts,
        now_ms,
    );
    if left > 0 {
        Some(left)
    } else {
        None
    }
}

/// The pause after a start in vain doubles with each, up to its longest, and
/// ends.
pub proof fn law_backoff_grows_and_ends(ts: nat, n: nat, now_ms: nat)
    requires
        n > 0,
    ensures
        backoff_window(n) <= backoff_window(n + 1) <= WASTED_DAEMON_START_BACKOFF_CEILING_MS,
        n < 4 ==> backoff_window(n + 1) == 2 * backoff_window(n),
        now_ms >= ts + WASTED_DAEMON_START_BACKOFF_CEILING_MS ==> backoff_left(true, ts, n, now_ms)
            == 0,
{
}

// ---------------------------------------------------------------------------
// Starting a daemon
// ---------------------------------------------------------------------------
/// What is done next to have a daemon run.
#[derive(Debug, Clone, Copy, PartialEq, Eq, Structural)]
pub enum StartStep {
    /// Nothing: whether one runs is known. `unlock` says whether the lock is
    /// removed.
    Known { runs: bool, unlock: bool },
    /// The lock is taken.
    TakeLock,
    /// A daemon is started.
    Spawn,
    /// It is looked again after a pause, that many times at most. `own_lock`
    /// says whether the lock is this process's.
    Wait { left: u32, own_lock: bool },
}

/// How long it is waited between two looks, in milliseconds.
pub const START_POLL_MS: u64 = 200;

/// The first step: where no daemon runs and none was started in vain, the lock
/// is taken.
pub fn ensure_daemon_running(fresh: bool, backoff_ms: u64) -> (r: StartStep)
    ensures
        r == (if fresh {
            StartStep::Known { runs: true, unlock: false }
        } else if backoff_ms > 0 {
            StartStep::Known { runs: false, unlock: false }
        } else {
            StartStep::TakeLock
        }),
{
    if fresh {
        StartStep::Known { runs: true, unlock: false }
    } else if backoff_ms > 0 {
        StartStep::Known { runs: false, unlock: false }
    } else {
        StartStep::TakeLock
    }
}

/// The step after the lock was tried: where another process has it, its daemon
/// is waited for.
pub fn lock_tried(acquired: bool) -> (r: StartStep)
    ensures
        r == (if acquired {
            StartStep::Spawn
        } else {
            StartStep::Wait { left: 30, own_lock: false }
        }),
{
    if acquired {
        StartStep::Spawn
    } else {
        StartStep::Wait { left: 30, own_lock: false }
    }
}

/// The step after a daemon was started: it is waited for.
pub fn daemon_spawned() -> (r: StartStep)
    ensures
        r == (StartStep::Wait { left: 50, own_lock: true }),
{
    StartStep::Wait { left: 50, own_lock: true }
}

/// The step after a look: a daemon that shows itself is enough. The lock is
/// removed by the process that has it, and by one that waited in vain.
pub open spec fn after_look(left: u32, own_lock: bool, fresh: bool) -> StartStep {
    if fresh {
        StartStep::Known { runs: true, unlock: own_lock }
    } else if left <= 1 {
        StartStep::Known { runs: false, unlock: true }
    } else {
        StartStep::Wait { left: (left - 1) as u32, own_lock }
    }
}

/// The step after a look.
pub fn looked(left: u32, own_lock: bool, fresh: bool) -> (r: StartStep)
    ensures
        r == after_look(left, own_lock, fresh),
{
    if fresh {
        StartStep::Known { runs: true, unlock: own_lock }
    } else if left <= 1 {
        StartStep::Known { runs: false, unlock: true }
    } else {
        StartStep::Wait { left: left - 1, own_lock }
    }
}

/// A daemon that was started and does not show itself is not waited for
/// forever.
pub proof fn law_waiting_ends(left: u32, own_lock: bool, fresh: bool)
    ensures
        match after_look(left, own_lock, fresh) {
            StartStep::Wait { left: now_left, .. } => now_left < left,
            StartStep::Known { .. } => true,
            _ => false,
        },
{
}

/// The lock on starting a daemon is kept until the daemon shows itself or is
/// given up: nobody starts a second one meanwhile.
pub proof fn law_start_lock_outlasts_the_start(left: u32, fresh: bool)
    ensures
        match after_look(left, true, fresh) {
            StartStep::Wait { own_lock, .. } => own_lock && !fresh,
            StartStep::Known { unlock, .. } => unlock && (fresh || left <= 1),
            _ => false,
        },
{
}

/// Whether the runner that starts is another version than the one that is
/// noted, so that versions known not to load are tried again.
pub fn runner_changed(recorded: Option<&str>, running: &str) -> (r: bool)
    ensures
        r == (text::opt_view(recorded) != Some(running@)),
{
    match recorded {
        Some(v) => !text::str_eq(v, running),
        None => true,
    }
}

/// The owner is the process whose number was written.
pub proof fn law_written_owner_is_read_back(pid: u64)
    ensures
        owner_in(Some(text::decimal(pid as nat))) == Some(pid as nat),
        owner_in(None) is None,
{
    text::law_decimal_reads_back(pid as nat, u64::MAX as nat);
    text::lemma_decimal(pid as nat);
    let d = text::decimal(pid as nat);
    assert(text::is_digit(d[0]) && text::is_digit(d[d.len() - 1]));
    assert(text::trimmed(d) == d);
}

/// A daemon counts as alive for twenty seconds after it last showed a sign.
pub proof fn law_sign_of_life_lasts(pid: u64, ts: u64, now_ms: u64)
    ensures
        now_ms < ts + 20_000 ==> fresh_pid(Some(Heartbeat { pid: Some(pid), ts: Some(ts) }), now_ms)
            == Some(pid),
        now_ms >= ts + 20_000 ==> fresh_pid(Some(Heartbeat { pid: Some(pid), ts: Some(ts) }), now_ms)
            is None,
        fresh_pid(Some(Heartbeat { pid: Some(pid), ts: None }), now_ms) is None,
        fresh_pid(None, now_ms) is None,
        now_ms < ts + 20_000 ==> owner_is_fresh(
            Some(pid),
            Some(Heartbeat { pid: Some(pid), ts: Some(ts) }),
            now_ms,
        ),
        now_ms >= ts + 20_000 ==> !owner_is_fresh(
            Some(pid),
            Some(Heartbeat { pid: Some(pid), ts: Some(ts) }),
            now_ms,
        ),
        forall|other: u64|
            other != pid ==> !#[trigger] owner_is_fresh(
                Some(other),
                Some(Heartbeat { pid: Some(pid), ts: Some(ts) }),
                now_ms,
            ),
        !owner_is_fresh(Some(pid), None, now_ms),
{
}

/// The place of a daemon belongs to the process that holds it and lives; what
/// is in doubt is looked at again, and then goes to the one that asks unless an
/// older process lives.
pub proof fn law_place_belongs_to_who_lives(owner: u64, ts: u64, alive: bool, now_ms: u64, me: u64)
    ensures
        ({
            let h = Some(Heartbeat { pid: Some(owner), ts: Some(ts) });
            let fresh = now_ms < ts + 20_000;
            &&& fresh && alive ==> first_look(Some(owner), h, alive, now_ms, me) == ClaimStep::Decided(
                owner == me,
            )
            &&& !(fresh && alive) ==> first_look(Some(owner), h, alive, now_ms, me) is Recheck
            &&& first_look(None, h, alive, now_ms, me) is Recheck
            &&& fresh && alive ==> second_look(Some(owner), h, alive, now_ms, me) == ClaimStep::Decided(
                owner == me,
            )
            &&& !fresh && alive && owner < me ==> second_look(Some(owner), h, alive, now_ms, me)
                == ClaimStep::Decided(false)
            &&& !fresh && alive && owner >= me ==> second_look(Some(owner), h, alive, now_ms, me) is Take
            &&& !alive ==> second_look(Some(owner), h, alive, now_ms, me) is Take
            &&& second_look(None, h, alive, now_ms, me) is Take
        }),
{
}

/// A sign of life is the process and the time of the status.
pub proof fn law_sign_of_life_is_that_of_the_status(t: JsonTree, pid: u64, ts: u64, h: Heartbeat)
    requires
        json::field(t, "pid"@) == Some(JsonTree::Number(text::decimal(pid as nat))),
        json::field(t, "ts"@) == Some(JsonTree::Number(text::decimal(ts as nat))),
    ensures
        heartbeat_in(Some(t), Some(h)) <==> h.pid == Some(pid) && h.ts == Some(ts),
        !heartbeat_in(Some(t), None),
        !heartbeat_in(None, Some(h)),
{
    text::law_decimal_reads_back(pid as nat, u64::MAX as nat);
    text::law_decimal_reads_back(ts as nat, u64::MAX as nat);
}

/// The wait after wasted starts doubles from ten seconds on, to two minutes.
pub proof fn law_wait_doubles(n: nat)
    ensures
        backoff_window(1) == 10_000,
        1 <= n < 4 ==> backoff_window(n + 1) == 2 * backoff_window(n),
        n >= 5 ==> backoff_window(n) == 120_000,
        backoff_window(0) == 5_000,
{
}

/// What is left of a wait is its length less the time gone; there is none
/// without a live owner or a wasted start.
pub proof fn law_wait_runs_down(ts: nat, n: nat, gone: nat)
    requires
        ts > 0,
        n > 0,
    ensures
        gone <= backoff_window(n) ==> backoff_left(true, ts, n, ts + gone) == backoff_window(n) - gone,
        gone >= backoff_window(n) ==> backoff_left(true, ts, n, ts + gone) == 0,
        backoff_left(false, ts, n, ts + gone) == 0,
        backoff_left(true, ts, 0, ts + gone) == 0,
        backoff_left(true, 0, n, gone) == 0,
{
}

/// Wasted starts are counted one by one, and read from the status.
pub proof fn law_wasted_starts_are_counted(n: u32, t: JsonTree, ts: u64)
    requires
        json::field(t, "ts"@) == Some(JsonTree::Number(text::decimal(ts as nat))),
        json::field(t, "wasted_starts"@) == Some(JsonTree::Number(text::decimal(n as nat))),
    ensures
        n < u32::MAX ==> one_more(n) == n + 1,
        one_more(u32::MAX) == u32::MAX,
        wasted_in(Some(t)) == (ts as nat, n as nat),
        wasted_in(None) == (0nat, 0nat),
{
    text::law_decimal_reads_back(ts as nat, u64::MAX as nat);
    text::law_decimal_reads_back(n as nat, u64::MAX as nat);
}

/// A start is over as soon as a daemon lives, and given up when the looks run
/// out; the lock of the starter is then taken off.
pub proof fn law_start_is_waited_for(left: u32, own_lock: bool)
    ensures
        after_look(left, own_lock, true) == (StartStep::Known { runs: true, unlock: own_lock }),
        left <= 1 ==> after_look(left, own_lock, false) == (StartStep::Known {
            runs: false,
            unlock: true,
        }),
        left > 1 ==> after_look(left, own_lock, false) == (StartStep::Wait {
            left: (left - 1) as u32,
            own_lock,
        }),
{
}

/// A sweeper of another daemon counts for two minutes, and a start is looked at
/// five times a second.
pub proof fn law_measures_of_a_start()
    ensures
        FOREIGN_SWEEPER_STALE_MS == 2 * 60 * 1000,
        5 * START_POLL_MS == 1000,
{
}

/// A time is recent while less than the span has passed since; one that is not
/// known counts from the start of time.
pub proof fn law_recent_times(ts: u64, now_ms: u64, within_ms: u64)
    ensures
        recent(Some(ts), now_ms, within_ms) <==> now_ms < ts + within_ms,
        recent(None, now_ms, within_ms) <==> now_ms < within_ms,
{
}

} // verus!

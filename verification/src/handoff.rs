//! Handing over to a newer runner, and what is fetched for a project.
use crate::exec_js;
use crate::imports;
use crate::json;
use crate::json::{Json, JsonTree};
use crate::path;
use crate::text;
use vstd::prelude::*;
use vstd::string::*;

verus! {

// ---------------------------------------------------------------------------
// Files
// ---------------------------------------------------------------------------
/// Where a newer runner shows that it is ready.
pub fn takeover_ready_path(install_dir: &str) -> (r: String)
    ensures
        r@ == path::joined_path(install_dir@, "daemon-takeover-ready.json"@),
{
    path::join(install_dir, "daemon-takeover-ready.json")
}

/// Where the last handover that was done is noted.
pub fn last_completed_runner_swap_path(install_dir: &str) -> (r: String)
    ensures
        r@ == path::joined_path(install_dir@, "last-completed-runner-swap.json"@),
{
    path::join(install_dir, "last-completed-runner-swap.json")
}

/// Where handovers that fail again and again are noted.
pub fn runner_update_escalation_path(install_dir: &str) -> (r: String)
    ensures
        r@ == path::joined_path(install_dir@, "runner-update-escalation.json"@),
{
    path::join(install_dir, "runner-update-escalation.json")
}

/// Where it is noted when plugins were last looked for.
pub fn persisted_plugin_poll_ts_path(install_dir: &str) -> (r: String)
    ensures
        r@ == path::joined_path(install_dir@, "last-plugin-update-poll-ts"@),
{
    path::join(install_dir, "last-plugin-update-poll-ts")
}

/// Where it is noted when a newer runner was last looked for.
pub fn persisted_runner_poll_ts_path(install_dir: &str) -> (r: String)
    ensures
        r@ == path::joined_path(install_dir@, "last-runner-update-poll-ts"@),
{
    path::join(install_dir, "last-runner-update-poll-ts")
}

/// Where a request to look for plugins is left.
pub fn force_plugin_refresh_marker_path(install_dir: &str) -> (r: String)
    ensures
        r@ == path::joined_path(install_dir@, "force-plugin-refresh.request"@),
{
    path::join(install_dir, "force-plugin-refresh.request")
}

/// Where a request to look for a newer runner is left.
pub fn force_runner_refresh_marker_path(install_dir: &str) -> (r: String)
    ensures
        r@ == path::joined_path(install_dir@, "force-runner-refresh.request"@),
{
    path::join(install_dir, "force-runner-refresh.request")
}

// ---------------------------------------------------------------------------
// Readiness
// ---------------------------------------------------------------------------
/// Whether a newer runner is what it is taken for: it prints its version.
pub fn staged_binary_self_check(succeeded: bool, printed: &str, expected_version: &str) -> (r: bool)
    ensures
        r == (succeeded && text::has_text(printed@, expected_version@)),
{
    succeeded && text::contains(printed, expected_version)
}

/// The version that a runner prints.
pub fn printed_version(printed: &str) -> (r: &str)
    ensures
        r@ == text::without_leading(text::trimmed(printed@), 'v'),
{
    text::trim_leading(text::trim(printed), 'v')
}

/// What a newer runner shows when it is ready.
pub open spec fn ready_tree(version: Seq<char>, pid: nat, now_ms: nat) -> JsonTree {
    json::obj3(
        "version"@,
        JsonTree::Str(version),
        "pid"@,
        json::uint_tree(pid),
        "ts"@,
        json::uint_tree(now_ms),
    )
}

pub fn ready_marker(version: &str, pid: u32, now_ms: u64) -> (r: Json)
    ensures
        json::tree(r) == ready_tree(version@, pid as nat, now_ms as nat),
{
    json::object3(
        "version",
        json::str(version),
        "pid",
        json::uint(pid as u64),
        "ts",
        json::uint(now_ms),
    )
}

/// Whether a newer runner of that version shows that it is ready.
pub open spec fn shows_ready(marker: Option<JsonTree>, version: Seq<char>) -> bool {
    match marker {
        Some(t) => json::field_str(t, "version"@) == Some(version),
        None => false,
    }
}

/// Whether a newer runner of that version shows that it is ready.
pub fn marker_shows_ready(marker: &Option<Json>, version: &str) -> (r: bool)
    ensures
        r == shows_ready(imports::opt_tree(*marker), version@),
{
    match marker {
        Some(v) => match v.str_field("version") {
            Some(s) => text::str_eq(s, version),
            None => false,
        },
        None => false,
    }
}

/// Whether a newer runner of that version shows that it is ready, in the file.
pub fn is_ready(content: Option<&str>, version: &str) -> (r: bool)
    ensures
        r == shows_ready(exec_js::read_of(text::opt_view(content)), version@),
{
    let marker = match content {
        Some(s) => match json::parse(s) {
            Ok(j) => Some(j),
            Err(_) => None,
        },
        None => None,
    };
    marker_shows_ready(&marker, version)
}

/// A runner that shows that it is ready is seen to be ready for its own
/// version, and for no other.
pub proof fn law_readiness_names_the_version(version: Seq<char>, pid: nat, now_ms: nat, other: Seq<char>)
    ensures
        shows_ready(Some(ready_tree(version, pid, now_ms)), other) == (other == version),
{
    reveal_strlit("version");
    reveal_strlit("pid");
    reveal_strlit("ts");
    assert("version"@.len() == 7 && "pid"@.len() == 3 && "ts"@.len() == 2);
}

/// What is noted of a handover that was done.
pub fn completed_swap(version: &str, now_ms: u64) -> (r: Json)
    ensures
        json::tree(r) == json::obj2(
            "version"@,
            JsonTree::Str(version@),
            "swapped_at_ts"@,
            json::uint_tree(now_ms as nat),
        ),
{
    json::object2("version", json::str(version), "swapped_at_ts", json::uint(now_ms))
}

/// What is done next to hand over.
pub enum HandoffStep {
    /// The newer runner is started.
    Spawn,
    /// It is looked after a pause whether it is ready, that many times at most.
    Wait { left: u32 },
    /// It is ready: the place is given up.
    Release,
    /// The handover failed, for that reason. `discard` says whether the newer
    /// runner is removed.
    Failed { reason: String, discard: bool },
}

/// How long it is waited between two looks, in milliseconds.
pub const HANDOFF_POLL_MS: u64 = 250;

/// How often it is looked whether a newer runner is ready.
pub const HANDOFF_LOOKS: u32 = 40;

/// The first step: a newer runner that is what it is taken for is started.
pub fn begin_handoff(check_passed: bool, version: &str) -> (r: HandoffStep)
    ensures
        match r {
            HandoffStep::Spawn => check_passed,
            HandoffStep::Failed { reason, discard } => !check_passed && discard && reason@
                == "staged_binary_self_check failed for "@ + version@ + ", staged exe removed"@,
            _ => false,
        },
{
    if check_passed {
        HandoffStep::Spawn
    } else {
        HandoffStep::Failed {
            reason: text::add3(
                "staged_binary_self_check failed for ",
                version,
                ", staged exe removed",
            ),
            discard: true,
        }
    }
}

/// The step after the newer runner was started.
pub fn handoff_spawned(error: Option<&str>, version: &str) -> (r: HandoffStep)
    ensures
        match (r, text::opt_view(error)) {
            (HandoffStep::Wait { left }, None) => left == HANDOFF_LOOKS,
            (HandoffStep::Failed { reason, discard }, Some(e)) => !discard && reason@
                == "spawn_detached of staged "@ + version@ + " failed: "@ + e,
            _ => false,
        },
{
    match error {
        None => HandoffStep::Wait { left: HANDOFF_LOOKS },
        Some(e) => HandoffStep::Failed {
            reason: text::add4("spawn_detached of staged ", version, " failed: ", e),
            discard: false,
        },
    }
}

/// The step after a look: a newer runner that is ready gets the place; one
/// that does not get ready does not.
pub fn handoff_looked(left: u32, ready: bool, version: &str) -> (r: HandoffStep)
    ensures
        match r {
            HandoffStep::Release => ready,
            HandoffStep::Wait { left: now_left } => !ready && left > 1 && now_left == left - 1,
            HandoffStep::Failed { reason, discard } => !ready && left <= 1 && !discard && reason@
                == "staged "@ + version@ + " did not write a matching readiness marker within 10s"@,
            HandoffStep::Spawn => false,
        },
{
    if ready {
        HandoffStep::Release
    } else if left > 1 {
        HandoffStep::Wait { left: left - 1 }
    } else {
        HandoffStep::Failed {
            reason: text::add3(
                "staged ",
                version,
                " did not write a matching readiness marker within 10s",
            ),
            discard: false,
        }
    }
}

// ---------------------------------------------------------------------------
// Handovers that fail
// ---------------------------------------------------------------------------
/// How often a handover fails in a row before it is told.
pub const HANDOFF_ESCALATION_THRESHOLD: u32 = 3;

/// The handovers that failed in a row: to which version, and how many.
pub struct HandoffFailures {
    pub version: String,
    pub count: u32,
}

/// How many handovers to a version failed in a row, with one more.
pub open spec fn failures_with(before: HandoffFailures, version: Seq<char>) -> nat {
    if before.version@ == version {
        before.count as nat + 1
    } else {
        1
    }
}

/// How the runner is installed by hand.
pub open spec fn install_command(windows: bool) -> Seq<char> {
    if windows {
        "irm https://raw.githubusercontent.com/AnEntrypoint/gm/main/install.ps1 | iex"@
    } else {
        "curl -fsSL https://raw.githubusercontent.com/AnEntrypoint/gm/main/install.sh | sh -s -- spool"@
    }
}

/// What is told of handovers that fail again and again.
pub open spec fn escalation(
    version: Seq<char>,
    failures: nat,
    reason: Seq<char>,
    windows: bool,
    now_ms: nat,
) -> JsonTree {
    json::obj5(
        "version"@,
        JsonTree::Str(version),
        "consecutive_failures"@,
        json::uint_tree(failures),
        "reason"@,
        JsonTree::Str(reason),
        "command"@,
        JsonTree::Str(install_command(windows)),
        "since_ts"@,
        json::uint_tree(now_ms),
    )
}

impl HandoffFailures {
    /// No handover failed.
    pub fn new() -> (r: Self)
        ensures
            r.version@ == Seq::<char>::empty(),
            r.count == 0,
    {
        HandoffFailures { version: String::new(), count: 0 }
    }

    /// Notes that a handover failed. Gives what is told of it, once enough
    /// failed in a row.
    pub fn record_handoff_failure(&mut self, version: &str, reason: &str, windows: bool, now_ms: u64) -> (r:
        Option<Json>)
        requires
            old(self).count < u32::MAX,
        ensures
            final(self).version@ == version@,
            final(self).count == failures_with(*old(self), version@),
            imports::opt_tree(r) == (if final(self).count < HANDOFF_ESCALATION_THRESHOLD {
                None
            } else {
                Some(
                    escalation(
                        version@,
                        final(self).count as nat,
                        reason@,
                        windows,
                        now_ms as nat,
                    ),
                )
            }),
    {
        if text::str_eq(self.version.as_str(), version) {
            self.count = self.count + 1;
        } else {
            self.version = version.to_owned();
            self.count = 1;
        }
        if self.count < HANDOFF_ESCALATION_THRESHOLD {
            return None;
        }
        let command = if windows {
            "irm https://raw.githubusercontent.com/AnEntrypoint/gm/main/install.ps1 | iex"
        } else {
            "curl -fsSL https://raw.githubusercontent.com/AnEntrypoint/gm/main/install.sh | sh -s -- spool"
        };
        Some(
            json::object5(
                "version",
                json::str(version),
                "consecutive_failures",
                json::uint(self.count as u64),
                "reason",
                json::str(reason),
                "command",
                json::str(command),
                "since_ts",
                json::uint(now_ms),
            ),
        )
    }

    /// Notes that a handover to a version was done. What was told of failures
    /// is removed then.
    pub fn clear_handoff_escalation(&mut self, version: &str)
        ensures
            if old(self).version@ == version@ {
                final(self).version@ == Seq::<char>::empty() && final(self).count == 0
            } else {
                *final(self) == *old(self)
            },
    {
        if text::str_eq(self.version.as_str(), version) {
            self.version = String::new();
            self.count = 0;
        }
    }
}

/// Failures are counted for each version on its own: a handover to another
/// version starts anew.
pub proof fn law_failures_are_counted_by_version(before: HandoffFailures, version: Seq<char>)
    ensures
        before.version@ != version ==> failures_with(before, version) == 1,
        before.version@ == version ==> failures_with(before, version) == before.count + 1,
{
}

// ---------------------------------------------------------------------------
// When to hand over
// ---------------------------------------------------------------------------
/// How long a newer runner waits before it counts as starved, in milliseconds.
pub const SELF_UPDATE_MAX_STARVED_MS: u64 = 600_000;

/// How long a newer runner waits at most, in milliseconds.
pub const SELF_UPDATE_HARD_CAP_MS: u64 = 660_000;

/// Why a daemon hands over, if it does.
#[derive(Debug, Clone, Copy, PartialEq, Eq, Structural)]
pub enum HandoffReason {
    /// It does not.
    NotYet,
    /// It has nothing to do.
    Idle,
    /// The newer runner waited long enough; what runs is left to it.
    DespiteInFlight,
    /// The newer runner waited long enough; there was always something to do.
    NeverIdle,
}

/// Why a daemon hands over to a newer runner that waits for some time.
pub open spec fn handoff_reason(worked: bool, in_flight: bool, waited_ms: Option<u64>) -> HandoffReason {
    let capped = waited_ms is Some && waited_ms->0 >= SELF_UPDATE_HARD_CAP_MS;
    if capped && in_flight {
        HandoffReason::DespiteInFlight
    } else if capped && worked {
        HandoffReason::NeverIdle
    } else if !worked && !in_flight {
        HandoffReason::Idle
    } else {
        HandoffReason::NotYet
    }
}

/// Whether a daemon hands over to a newer runner, and why: it does when it has
/// nothing to do, or when the newer runner has waited long enough.
pub fn should_hand_off(worked: bool, in_flight: bool, waited_ms: Option<u64>) -> (r: HandoffReason)
    ensures
        r == handoff_reason(worked, in_flight, waited_ms),
{
    let starved = match waited_ms {
        Some(ms) => ms >= SELF_UPDATE_MAX_STARVED_MS,
        None => false,
    };
    let capped = match waited_ms {
        Some(ms) => ms >= SELF_UPDATE_HARD_CAP_MS,
        None => false,
    };
    if starved && in_flight && capped {
        HandoffReason::DespiteInFlight
    } else if starved && capped && !in_flight && worked {
        HandoffReason::NeverIdle
    } else if !worked && !in_flight {
        HandoffReason::Idle
    } else {
        HandoffReason::NotYet
    }
}

/// A newer runner is not kept waiting forever, however busy the daemon is.
pub proof fn law_update_is_not_starved(worked: bool, in_flight: bool, waited_ms: u64)
    requires
        waited_ms >= SELF_UPDATE_HARD_CAP_MS,
    ensures
        handoff_reason(worked, in_flight, Some(waited_ms)) != HandoffReason::NotYet,
{
}

/// Until then, no dispatch that runs is given up for it.
pub proof fn law_running_dispatches_get_their_time(worked: bool, waited_ms: Option<u64>)
    requires
        waited_ms matches Some(ms) ==> ms < SELF_UPDATE_HARD_CAP_MS,
    ensures
        handoff_reason(worked, true, waited_ms) == HandoffReason::NotYet,
{
}

// ---------------------------------------------------------------------------
// Timers across restarts
// ---------------------------------------------------------------------------
/// When it was last looked for something, from the file that notes it; zero
/// for never.
pub open spec fn persisted_ts(content: Option<Seq<char>>) -> nat {
    match content {
        Some(s) => match text::parsed_uint(text::trimmed(s), u64::MAX as nat) {
            Some(ts) => ts,
            None => 0,
        },
        None => 0,
    }
}

pub fn read_persisted_poll_ts(content: Option<&str>) -> (r: u64)
    ensures
        r == persisted_ts(text::opt_view(content)),
{
    match content {
        Some(s) => match text::parse_u64(text::trim(s)) {
            Some(ts) => ts,
            None => 0,
        },
        None => 0,
    }
}

/// How long ago something was done that was never done: a year, in
/// milliseconds.
pub const NEVER_POLLED_BACKDATE_MS: u64 = 31_536_000_000;

/// A time in the past as far as the clock goes back: half as long ago, and
/// half again, until it does.
pub open spec fn backdated(now: nat, ms_ago: nat) -> nat
    decreases ms_ago,
{
    if ms_ago == 0 {
        now
    } else if ms_ago <= now {
        (now - ms_ago) as nat
    } else {
        backdated(now, ms_ago / 2)
    }
}

/// A time in the past as far as the clock goes back.
pub fn instant_backdated_by_ms_capped_to_process_epoch(now: u64, ms_ago: u64) -> (r: u64)
    ensures
        r == backdated(now as nat, ms_ago as nat),
        r <= now,
{
    let mut probe: u64 = ms_ago;
    while probe > 0
        invariant
            backdated(now as nat, ms_ago as nat) == backdated(now as nat, probe as nat),
        decreases probe,
    {
        if probe <= now {
            return now - probe;
        }
        probe = probe / 2;
    }
    now
}

/// When it was last looked for something, on the clock of the process.
pub fn seed_poll_timer_from_persisted_ts(persisted_ts: u64, now_ms: u64, clock_ms: u64) -> (r: u64)
    ensures
        r == backdated(
            clock_ms as nat,
            if persisted_ts == 0 {
                NEVER_POLLED_BACKDATE_MS as nat
            } else if persisted_ts < now_ms {
                (now_ms - persisted_ts) as nat
            } else {
                0
            },
        ),
        r <= clock_ms,
{
    let elapsed: u64 = if persisted_ts == 0 {
        NEVER_POLLED_BACKDATE_MS
    } else {
        now_ms.saturating_sub(persisted_ts)
    };
    instant_backdated_by_ms_capped_to_process_epoch(clock_ms, elapsed)
}

// ---------------------------------------------------------------------------
// Requests to look for something
// ---------------------------------------------------------------------------
/// What a request to look for plugins asks: one plugin, or all.
pub fn take_forced_plugin_refresh_request(content: Option<&str>) -> (r: Option<Option<String>>)
    ensures
        match text::opt_view(content) {
            None => r is None,
            Some(s) => r is Some && text::opt_string_view(r->0) == (if text::is_blank(s) {
                None
            } else {
                Some(text::trimmed(s))
            }),
        },
{
    match content {
        None => None,
        Some(s) => Some(
            if text::blank(s) {
                None
            } else {
                Some(text::trim(s).to_owned())
            },
        ),
    }
}

/// What a request to look for plugins asks, as read.
pub open spec fn refresh_asked(body: Option<JsonTree>) -> (Option<Seq<char>>, bool) {
    match body {
        Some(t) => (
            json::field_str(t, "plugin"@),
            json::field_bool(t, "runner"@) == Some(true),
        ),
        None => (None, false),
    }
}

/// A request to look for plugins.
pub struct RefreshRequest {
    pub plugin: Option<String>,
    pub runner: bool,
}

/// A request to look for plugins, with the given content.
pub fn refresh_request_of(body: &Option<Json>) -> (r: RefreshRequest)
    ensures
        (text::opt_string_view(r.plugin), r.runner) == refresh_asked(imports::opt_tree(*body)),
{
    match body {
        Some(v) => {
            let plugin = match v.str_field("plugin") {
                Some(s) => Some(s.to_owned()),
                None => None,
            };
            let runner = match v.bool_field("runner") {
                Some(b) => b,
                None => false,
            };
            RefreshRequest { plugin, runner }
        },
        None => RefreshRequest { plugin: None, runner: false },
    }
}

/// A request to look for plugins.
pub fn refresh_request(body: &str) -> (r: RefreshRequest)
    ensures
        (text::opt_string_view(r.plugin), r.runner) == refresh_asked(
            exec_js::read_of(Some(body@)),
        ),
{
    let v = match json::parse(body) {
        Ok(j) => Some(j),
        Err(_) => None,
    };
    refresh_request_of(&v)
}

/// What is left for the daemon: the plugin that is asked, or nothing for all.
pub fn refresh_marker(request: &RefreshRequest) -> (r: String)
    ensures
        r@ == imports::or_default(text::opt_string_view(request.plugin), ""@),
{
    match &request.plugin {
        Some(p) => p.clone(),
        None => "".to_owned(),
    }
}

/// What is answered to a request to look for plugins.
pub fn handle_plugin_refresh_request(request: &RefreshRequest, sideload: Option<Json>, root: &str) -> (r:
    Json)
    ensures
        json::tree(r) == json::with_field(
            json::with_field(
                json::obj5(
                    "ok"@,
                    JsonTree::Bool(true),
                    "queued"@,
                    JsonTree::Bool(true),
                    "plugin"@,
                    json::opt_str_tree(text::opt_string_view(request.plugin)),
                    "runner_queued"@,
                    JsonTree::Bool(request.runner),
                    "local_dev_sideload"@,
                    match sideload {
                        Some(j) => json::tree(j),
                        None => JsonTree::Null,
                    },
                ),
                "note"@,
                JsonTree::Str(refresh_note()),
            ),
            "root"@,
            JsonTree::Str(root@),
        ),
{
    let plugin = match &request.plugin {
        Some(p) => json::opt_str(Some(p.as_str())),
        None => json::opt_str(None),
    };
    let marker = match sideload {
        Some(j) => j,
        None => Json::Null,
    };
    json::object5(
        "ok",
        json::boolean(true),
        "queued",
        json::boolean(true),
        "plugin",
        plugin,
        "runner_queued",
        json::boolean(request.runner),
        "local_dev_sideload",
        marker,
    ).with(
        "note",
        json::str(
            "the running daemon's plugin-update (and, if runner:true was passed, runner-binary-update) poll will fire on its next loop tick instead of waiting for the normal interval; re-dispatch health shortly after to observe the new version. local_dev_sideload is non-null only when the queried plugin's installed .version marker is not recognized release semver -- that plugin will never be auto-updated until the marker or the wasm is replaced",
        ),
    ).with("root", json::str(root))
}

/// What a request to look for plugins is told.
pub open spec fn refresh_note() -> Seq<char> {
    "the running daemon's plugin-update (and, if runner:true was passed, runner-binary-update) poll will fire on its next loop tick instead of waiting for the normal interval; re-dispatch health shortly after to observe the new version. local_dev_sideload is non-null only when the queried plugin's installed .version marker is not recognized release semver -- that plugin will never be auto-updated until the marker or the wasm is replaced"@
}

// ---------------------------------------------------------------------------
// Instructions of a project
// ---------------------------------------------------------------------------
/// Where it is noted from where the instructions of a project come.
pub fn instruction_source_config_path(root: &str) -> (r: String)
    ensures
        r@ == path::joined3(root@, ".gm"@, "instructions"@, "source.json"@),
{
    path::join3(root, ".gm", "instructions", "source.json")
}

/// Where the instructions of a project are kept.
pub fn instruction_source_cache_dir(root: &str) -> (r: String)
    ensures
        r@ == path::joined2(root@, ".gm"@, "instructions-source-cache"@),
{
    path::join2(root, ".gm", "instructions-source-cache")
}

/// What is run to fetch instructions: each command with the error where it
/// fails.
pub struct GitCommand {
    pub args: Vec<String>,
    pub on_failure: String,
}

/// The commands that fetch the instructions of a project: a copy where there
/// is none, else the newest.
pub fn sync_instruction_source_if_configured(
    cache_exists: bool,
    repo: &str,
    branch: &str,
    cache_dir: &str,
    root: &str,
) -> (r: Vec<GitCommand>)
    ensures
        if cache_exists {
            &&& r@.len() == 2
            &&& text::string_views(r@[0].args@) == seq![
                "-C"@,
                cache_dir@,
                "fetch"@,
                "--depth"@,
                "1"@,
                "origin"@,
                branch@,
            ]
            &&& r@[0].on_failure@ == "git fetch of "@ + repo@ + " (branch "@ + branch@ + ") failed"@
            &&& text::string_views(r@[1].args@) == seq![
                "-C"@,
                cache_dir@,
                "reset"@,
                "--hard"@,
                "origin/"@ + branch@,
            ]
            &&& r@[1].on_failure@ == "git reset of instruction source cache for "@ + root@
                + " failed"@
        } else {
            &&& r@.len() == 1
            &&& text::string_views(r@[0].args@) == seq![
                "clone"@,
                "--depth"@,
                "1"@,
                "--branch"@,
                branch@,
                repo@,
                cache_dir@,
            ]
            &&& r@[0].on_failure@ == "git clone of "@ + repo@ + " (branch "@ + branch@ + ") failed"@
        },
{
    let mut out: Vec<GitCommand> = Vec::new();
    if cache_exists {
        let mut fetch: Vec<String> = Vec::new();
        fetch.push("-C".to_owned());
        fetch.push(cache_dir.to_owned());
        fetch.push("fetch".to_owned());
        fetch.push("--depth".to_owned());
        fetch.push("1".to_owned());
        fetch.push("origin".to_owned());
        fetch.push(branch.to_owned());
        assert(text::string_views(fetch@) =~= seq![
            "-C"@,
            cache_dir@,
            "fetch"@,
            "--depth"@,
            "1"@,
            "origin"@,
            branch@,
        ]);
        out.push(
            GitCommand {
                args: fetch,
                on_failure: text::add5("git fetch of ", repo, " (branch ", branch, ") failed"),
            },
        );
        let mut reset: Vec<String> = Vec::new();
        reset.push("-C".to_owned());
        reset.push(cache_dir.to_owned());
        reset.push("reset".to_owned());
        reset.push("--hard".to_owned());
        reset.push(text::add2("origin/", branch));
        assert(text::string_views(reset@) =~= seq![
            "-C"@,
            cache_dir@,
            "reset"@,
            "--hard"@,
            "origin/"@ + branch@,
        ]);
        out.push(
            GitCommand {
                args: reset,
                on_failure: text::add3(
                    "git reset of instruction source cache for ",
                    root,
                    " failed",
                ),
            },
        );
    } else {
        let mut clone: Vec<String> = Vec::new();
        clone.push("clone".to_owned());
        clone.push("--depth".to_owned());
        clone.push("1".to_owned());
        clone.push("--branch".to_owned());
        clone.push(branch.to_owned());
        clone.push(repo.to_owned());
        clone.push(cache_dir.to_owned());
        assert(text::string_views(clone@) =~= seq![
            "clone"@,
            "--depth"@,
            "1"@,
            "--branch"@,
            branch@,
            repo@,
            cache_dir@,
        ]);
        out.push(
            GitCommand {
                args: clone,
                on_failure: text::add5("git clone of ", repo, " (branch ", branch, ") failed"),
            },
        );
    }
    out
}

/// The most bytes of the daemon's log before another is begun.
pub const DAEMON_LOG_MAX_BYTES: u64 = 8_388_608;

/// Whether the daemon's log is put aside and another begun.
pub fn rotates_log(len: Option<u64>) -> (r: bool)
    ensures
        r == (match len {
            Some(n) => n > DAEMON_LOG_MAX_BYTES,
            None => false,
        }),
{
    match len {
        Some(n) => n > DAEMON_LOG_MAX_BYTES,
        None => false,
    }
}

// ---------------------------------------------------------------------------
// Taking over
// ---------------------------------------------------------------------------
/// How often a newer runner looks whether the place is given up.
pub const TAKEOVER_LOOKS: u32 = 480;

/// What a newer runner does next.
#[derive(Debug, Clone, Copy, PartialEq, Eq, Structural)]
pub enum TakeoverStep {
    /// It claims the place.
    Claim,
    /// It looks again after a pause, that many times at most.
    Wait { left: u32 },
    /// It gives up: the daemon that runs goes on.
    GiveUp,
    /// It has the place.
    Serve,
}

/// What a newer runner does after it looked which process has the place.
pub fn takeover_looked(left: u32, place_free: bool) -> (r: TakeoverStep)
    ensures
        r == (if place_free {
            TakeoverStep::Claim
        } else {
            waits_on(left)
        }),
{
    if place_free {
        TakeoverStep::Claim
    } else if left > 1 {
        TakeoverStep::Wait { left: left - 1 }
    } else {
        TakeoverStep::GiveUp
    }
}

/// What a newer runner does that did not get the place.
pub open spec fn waits_on(left: u32) -> TakeoverStep {
    if left > 1 {
        TakeoverStep::Wait { left: (left - 1) as u32 }
    } else {
        TakeoverStep::GiveUp
    }
}

/// What a newer runner does after it claimed the place.
pub fn takeover_claimed(left: u32, claimed: bool) -> (r: TakeoverStep)
    ensures
        r == (if claimed {
            TakeoverStep::Serve
        } else {
            waits_on(left)
        }),
{
    if claimed {
        TakeoverStep::Serve
    } else if left > 1 {
        TakeoverStep::Wait { left: left - 1 }
    } else {
        TakeoverStep::GiveUp
    }
}

/// What is done to put a runner in its place.
#[derive(Debug, Clone, Copy, PartialEq, Eq, Structural)]
pub enum PromoteStep {
    /// The runner that is in place is put aside.
    PutAside,
    /// The runner is copied to its place.
    Copy,
    /// What was put aside is put back.
    PutBack,
    /// Nothing more. `promoted` says whether it is in its place.
    Done { promoted: bool },
}

/// The first step: a runner that is in its place stays there.
pub fn begin_promotion(staged: &str, canonical_exe: &str, canonical_exists: bool) -> (r: PromoteStep)
    ensures
        r == (if path::same_path(staged@, canonical_exe@) {
            PromoteStep::Done { promoted: false }
        } else if canonical_exists {
            PromoteStep::PutAside
        } else {
            PromoteStep::Copy
        }),
{
    if path::same(staged, canonical_exe) {
        PromoteStep::Done { promoted: false }
    } else if canonical_exists {
        PromoteStep::PutAside
    } else {
        PromoteStep::Copy
    }
}

/// The step after the runner in place was put aside.
pub fn put_aside(done: bool) -> (r: PromoteStep)
    ensures
        r == (if done {
            PromoteStep::Copy
        } else {
            PromoteStep::Done { promoted: false }
        }),
{
    if done {
        PromoteStep::Copy
    } else {
        PromoteStep::Done { promoted: false }
    }
}

/// The step after the runner was copied: where that failed, what was put aside
/// is put back.
pub fn copied_to_place(done: bool, previous_exists: bool) -> (r: PromoteStep)
    ensures
        r == (if done {
            PromoteStep::Done { promoted: true }
        } else if previous_exists {
            PromoteStep::PutBack
        } else {
            PromoteStep::Done { promoted: false }
        }),
{
    if done {
        PromoteStep::Done { promoted: true }
    } else if previous_exists {
        PromoteStep::PutBack
    } else {
        PromoteStep::Done { promoted: false }
    }
}

/// The names of the fields differ.
proof fn lemma_handoff_names()
    ensures
        "version"@.len() == 7,
        "pid"@.len() == 3,
        "ts"@.len() == 2,
        "consecutive_failures"@.len() == 20,
        "reason"@.len() == 6,
        "command"@.len() == 7,
        "since_ts"@.len() == 8,
        "version"@[0] == 'v' && "command"@[0] == 'c',
{
    reveal_strlit("version");
    reveal_strlit("pid");
    reveal_strlit("ts");
    reveal_strlit("consecutive_failures");
    reveal_strlit("reason");
    reveal_strlit("command");
    reveal_strlit("since_ts");
}

/// A runner that is ready says so with its version, its process and the time.
pub proof fn law_ready_runner_says_who_it_is(version: Seq<char>, pid: nat, now_ms: nat)
    ensures
        json::field(ready_tree(version, pid, now_ms), "version"@) == Some(JsonTree::Str(version)),
        json::field(ready_tree(version, pid, now_ms), "pid"@) == Some(
            JsonTree::Number(text::decimal(pid)),
        ),
        json::field(ready_tree(version, pid, now_ms), "ts"@) == Some(
            JsonTree::Number(text::decimal(now_ms)),
        ),
{
    lemma_handoff_names();
}

/// After failures the user is told the version, how often and why it failed, and
/// the command that installs it on their system.
pub proof fn law_user_is_told_how_to_install(
    version: Seq<char>,
    failures: nat,
    reason: Seq<char>,
    windows: bool,
    now_ms: nat,
)
    ensures
        ({
            let e = escalation(version, failures, reason, windows, now_ms);
            &&& json::field(e, "version"@) == Some(JsonTree::Str(version))
            &&& json::field(e, "consecutive_failures"@) == Some(
                JsonTree::Number(text::decimal(failures)),
            )
            &&& json::field(e, "reason"@) == Some(JsonTree::Str(reason))
            &&& json::field(e, "since_ts"@) == Some(JsonTree::Number(text::decimal(now_ms)))
            &&& windows ==> json::field(e, "command"@) == Some(
                JsonTree::Str(
                    "irm https://raw.githubusercontent.com/AnEntrypoint/gm/main/install.ps1 | iex"@,
                ),
            )
            &&& !windows ==> json::field(e, "command"@) == Some(
                JsonTree::Str(
                    "curl -fsSL https://raw.githubusercontent.com/AnEntrypoint/gm/main/install.sh | sh -s -- spool"@,
                ),
            )
        }),
{
    lemma_handoff_names();
}

/// Failures of the same version add up; those of another start anew.
pub proof fn law_failures_of_one_version_add_up(before: HandoffFailures, version: Seq<char>)
    ensures
        before.version@ == version ==> failures_with(before, version) == before.count + 1,
        before.version@ != version ==> failures_with(before, version) == 1,
{
}

/// An update is handed over when nothing goes on; after eleven minutes of
/// waiting it is handed over whatever goes on, and the reason says which.
pub proof fn law_update_waits_for_a_pause(worked: bool, in_flight: bool, waited_ms: u64)
    ensures
        waited_ms < 660_000 ==> (handoff_reason(worked, in_flight, Some(waited_ms)) is Idle) == (!worked
            && !in_flight),
        waited_ms < 660_000 ==> (handoff_reason(worked, in_flight, Some(waited_ms)) is NotYet) == (worked
            || in_flight),
        waited_ms >= 660_000 && in_flight ==> handoff_reason(worked, in_flight, Some(waited_ms))
            is DespiteInFlight,
        waited_ms >= 660_000 && !in_flight && worked ==> handoff_reason(
            worked,
            in_flight,
            Some(waited_ms),
        ) is NeverIdle,
        !worked && !in_flight ==> handoff_reason(worked, in_flight, None) is Idle,
        worked || in_flight ==> handoff_reason(worked, in_flight, None) is NotYet,
        waited_ms >= 660_000 && !in_flight && !worked ==> handoff_reason(
            worked,
            in_flight,
            Some(waited_ms),
        ) is Idle,
{
}

/// A time that was written is read back; without one it is zero.
pub proof fn law_written_time_is_read_back(ts: u64)
    ensures
        persisted_ts(Some(text::decimal(ts as nat))) == ts,
        persisted_ts(None) == 0,
{
    text::law_decimal_reads_back(ts as nat, u64::MAX as nat);
    text::lemma_decimal(ts as nat);
    let d = text::decimal(ts as nat);
    assert(text::is_digit(d[0]) && text::is_digit(d[d.len() - 1]));
    assert(text::trimmed(d) == d);
}

/// A clock is set back by the time asked for, or by as much of it as there is.
pub proof fn law_clock_is_set_back_as_far_as_it_goes(now: nat, ms_ago: nat)
    ensures
        ms_ago <= now ==> backdated(now, ms_ago) == now - ms_ago,
        backdated(now, ms_ago) <= now,
        ms_ago > now && now > 0 ==> backdated(now, ms_ago) < now,
    decreases ms_ago,
{
    if ms_ago > now {
        law_clock_is_set_back_as_far_as_it_goes(now, ms_ago / 2);
    }
}

/// A request to refresh names a plugin, and the runner where it says so.
pub proof fn law_refresh_is_asked_by_name(body: JsonTree, plugin: Seq<char>)
    requires
        json::field(body, "plugin"@) == Some(JsonTree::Str(plugin)),
    ensures
        refresh_asked(Some(body)).0 == Some(plugin),
        json::field(body, "runner"@) == Some(JsonTree::Bool(true)) ==> refresh_asked(Some(body)).1,
        json::field(body, "runner"@) == Some(JsonTree::Bool(false)) || json::field(body, "runner"@) is None
            ==> !refresh_asked(Some(body)).1,
        refresh_asked(None) == (None::<Seq<char>>, false),
{
}

/// A runner that takes over looks once less each time, and then gives up.
pub proof fn law_looks_run_out(left: u32)
    ensures
        left > 1 ==> waits_on(left) == (TakeoverStep::Wait { left: (left - 1) as u32 }),
        left <= 1 ==> waits_on(left) is GiveUp,
{
}

/// The times and counts of a handover: ten seconds of looks for the new runner,
/// two minutes for its place, three failures before the user is told, and a log
/// of eight megabytes.
pub proof fn law_measures_of_a_handover()
    ensures
        HANDOFF_LOOKS * HANDOFF_POLL_MS == 10_000,
        HANDOFF_POLL_MS == 250,
        TAKEOVER_LOOKS * HANDOFF_POLL_MS == 120_000,
        HANDOFF_ESCALATION_THRESHOLD == 3,
        SELF_UPDATE_MAX_STARVED_MS == 600_000,
        NEVER_POLLED_BACKDATE_MS == 1000 * 60 * 60 * 24 * 365,
        DAEMON_LOG_MAX_BYTES == 8 * 1024 * 1024,
{
}

/// A time that is no number counts as none.
pub proof fn law_unreadable_time_is_none(s: Seq<char>)
    requires
        text::trimmed(s) == s,
        s.len() > 0,
        !text::is_digit(s[0]),
        s[0] != '+',
    ensures
        persisted_ts(Some(s)) == 0,
{
    assert(!text::all_digits(s));
}

} // verus!

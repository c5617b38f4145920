//! What the daemon tells of itself and of the projects it serves.
use crate::exec_js;
use crate::imports;
use crate::json;
use crate::json::{Json, JsonTree};
use crate::pool::SlotContentSnapshot;
use crate::text;
use vstd::prelude::*;
use vstd::string::*;

verus! {

// ---------------------------------------------------------------------------
// Parts
// ---------------------------------------------------------------------------
/// The first `n` of a list of names and texts, as the fields of an object.
pub open spec fn text_object(list: Seq<(String, String)>, n: int) -> JsonTree
    decreases n,
{
    if n <= 0 {
        json::no_fields()
    } else {
        json::with_field(
            text_object(list, n - 1),
            list[n - 1].0@,
            JsonTree::Str(list[n - 1].1@),
        )
    }
}

fn object_of_texts(list: &Vec<(String, String)>) -> (r: Json)
    ensures
        json::tree(r) == text_object(list@, list@.len() as int),
{
    let mut out = json::object();
    for i in 0..list.len()
        invariant
            json::tree(out) == text_object(list@, i as int),
    {
        out = out.with(list[i].0.as_str(), json::str(list[i].1.as_str()));
    }
    out
}

/// The status that was written before, if it is an object.
pub open spec fn earlier(status: Option<JsonTree>) -> JsonTree {
    match status {
        Some(JsonTree::Object(m)) => JsonTree::Object(m),
        _ => json::no_fields(),
    }
}

fn earlier_of(status: Option<Json>) -> (r: Json)
    ensures
        json::tree(r) == earlier(imports::opt_tree(status)),
{
    match status {
        Some(v) => if v.is_object() {
            v
        } else {
            json::object()
        },
        None => json::object(),
    }
}

fn read(content: Option<&str>) -> (r: Option<Json>)
    ensures
        imports::opt_tree(r) == exec_js::read_of(text::opt_view(content)),
{
    match content {
        Some(s) => match json::parse(s) {
            Ok(j) => Some(j),
            Err(_) => None,
        },
        None => None,
    }
}

/// A number, or nothing for zero.
pub open spec fn nonzero(n: u64) -> JsonTree {
    if n == 0 {
        JsonTree::Null
    } else {
        json::uint_tree(n as nat)
    }
}

fn nonzero_json(n: u64) -> (r: Json)
    ensures
        json::tree(r) == nonzero(n),
{
    if n == 0 {
        Json::Null
    } else {
        json::uint(n)
    }
}

/// A number, or nothing.
pub open spec fn opt_num(o: Option<u64>) -> JsonTree {
    match o {
        Some(n) => json::uint_tree(n as nat),
        None => JsonTree::Null,
    }
}

fn opt_num_json(o: Option<u64>) -> (r: Json)
    ensures
        json::tree(r) == opt_num(o),
{
    match o {
        Some(n) => json::uint(n),
        None => Json::Null,
    }
}

/// How long ago a time was.
pub open spec fn since(ts: u64, now_ms: u64) -> u64 {
    if ts < now_ms {
        (now_ms - ts) as u64
    } else {
        0
    }
}

// ---------------------------------------------------------------------------
// A project
// ---------------------------------------------------------------------------
/// What the status of a project tells.
pub struct ProjectVitals {
    pub pid: u32,
    pub now_ms: u64,
    /// Until when the project is busy, if it is.
    pub busy_until: Option<u64>,
    /// The place of the project among those that wait, and how many there are.
    pub queue: Option<(usize, usize)>,
    pub queued_steps: usize,
    pub claimed_steps: usize,
    pub capacity: usize,
    pub capacity_reason: String,
    pub recycle_limit_mb: u64,
    pub queue_wait_ms: u64,
    /// Since when a newer runner waits, if one does.
    pub staged_at_ms: Option<u64>,
    /// The plugins that could not be compiled, and why.
    pub failures: Vec<(String, String)>,
}

/// The status of a project: what was told before, with what is told now.
pub open spec fn project_status(before: Option<JsonTree>, v: ProjectVitals) -> JsonTree {
    let t = earlier(before);
    let t = json::with_field(t, "pid"@, json::uint_tree(v.pid as nat));
    let t = json::with_field(t, "ts"@, json::uint_tree(v.now_ms as nat));
    let t = json::with_field(t, "daemon"@, JsonTree::Bool(true));
    let t = json::with_field(t, "shared_process"@, JsonTree::Bool(true));
    let t = json::with_field(t, "runtime"@, JsonTree::Str("agentplug"@));
    let t = match v.busy_until {
        Some(ms) => json::with_field(t, "busy_until"@, json::uint_tree(ms as nat)),
        None => json::without_field(t, "busy_until"@),
    };
    let t = match v.queue {
        Some((position, total)) => json::with_field(
            json::with_field(t, "queue_position"@, json::uint_tree(position as nat)),
            "queue_depth"@,
            json::uint_tree(total as nat),
        ),
        None => t,
    };
    let t = json::with_field(t, "queued_step_count"@, json::uint_tree(v.queued_steps as nat));
    let t = json::with_field(t, "claimed_step_count"@, json::uint_tree(v.claimed_steps as nat));
    let t = json::with_field(t, "gm_processor_capacity"@, json::uint_tree(v.capacity as nat));
    let t = json::with_field(
        t,
        "gm_processor_capacity_reason"@,
        JsonTree::Str(v.capacity_reason@),
    );
    let t = json::with_field(
        t,
        "shared_store_recycle_limit_mb"@,
        json::uint_tree(v.recycle_limit_mb as nat),
    );
    let t = json::with_field(
        t,
        "tool_serialization"@,
        JsonTree::Str("fifo per plugin and verb"@),
    );
    let t = json::with_field(t, "queue_wait_ms"@, json::uint_tree(v.queue_wait_ms as nat));
    let t = match v.staged_at_ms {
        Some(at) => json::with_field(
            json::with_field(t, "runner_update_in_progress"@, JsonTree::Bool(true)),
            "runner_update_waiting_ms"@,
            json::uint_tree(since(at, v.now_ms) as nat),
        ),
        None => t,
    };
    if v.failures@.len() == 0 {
        json::without_field(t, "plugin_compile_failures"@)
    } else {
        json::with_field(
            t,
            "plugin_compile_failures"@,
            text_object(v.failures@, v.failures@.len() as int),
        )
    }
}

/// The status of a project, from the one before.
pub fn project_heartbeat(before: Option<Json>, v: &ProjectVitals) -> (r: Json)
    ensures
        json::tree(r) == project_status(imports::opt_tree(before), *v),
{
    let t = earlier_of(before).with("pid", json::uint(v.pid as u64)).with(
        "ts",
        json::uint(v.now_ms),
    ).with("daemon", json::boolean(true)).with("shared_process", json::boolean(true)).with(
        "runtime",
        json::str("agentplug"),
    );
    let t = match v.busy_until {
        Some(ms) => t.with("busy_until", json::uint(ms)),
        None => t.without("busy_until"),
    };
    let t = match v.queue {
        Some((position, total)) => t.with("queue_position", json::uint(position as u64)).with(
            "queue_depth",
            json::uint(total as u64),
        ),
        None => t,
    };
    let t = t.with("queued_step_count", json::uint(v.queued_steps as u64)).with(
        "claimed_step_count",
        json::uint(v.claimed_steps as u64),
    ).with("gm_processor_capacity", json::uint(v.capacity as u64)).with(
        "gm_processor_capacity_reason",
        json::str(v.capacity_reason.as_str()),
    ).with("shared_store_recycle_limit_mb", json::uint(v.recycle_limit_mb)).with(
        "tool_serialization",
        json::str("fifo per plugin and verb"),
    ).with("queue_wait_ms", json::uint(v.queue_wait_ms));
    let t = match v.staged_at_ms {
        Some(at) => t.with("runner_update_in_progress", json::boolean(true)).with(
            "runner_update_waiting_ms",
            json::uint(v.now_ms.saturating_sub(at)),
        ),
        None => t,
    };
    if v.failures.len() == 0 {
        t.without("plugin_compile_failures")
    } else {
        t.with("plugin_compile_failures", object_of_texts(&v.failures))
    }
}

/// The status of a project, from the file of the one before.
pub fn write_project_heartbeat_with_queue_info(before: Option<&str>, v: &ProjectVitals) -> (r: Json)
    ensures
        json::tree(r) == project_status(exec_js::read_of(text::opt_view(before)), *v),
{
    project_heartbeat(read(before), v)
}

/// Until when a status says that a project is busy, if that is still to come.
pub open spec fn busy_in(status: Option<JsonTree>, now_ms: u64) -> Option<nat> {
    match status {
        Some(t) => match json::field_u64(t, "busy_until"@) {
            Some(ms) => if ms > now_ms {
                Some(ms)
            } else {
                None
            },
            None => None,
        },
        None => None,
    }
}

/// Until when a status says that a project is busy.
pub fn busy_until_of(status: &Option<Json>, now_ms: u64) -> (r: Option<u64>)
    ensures
        imports::opt_nat(r) == busy_in(imports::opt_tree(*status), now_ms),
{
    match status {
        Some(v) => match v.u64_field("busy_until") {
            Some(ms) => if ms > now_ms {
                Some(ms)
            } else {
                None
            },
            None => None,
        },
        None => None,
    }
}

/// Until when a project is busy, from the file of its status.
pub fn read_status_busy_until_if_future(content: Option<&str>, now_ms: u64) -> (r: Option<u64>)
    ensures
        imports::opt_nat(r) == busy_in(exec_js::read_of(text::opt_view(content)), now_ms),
{
    busy_until_of(&read(content), now_ms)
}

/// For how long a project with requests counts as busy, in milliseconds.
pub const TICKER_BUSY_UNTIL_EXTEND_MS: u64 = 60_000;

/// Until when a project counts as busy: for a while where it has requests,
/// else as its status says.
pub fn busy_until_for_project_ticker(has_work: bool, told: Option<u64>, now_ms: u64) -> (r: Option<u64>)
    requires
        now_ms + TICKER_BUSY_UNTIL_EXTEND_MS <= u64::MAX,
    ensures
        r == (if has_work {
            Some((now_ms + TICKER_BUSY_UNTIL_EXTEND_MS) as u64)
        } else {
            told
        }),
{
    if has_work {
        Some(now_ms + TICKER_BUSY_UNTIL_EXTEND_MS)
    } else {
        told
    }
}

/// The fields of which the status of a project tells.
pub open spec fn told_fields() -> Seq<Seq<char>> {
    seq![
        "pid"@,
        "ts"@,
        "daemon"@,
        "shared_process"@,
        "runtime"@,
        "busy_until"@,
        "queue_position"@,
        "queue_depth"@,
        "queued_step_count"@,
        "claimed_step_count"@,
        "gm_processor_capacity"@,
        "gm_processor_capacity_reason"@,
        "shared_store_recycle_limit_mb"@,
        "tool_serialization"@,
        "queue_wait_ms"@,
        "runner_update_in_progress"@,
        "runner_update_waiting_ms"@,
        "plugin_compile_failures"@,
    ]
}

/// A project keeps what others told of it: every field of which the daemon
/// does not tell itself.
pub proof fn law_status_keeps_what_others_told(before: Option<JsonTree>, v: ProjectVitals, k: Seq<char>)
    requires
        !told_fields().contains(k),
    ensures
        json::field(project_status(before, v), k) == json::field(earlier(before), k),
{
    let told = told_fields();
    assert(told[0] != k);
    assert(told[1] != k);
    assert(told[2] != k);
    assert(told[3] != k);
    assert(told[4] != k);
    assert(told[5] != k);
    assert(told[6] != k);
    assert(told[7] != k);
    assert(told[8] != k);
    assert(told[9] != k);
    assert(told[10] != k);
    assert(told[11] != k);
    assert(told[12] != k);
    assert(told[13] != k);
    assert(told[14] != k);
    assert(told[15] != k);
    assert(told[16] != k);
    assert(told[17] != k);
}

// ---------------------------------------------------------------------------
// A watcher on its own
// ---------------------------------------------------------------------------
/// The status of a project that a watcher on its own serves.
pub open spec fn standalone_status(before: Option<JsonTree>, pid: nat, now_ms: nat) -> JsonTree {
    let t = json::with_field(earlier(before), "pid"@, json::uint_tree(pid));
    let t = json::with_field(t, "ts"@, json::uint_tree(now_ms));
    let t = json::with_field(t, "runtime"@, JsonTree::Str("agentplug-runner-standalone"@));
    let t = json::with_field(t, "daemon"@, JsonTree::Bool(false));
    json::with_field(t, "shared_process"@, JsonTree::Bool(false))
}

pub fn standalone_heartbeat(before: Option<Json>, pid: u32, now_ms: u64) -> (r: Json)
    ensures
        json::tree(r) == standalone_status(imports::opt_tree(before), pid as nat, now_ms as nat),
{
    earlier_of(before).with("pid", json::uint(pid as u64)).with("ts", json::uint(now_ms)).with(
        "runtime",
        json::str("agentplug-runner-standalone"),
    ).with("daemon", json::boolean(false)).with("shared_process", json::boolean(false))
}

/// The status of a project that a watcher on its own serves, from the file of
/// the one before.
pub fn write_standalone_status(before: Option<&str>, pid: u32, now_ms: u64) -> (r: Json)
    ensures
        json::tree(r) == standalone_status(
            exec_js::read_of(text::opt_view(before)),
            pid as nat,
            now_ms as nat,
        ),
{
    standalone_heartbeat(read(before), pid, now_ms)
}

/// The status once the watcher serves no more; nothing where there was none.
pub open spec fn cleared_status(before: Option<JsonTree>, now_ms: nat) -> Option<JsonTree> {
    match before {
        Some(JsonTree::Object(m)) => {
            let t = JsonTree::Object(m);
            let t = json::without_field(t, "runtime"@);
            let t = json::without_field(t, "daemon"@);
            let t = json::without_field(t, "shared_process"@);
            Some(json::with_field(t, "ts"@, json::uint_tree(now_ms)))
        },
        _ => None,
    }
}

pub fn cleared_heartbeat(before: Option<Json>, now_ms: u64) -> (r: Option<Json>)
    ensures
        imports::opt_tree(r) == cleared_status(imports::opt_tree(before), now_ms as nat),
{
    match before {
        Some(v) => if v.is_object() {
            Some(
                v.without("runtime").without("daemon").without("shared_process").with(
                    "ts",
                    json::uint(now_ms),
                ),
            )
        } else {
            None
        },
        None => None,
    }
}

/// The status once the watcher serves no more, from the file of the one before.
pub fn clear_standalone_status(before: Option<&str>, now_ms: u64) -> (r: Option<Json>)
    ensures
        imports::opt_tree(r) == cleared_status(
            exec_js::read_of(text::opt_view(before)),
            now_ms as nat,
        ),
{
    cleared_heartbeat(read(before), now_ms)
}

/// Once a watcher has cleared its status, nothing in it says that it serves.
pub proof fn law_cleared_status_names_no_watcher(before: Option<JsonTree>, pid: nat, at: nat, now_ms: nat)
    ensures
        ({
            let t = cleared_status(Some(standalone_status(before, pid, at)), now_ms);
            &&& t is Some
            &&& json::field(t->0, "runtime"@) is None
            &&& json::field(t->0, "daemon"@) is None
            &&& json::field(t->0, "shared_process"@) is None
        }),
{
    reveal_strlit("runtime");
    reveal_strlit("daemon");
    reveal_strlit("shared_process");
    reveal_strlit("ts");
    assert("ts"@.len() == 2);
}

// ---------------------------------------------------------------------------
// The daemon
// ---------------------------------------------------------------------------
/// What the daemon tells of itself.
pub struct DaemonVitals {
    pub pid: u32,
    pub now_ms: u64,
    pub boot_ts: u64,
    pub projects: usize,
    pub modules: usize,
    pub last_plugin_poll_ts: u64,
    pub last_runner_poll_ts: u64,
    pub plugin_poll_error: Option<String>,
    pub runner_poll_error: Option<String>,
    pub compile_failures: Vec<(String, String)>,
    pub loaded_hashes: Vec<(String, String)>,
    pub pools: Vec<(String, Vec<SlotContentSnapshot>)>,
    pub pending_swaps: Vec<(String, Vec<String>)>,
    /// Since when a newer runner waits, if one does.
    pub staged_at_ms: Option<u64>,
    /// When a handover was last tried, and why it failed.
    pub handoff: Option<(u64, Option<String>)>,
    pub last_swap: Option<Json>,
}

/// A slot of a pool, as it is told.
pub open spec fn slot_tree(s: SlotContentSnapshot) -> JsonTree {
    match s {
        SlotContentSnapshot::Empty => JsonTree::Null,
        SlotContentSnapshot::Loaded { content_hash } => JsonTree::Str(content_hash@),
        SlotContentSnapshot::BusyWithDispatchInFlight => JsonTree::Str("busy-dispatch-in-flight"@),
    }
}

/// The slots of a pool, as they are told.
pub open spec fn slots_tree(s: Seq<SlotContentSnapshot>) -> JsonTree {
    JsonTree::Array(Seq::new(s.len(), |i: int| slot_tree(s[i])))
}

fn slots_json(slots: &Vec<SlotContentSnapshot>) -> (r: Json)
    ensures
        json::tree(r) == slots_tree(slots@),
{
    let mut out: Vec<Json> = Vec::new();
    for i in 0..slots.len()
        invariant
            out@.len() == i,
            forall|k: int| 0 <= k < i ==> json::tree(#[trigger] out@[k]) == slot_tree(slots@[k]),
    {
        let j = match &slots[i] {
            SlotContentSnapshot::Empty => Json::Null,
            SlotContentSnapshot::Loaded { content_hash } => json::str(content_hash.as_str()),
            SlotContentSnapshot::BusyWithDispatchInFlight => json::str("busy-dispatch-in-flight"),
        };
        out.push(j);
    }
    proof {
        json::lemma_trees(out@);
        let want = Seq::new(slots@.len(), |i: int| slot_tree(slots@[i]));
        assert forall|i: int| 0 <= i < out@.len() implies json::trees(out@)[i] == want[i] by {
            assert(json::trees(out@)[i] == json::tree(out@[i]));
        }
        assert(json::trees(out@) =~= want);
    }
    Json::Array(out)
}

/// The slots of the first `n` pools, by the name of the plugin.
pub open spec fn pools_tree(pools: Seq<(String, Vec<SlotContentSnapshot>)>, n: int) -> JsonTree
    decreases n,
{
    if n <= 0 {
        json::no_fields()
    } else {
        json::with_field(
            pools_tree(pools, n - 1),
            pools[n - 1].0@,
            slots_tree(pools[n - 1].1@),
        )
    }
}

/// Whether the slots of a pool hold different contents.
pub open spec fn mixed(s: Seq<SlotContentSnapshot>) -> bool {
    exists|i: int, j: int|
        0 <= i < s.len() && 0 <= j < s.len() && #[trigger] differ(s[i], s[j])
}

/// Whether two slots hold different contents.
pub open spec fn differ(a: SlotContentSnapshot, b: SlotContentSnapshot) -> bool {
    match (a, b) {
        (
            SlotContentSnapshot::Loaded { content_hash: x },
            SlotContentSnapshot::Loaded { content_hash: y },
        ) => x@ != y@,
        _ => false,
    }
}

fn slots_differ(a: &SlotContentSnapshot, b: &SlotContentSnapshot) -> (r: bool)
    ensures
        r == differ(*a, *b),
{
    match (a, b) {
        (
            SlotContentSnapshot::Loaded { content_hash: x },
            SlotContentSnapshot::Loaded { content_hash: y },
        ) => !text::str_eq(x.as_str(), y.as_str()),
        _ => false,
    }
}

/// Whether the slots of a pool hold different contents.
pub fn is_mixed(slots: &Vec<SlotContentSnapshot>) -> (r: bool)
    ensures
        r == mixed(slots@),
{
    for i in 0..slots.len()
        invariant
            forall|a: int, b: int|
                0 <= a < i && 0 <= b < slots@.len() ==> !#[trigger] differ(slots@[a], slots@[b]),
    {
        for j in 0..slots.len()
            invariant
                i < slots@.len(),
                forall|b: int| 0 <= b < j ==> !#[trigger] differ(slots@[i as int], slots@[b]),
        {
            if slots_differ(&slots[i], &slots[j]) {
                assert(differ(slots@[i as int], slots@[j as int]));
                return true;
            }
        }
    }
    false
}

/// The names of the pools, among the first `n`, whose slots hold different
/// contents.
pub open spec fn mixed_names(pools: Seq<(String, Vec<SlotContentSnapshot>)>, n: int) -> Seq<Seq<char>>
    decreases n,
{
    if n <= 0 {
        Seq::empty()
    } else if mixed(pools[n - 1].1@) {
        mixed_names(pools, n - 1).push(pools[n - 1].0@)
    } else {
        mixed_names(pools, n - 1)
    }
}

/// The pools whose slots hold different contents.
pub fn mixed_version_pools(pools: &Vec<(String, Vec<SlotContentSnapshot>)>) -> (r: Vec<String>)
    ensures
        text::string_views(r@) == mixed_names(pools@, pools@.len() as int),
{
    let mut out: Vec<String> = Vec::new();
    assert(text::string_views(out@) =~= Seq::<Seq<char>>::empty());
    for i in 0..pools.len()
        invariant
            text::string_views(out@) == mixed_names(pools@, i as int),
    {
        let ghost before = out@;
        if is_mixed(&pools[i].1) {
            out.push(pools[i].0.clone());
            assert(text::string_views(out@) =~= text::string_views(before).push(
                pools@[i as int].0@,
            ));
        }
    }
    out
}

/// The contents of the first `n` plugins that are being swapped: only plugins
/// that have some.
pub open spec fn swaps_tree(swaps: Seq<(String, Vec<String>)>, n: int) -> JsonTree
    decreases n,
{
    if n <= 0 {
        json::no_fields()
    } else if swaps[n - 1].1@.len() == 0 {
        swaps_tree(swaps, n - 1)
    } else {
        json::with_field(
            swaps_tree(swaps, n - 1),
            swaps[n - 1].0@,
            json::str_trees(text::string_views(swaps[n - 1].1@)),
        )
    }
}

/// The contents that are being swapped, by the name of the plugin.
pub fn pending_store_swaps_by_plugin(swaps: &Vec<(String, Vec<String>)>) -> (r: Json)
    ensures
        json::tree(r) == swaps_tree(swaps@, swaps@.len() as int),
{
    let mut out = json::object();
    for i in 0..swaps.len()
        invariant
            json::tree(out) == swaps_tree(swaps@, i as int),
    {
        if swaps[i].1.len() > 0 {
            out = out.with(swaps[i].0.as_str(), json::str_list(&swaps[i].1));
        }
    }
    out
}

/// What the daemon tells of itself.
pub open spec fn daemon_status(v: DaemonVitals) -> JsonTree {
    let n = v.pools@.len() as int;
    let t = json::obj5(
        "pid"@,
        json::uint_tree(v.pid as nat),
        "ts"@,
        json::uint_tree(v.now_ms as nat),
        "daemon_boot_ts"@,
        nonzero(v.boot_ts),
        "active_projects"@,
        json::uint_tree(v.projects as nat),
        "compiled_plugin_modules"@,
        json::uint_tree(v.modules as nat),
    );
    let t = json::with_field(t, "last_plugin_update_poll_ts"@, nonzero(v.last_plugin_poll_ts));
    let t = json::with_field(t, "last_runner_update_poll_ts"@, nonzero(v.last_runner_poll_ts));
    let t = json::with_field(
        t,
        "last_plugin_update_poll_error"@,
        json::opt_str_tree(text::opt_string_view(v.plugin_poll_error)),
    );
    let t = json::with_field(
        t,
        "last_runner_update_poll_error"@,
        json::opt_str_tree(text::opt_string_view(v.runner_poll_error)),
    );
    let t = json::with_field(
        t,
        "plugin_compile_failures"@,
        text_object(v.compile_failures@, v.compile_failures@.len() as int),
    );
    let t = json::with_field(
        t,
        "loaded_plugin_content_sha256"@,
        text_object(v.loaded_hashes@, v.loaded_hashes@.len() as int),
    );
    let t = json::with_field(t, "shared_pool_slot_content_sha256"@, pools_tree(v.pools@, n));
    let t = json::with_field(
        t,
        "mixed_version_pools"@,
        json::str_trees(mixed_names(v.pools@, n)),
    );
    let t = json::with_field(
        t,
        "pending_store_swaps"@,
        swaps_tree(v.pending_swaps@, v.pending_swaps@.len() as int),
    );
    let t = json::with_field(
        t,
        "staged_runner_awaiting_handoff"@,
        JsonTree::Bool(v.staged_at_ms is Some),
    );
    let t = json::with_field(t, "staged_runner_since_ts"@, opt_num(v.staged_at_ms));
    let t = json::with_field(
        t,
        "staged_runner_waiting_ms"@,
        match v.staged_at_ms {
            Some(at) => json::uint_tree(since(at, v.now_ms) as nat),
            None => JsonTree::Null,
        },
    );
    let t = json::with_field(
        t,
        "last_handoff_attempt_ts"@,
        match v.handoff {
            Some((ts, _)) => json::uint_tree(ts as nat),
            None => JsonTree::Null,
        },
    );
    let t = json::with_field(
        t,
        "last_handoff_error"@,
        match v.handoff {
            Some((_, e)) => json::opt_str_tree(text::opt_string_view(e)),
            None => JsonTree::Null,
        },
    );
    json::with_field(
        t,
        "last_completed_runner_swap"@,
        match v.last_swap {
            Some(j) => json::tree(j),
            None => JsonTree::Null,
        },
    )
}

fn opt_text(o: &Option<String>) -> (r: Json)
    ensures
        json::tree(r) == json::opt_str_tree(text::opt_string_view(*o)),
{
    match o {
        Some(s) => json::opt_str(Some(s.as_str())),
        None => json::opt_str(None),
    }
}

fn pools_json(pools: &Vec<(String, Vec<SlotContentSnapshot>)>) -> (r: Json)
    ensures
        json::tree(r) == pools_tree(pools@, pools@.len() as int),
{
    let mut out = json::object();
    for i in 0..pools.len()
        invariant
            json::tree(out) == pools_tree(pools@, i as int),
    {
        out = out.with(pools[i].0.as_str(), slots_json(&pools[i].1));
    }
    out
}

/// What the daemon tells of itself.
pub fn write_daemon_heartbeat(v: &DaemonVitals) -> (r: Json)
    ensures
        json::tree(r) == daemon_status(*v),
{
    let t = json::object5(
        "pid",
        json::uint(v.pid as u64),
        "ts",
        json::uint(v.now_ms),
        "daemon_boot_ts",
        nonzero_json(v.boot_ts),
        "active_projects",
        json::uint(v.projects as u64),
        "compiled_plugin_modules",
        json::uint(v.modules as u64),
    ).with("last_plugin_update_poll_ts", nonzero_json(v.last_plugin_poll_ts)).with(
        "last_runner_update_poll_ts",
        nonzero_json(v.last_runner_poll_ts),
    ).with("last_plugin_update_poll_error", opt_text(&v.plugin_poll_error)).with(
        "last_runner_update_poll_error",
        opt_text(&v.runner_poll_error),
    ).with("plugin_compile_failures", object_of_texts(&v.compile_failures)).with(
        "loaded_plugin_content_sha256",
        object_of_texts(&v.loaded_hashes),
    ).with("shared_pool_slot_content_sha256", pools_json(&v.pools)).with(
        "mixed_version_pools",
        json::str_list(&mixed_version_pools(&v.pools)),
    ).with("pending_store_swaps", pending_store_swaps_by_plugin(&v.pending_swaps)).with(
        "staged_runner_awaiting_handoff",
        json::boolean(v.staged_at_ms.is_some()),
    ).with("staged_runner_since_ts", opt_num_json(v.staged_at_ms));
    let waiting = match v.staged_at_ms {
        Some(at) => json::uint(v.now_ms.saturating_sub(at)),
        None => Json::Null,
    };
    let (tried, error) = match &v.handoff {
        Some((ts, e)) => (json::uint(*ts), opt_text(e)),
        None => (Json::Null, Json::Null),
    };
    let swap = match &v.last_swap {
        Some(j) => j.copy(),
        None => Json::Null,
    };
    t.with("staged_runner_waiting_ms", waiting).with("last_handoff_attempt_ts", tried).with(
        "last_handoff_error",
        error,
    ).with("last_completed_runner_swap", swap)
}

/// The names of the fields differ.
proof fn lemma_project_names()
    ensures
        "pid"@.len() == 3,
        "ts"@.len() == 2,
        "daemon"@.len() == 6,
        "shared_process"@.len() == 14,
        "runtime"@.len() == 7,
        "queued_step_count"@.len() == 17,
        "claimed_step_count"@.len() == 18,
        "gm_processor_capacity"@.len() == 21,
        "gm_processor_capacity_reason"@.len() == 28,
        "shared_store_recycle_limit_mb"@.len() == 29,
        "queue_wait_ms"@.len() == 13,
        "busy_until"@.len() == 10,
        "queue_position"@.len() == 14,
        "queue_depth"@.len() == 11,
        "tool_serialization"@.len() == 18,
        "runner_update_in_progress"@.len() == 25,
        "runner_update_waiting_ms"@.len() == 24,
        "plugin_compile_failures"@.len() == 23,
        "shared_process"@[0] == 's' && "queue_position"@[0] == 'q',
        "claimed_step_count"@[0] == 'c' && "tool_serialization"@[0] == 't',
{
    reveal_strlit("pid");
    reveal_strlit("ts");
    reveal_strlit("daemon");
    reveal_strlit("shared_process");
    reveal_strlit("runtime");
    reveal_strlit("queued_step_count");
    reveal_strlit("claimed_step_count");
    reveal_strlit("gm_processor_capacity");
    reveal_strlit("gm_processor_capacity_reason");
    reveal_strlit("shared_store_recycle_limit_mb");
    reveal_strlit("queue_wait_ms");
    reveal_strlit("busy_until");
    reveal_strlit("queue_position");
    reveal_strlit("queue_depth");
    reveal_strlit("tool_serialization");
    reveal_strlit("runner_update_in_progress");
    reveal_strlit("runner_update_waiting_ms");
    reveal_strlit("plugin_compile_failures");
}

/// The names of the fields differ.
proof fn lemma_daemon_names()
    ensures
        "pid"@.len() == 3,
        "ts"@.len() == 2,
        "active_projects"@.len() == 15,
        "compiled_plugin_modules"@.len() == 23,
        "daemon_boot_ts"@.len() == 14,
        "last_plugin_update_poll_ts"@.len() == 26,
        "last_runner_update_poll_ts"@.len() == 26,
        "last_plugin_update_poll_error"@.len() == 29,
        "last_runner_update_poll_error"@.len() == 29,
        "plugin_compile_failures"@.len() == 23,
        "loaded_plugin_content_sha256"@.len() == 28,
        "shared_pool_slot_content_sha256"@.len() == 31,
        "mixed_version_pools"@.len() == 19,
        "pending_store_swaps"@.len() == 19,
        "staged_runner_awaiting_handoff"@.len() == 30,
        "staged_runner_since_ts"@.len() == 22,
        "staged_runner_waiting_ms"@.len() == 24,
        "last_handoff_attempt_ts"@.len() == 23,
        "last_handoff_error"@.len() == 18,
        "last_completed_runner_swap"@.len() == 26,
        "compiled_plugin_modules"@[0] == 'c' && "plugin_compile_failures"@[0] == 'p',
        "compiled_plugin_modules"@[0] == 'c' && "last_handoff_attempt_ts"@[0] == 'l',
        "last_plugin_update_poll_ts"@[5] == 'p' && "last_runner_update_poll_ts"@[5] == 'r',
        "last_plugin_update_poll_ts"@[5] == 'p' && "last_completed_runner_swap"@[5] == 'c',
        "last_runner_update_poll_ts"@[5] == 'r' && "last_completed_runner_swap"@[5] == 'c',
        "last_plugin_update_poll_error"@[5] == 'p' && "last_runner_update_poll_error"@[5] == 'r',
        "plugin_compile_failures"@[0] == 'p' && "last_handoff_attempt_ts"@[0] == 'l',
        "mixed_version_pools"@[0] == 'm' && "pending_store_swaps"@[0] == 'p',
{
    reveal_strlit("pid");
    reveal_strlit("ts");
    reveal_strlit("active_projects");
    reveal_strlit("compiled_plugin_modules");
    reveal_strlit("daemon_boot_ts");
    reveal_strlit("last_plugin_update_poll_ts");
    reveal_strlit("last_runner_update_poll_ts");
    reveal_strlit("last_plugin_update_poll_error");
    reveal_strlit("last_runner_update_poll_error");
    reveal_strlit("plugin_compile_failures");
    reveal_strlit("loaded_plugin_content_sha256");
    reveal_strlit("shared_pool_slot_content_sha256");
    reveal_strlit("mixed_version_pools");
    reveal_strlit("pending_store_swaps");
    reveal_strlit("staged_runner_awaiting_handoff");
    reveal_strlit("staged_runner_since_ts");
    reveal_strlit("staged_runner_waiting_ms");
    reveal_strlit("last_handoff_attempt_ts");
    reveal_strlit("last_handoff_error");
    reveal_strlit("last_completed_runner_swap");
}

/// The status of a project tells what the daemon knows of it, each thing under
/// its name; what does not hold now is not told from before.
pub proof fn law_project_status_tells(before: Option<JsonTree>, v: ProjectVitals)
    ensures
        ({
            let a = project_status(before, v);
            &&& json::field(a, "pid"@) == Some(JsonTree::Number(text::decimal(v.pid as nat)))
            &&& json::field(a, "ts"@) == Some(JsonTree::Number(text::decimal(v.now_ms as nat)))
            &&& json::field(a, "daemon"@) == Some(JsonTree::Bool(true))
            &&& json::field(a, "shared_process"@) == Some(JsonTree::Bool(true))
            &&& json::field(a, "runtime"@) == Some(JsonTree::Str("agentplug"@))
            &&& json::field(a, "queued_step_count"@) == Some(JsonTree::Number(text::decimal(v.queued_steps as nat)))
            &&& json::field(a, "claimed_step_count"@) == Some(JsonTree::Number(text::decimal(v.claimed_steps as nat)))
            &&& json::field(a, "gm_processor_capacity"@) == Some(JsonTree::Number(text::decimal(v.capacity as nat)))
            &&& json::field(a, "gm_processor_capacity_reason"@) == Some(JsonTree::Str(v.capacity_reason@))
            &&& json::field(a, "shared_store_recycle_limit_mb"@) == Some(JsonTree::Number(text::decimal(v.recycle_limit_mb as nat)))
            &&& json::field(a, "queue_wait_ms"@) == Some(JsonTree::Number(text::decimal(v.queue_wait_ms as nat)))
            &&& json::field(a, "busy_until"@) == (match v.busy_until {
                Some(ms) => Some(JsonTree::Number(text::decimal(ms as nat))),
                None => None,
            })
            &&& v.queue matches Some(q) ==> json::field(a, "queue_position"@) == Some(
                JsonTree::Number(text::decimal(q.0 as nat)),
            ) && json::field(a, "queue_depth"@) == Some(
                JsonTree::Number(text::decimal(q.1 as nat)),
            )
            &&& v.staged_at_ms matches Some(at) ==> json::field(a, "runner_update_in_progress"@)
                == Some(JsonTree::Bool(true)) && (at <= v.now_ms ==> json::field(
                a,
                "runner_update_waiting_ms"@,
            ) == Some(JsonTree::Number(text::decimal((v.now_ms - at) as nat))))
            &&& v.failures@.len() == 0 ==> json::field(a, "plugin_compile_failures"@) is None
        }),
{
    lemma_project_names();
}

/// A list of names and texts becomes an object with those texts under those
/// names.
pub proof fn law_named_texts_are_told(list: Seq<(String, String)>, n: int, i: int)
    requires
        0 <= i < n <= list.len(),
        forall|j: int| i < j < n ==> (#[trigger] list[j]).0@ != list[i].0@,
    ensures
        json::field(text_object(list, n), list[i].0@) == Some(JsonTree::Str(list[i].1@)),
    decreases n,
{
    lemma_text_object(list, n - 1);
    if i < n - 1 {
        law_named_texts_are_told(list, n - 1, i);
        assert(list[n - 1].0@ != list[i].0@);
    }
}

proof fn lemma_text_object(list: Seq<(String, String)>, n: int)
    ensures
        text_object(list, n) is Object,
    decreases n,
{
    if n > 0 {
        lemma_text_object(list, n - 1);
    }
}

/// The heartbeat of the daemon tells what it is and what it serves, what went
/// wrong last, and whether a newer runner waits.
pub proof fn law_daemon_status_tells(v: DaemonVitals)
    ensures
        ({
            let a = daemon_status(v);
            &&& json::field(a, "pid"@) == Some(JsonTree::Number(text::decimal(v.pid as nat)))
            &&& json::field(a, "ts"@) == Some(JsonTree::Number(text::decimal(v.now_ms as nat)))
            &&& json::field(a, "active_projects"@) == Some(JsonTree::Number(text::decimal(v.projects as nat)))
            &&& json::field(a, "compiled_plugin_modules"@) == Some(JsonTree::Number(text::decimal(v.modules as nat)))
            &&& json::field(a, "daemon_boot_ts"@) == Some(
                if v.boot_ts == 0 {
                    JsonTree::Null
                } else {
                    JsonTree::Number(text::decimal(v.boot_ts as nat))
                },
            )
            &&& json::field(a, "last_plugin_update_poll_ts"@) == Some(
                if v.last_plugin_poll_ts == 0 {
                    JsonTree::Null
                } else {
                    JsonTree::Number(text::decimal(v.last_plugin_poll_ts as nat))
                },
            )
            &&& json::field(a, "last_runner_update_poll_ts"@) == Some(
                if v.last_runner_poll_ts == 0 {
                    JsonTree::Null
                } else {
                    JsonTree::Number(text::decimal(v.last_runner_poll_ts as nat))
                },
            )
            &&& json::field(a, "last_plugin_update_poll_error"@) == Some(
                match v.plugin_poll_error {
                    Some(e) => JsonTree::Str(e@),
                    None => JsonTree::Null,
                },
            )
            &&& json::field(a, "last_runner_update_poll_error"@) == Some(
                match v.runner_poll_error {
                    Some(e) => JsonTree::Str(e@),
                    None => JsonTree::Null,
                },
            )
            &&& json::field(a, "staged_runner_awaiting_handoff"@) == Some(
                JsonTree::Bool(v.staged_at_ms is Some),
            )
            &&& json::field(a, "staged_runner_since_ts"@) == Some(
                match v.staged_at_ms {
                    Some(at) => JsonTree::Number(text::decimal(at as nat)),
                    None => JsonTree::Null,
                },
            )
            &&& v.staged_at_ms matches Some(at) ==> at <= v.now_ms ==> json::field(
                a,
                "staged_runner_waiting_ms"@,
            ) == Some(JsonTree::Number(text::decimal((v.now_ms - at) as nat)))
            &&& v.handoff matches Some(h) ==> json::field(a, "last_handoff_attempt_ts"@) == Some(
                JsonTree::Number(text::decimal(h.0 as nat)),
            )
            &&& v.last_swap matches Some(s) ==> json::field(a, "last_completed_runner_swap"@)
                == Some(json::tree(s))
            &&& json::field(a, "plugin_compile_failures"@) == Some(
                text_object(v.compile_failures@, v.compile_failures@.len() as int),
            )
            &&& json::field(a, "loaded_plugin_content_sha256"@) == Some(
                text_object(v.loaded_hashes@, v.loaded_hashes@.len() as int),
            )
            &&& json::field(a, "shared_pool_slot_content_sha256"@) == Some(
                pools_tree(v.pools@, v.pools@.len() as int),
            )
        }),
{
    lemma_daemon_names();
}

/// A pool is told slot by slot: nothing for an empty one, the content of one
/// that is loaded, and that it is busy of one that is.
pub proof fn law_slots_are_told(s: Seq<SlotContentSnapshot>, i: int)
    requires
        0 <= i < s.len(),
    ensures
        slots_tree(s) is Array && slots_tree(s)->Array_0.len() == s.len(),
        s[i] is Empty ==> slots_tree(s)->Array_0[i] == JsonTree::Null,
        s[i] matches SlotContentSnapshot::Loaded { content_hash } ==> slots_tree(s)->Array_0[i]
            == JsonTree::Str(content_hash@),
        s[i] is BusyWithDispatchInFlight ==> slots_tree(s)->Array_0[i] == JsonTree::Str(
            "busy-dispatch-in-flight"@,
        ),
{
}

/// The pools of two versions are named: those, and only those, in which two
/// slots are loaded with different contents.
pub proof fn law_mixed_pools_are_named(
    pools: Seq<(String, Vec<SlotContentSnapshot>)>,
    n: int,
    name: Seq<char>,
)
    requires
        0 <= n <= pools.len(),
    ensures
        mixed_names(pools, n).contains(name) <==> exists|k: int|
            0 <= k < n && (#[trigger] pools[k]).0@ == name && two_contents(pools[k].1@),
    decreases n,
{
    if n > 0 {
        law_mixed_pools_are_named(pools, n - 1, name);
        let before = mixed_names(pools, n - 1);
        let after = mixed_names(pools, n);
        lemma_two_contents(pools[n - 1].1@);
        if before.contains(name) {
            let k = choose|k: int|
                0 <= k < n - 1 && (#[trigger] pools[k]).0@ == name && two_contents(pools[k].1@);
            assert(pools[k].0@ == name);
            let j = choose|j: int| 0 <= j < before.len() && before[j] == name;
            assert(after[j] == name);
        }
        if two_contents(pools[n - 1].1@) && pools[n - 1].0@ == name {
            assert(after[before.len() as int] == name);
        }
        if after.contains(name) && !before.contains(name) {
            let j = choose|j: int| 0 <= j < after.len() && after[j] == name;
            if j < before.len() {
                assert(before[j] == name);
            }
            assert(pools[n - 1].0@ == name);
        }
        if exists|k: int|
            0 <= k < n && (#[trigger] pools[k]).0@ == name && two_contents(pools[k].1@) {
            let k = choose|k: int|
                0 <= k < n && (#[trigger] pools[k]).0@ == name && two_contents(pools[k].1@);
            if k < n - 1 {
                assert(pools[k].0@ == name);
            }
        }
    }
}

/// Whether two slots are loaded with different contents.
pub open spec fn two_contents(s: Seq<SlotContentSnapshot>) -> bool {
    exists|i: int, j: int|
        0 <= i < s.len() && 0 <= j < s.len() && s[i] is Loaded && s[j] is Loaded && (
        #[trigger] s[i])->content_hash@ != (#[trigger] s[j])->content_hash@
}

proof fn lemma_two_contents(s: Seq<SlotContentSnapshot>)
    ensures
        mixed(s) == two_contents(s),
{
    if mixed(s) {
        let (i, j) = choose|i: int, j: int|
            0 <= i < s.len() && 0 <= j < s.len() && #[trigger] differ(s[i], s[j]);
        assert(s[i]->content_hash@ != s[j]->content_hash@);
    }
    if two_contents(s) {
        let (i, j) = choose|i: int, j: int|
            0 <= i < s.len() && 0 <= j < s.len() && s[i] is Loaded && s[j] is Loaded && (
            #[trigger] s[i])->content_hash@ != (#[trigger] s[j])->content_hash@;
        assert(differ(s[i], s[j]));
    }
}

/// A watcher that serves alone says so in the status: it is no daemon, and
/// shares its process with no other project. What else stands there stays.
pub proof fn law_standalone_status_tells(before: Option<JsonTree>, pid: nat, now_ms: nat, k: Seq<char>)
    ensures
        ({
            let a = standalone_status(before, pid, now_ms);
            &&& json::field(a, "pid"@) == Some(JsonTree::Number(text::decimal(pid)))
            &&& json::field(a, "ts"@) == Some(JsonTree::Number(text::decimal(now_ms)))
            &&& json::field(a, "daemon"@) == Some(JsonTree::Bool(false))
            &&& json::field(a, "shared_process"@) == Some(JsonTree::Bool(false))
            &&& json::field(a, "runtime"@) == Some(JsonTree::Str("agentplug-runner-standalone"@))
            &&& before is Some && before->0 is Object && k != "pid"@ && k != "ts"@ && k != "daemon"@
                && k != "shared_process"@ && k != "runtime"@ ==> json::field(a, k) == json::field(
                before->0,
                k,
            )
        }),
{
    lemma_project_names();
}

/// A project is busy for as long as its status says, and no longer.
pub proof fn law_project_is_busy_until(status: JsonTree, until: nat, now_ms: u64)
    requires
        json::field_u64(status, "busy_until"@) == Some(until),
    ensures
        until > now_ms ==> busy_in(Some(status), now_ms) == Some(until),
        until <= now_ms ==> busy_in(Some(status), now_ms) is None,
        busy_in(None, now_ms) is None,
{
}

/// The contents that wait to leave are told by plugin; a plugin without any is
/// not told.
pub proof fn law_waiting_swaps_are_told(swaps: Seq<(String, Vec<String>)>, n: int, i: int)
    requires
        0 <= i < n <= swaps.len(),
        forall|a: int, b: int| 0 <= a < b < n ==> (#[trigger] swaps[a]).0@ != (#[trigger] swaps[b]).0@,
    ensures
        swaps_tree(swaps, n) is Object,
        swaps[i].1@.len() > 0 ==> json::field(swaps_tree(swaps, n), swaps[i].0@) == Some(
            json::str_trees(text::string_views(swaps[i].1@)),
        ),
        swaps[i].1@.len() == 0 ==> json::field(swaps_tree(swaps, n), swaps[i].0@) is None,
    decreases n,
{
    lemma_swaps_object(swaps, n - 1);
    if i < n - 1 {
        law_waiting_swaps_are_told(swaps, n - 1, i);
        assert(swaps[i].0@ != swaps[n - 1].0@);
    } else {
        lemma_swaps_lack(swaps, n - 1, swaps[i].0@);
    }
}

proof fn lemma_swaps_object(swaps: Seq<(String, Vec<String>)>, n: int)
    ensures
        swaps_tree(swaps, n) is Object,
    decreases n,
{
    if n > 0 {
        lemma_swaps_object(swaps, n - 1);
    }
}

proof fn lemma_swaps_lack(swaps: Seq<(String, Vec<String>)>, n: int, name: Seq<char>)
    requires
        n <= swaps.len(),
        forall|a: int| 0 <= a < n ==> (#[trigger] swaps[a]).0@ != name,
    ensures
        json::field(swaps_tree(swaps, n), name) is None,
    decreases n,
{
    lemma_swaps_object(swaps, n);
    if n > 0 {
        lemma_swaps_object(swaps, n - 1);
        lemma_swaps_lack(swaps, n - 1, name);
        assert(swaps[n - 1].0@ != name);
    }
}

/// A time that lies behind is as long ago as the difference, and one that lies
/// ahead is now; a number is told as it is, and zero as none where it means so.
pub proof fn law_numbers_of_a_status(ts: u64, now_ms: u64, n: u64)
    ensures
        ts <= now_ms ==> since(ts, now_ms) == now_ms - ts,
        ts > now_ms ==> since(ts, now_ms) == 0,
        nonzero(0) == JsonTree::Null,
        n > 0 ==> nonzero(n) == JsonTree::Number(text::decimal(n as nat)),
        opt_num(Some(n)) == JsonTree::Number(text::decimal(n as nat)),
        opt_num(None) == JsonTree::Null,
{
}

} // verus!

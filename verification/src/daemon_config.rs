//! What the configuration of the daemon says, with its defaults and bounds.
use crate::strmap::StrMap;
use crate::text;
use vstd::prelude::*;
use vstd::string::*;

verus! {

/// The configuration of the daemon, as far as it is set.
pub struct DaemonConfig {
    pub registry_poll_interval_secs: Option<u64>,
    pub heartbeat_interval_secs: Option<u64>,
    pub plugin_update_poll_interval_secs: Option<u64>,
    pub plugin_update_poll_interval_secs_by_name: StrMap<u64>,
    pub runner_update_poll_interval_secs: Option<u64>,
    pub instruction_source_poll_interval_secs: Option<u64>,
    pub gm_concurrency: Option<usize>,
    pub side_plugin_concurrency: Option<usize>,
    pub gm_pool_size: Option<usize>,
    pub shared_store_recycle_private_mb: Option<u64>,
    pub shared_store_recycle_dispatches: Option<u64>,
    pub project_idle_evict_secs: Option<u64>,
    pub shared_plugin_release_idle_secs: Option<u64>,
}

/// The number that is set, or the default.
pub open spec fn or_num(o: Option<u64>, default: u64) -> u64 {
    match o {
        Some(n) => n,
        None => default,
    }
}

fn num_or(o: Option<u64>, default: u64) -> (r: u64)
    ensures
        r == or_num(o, default),
{
    match o {
        Some(n) => n,
        None => default,
    }
}

/// The larger of two numbers.
pub open spec fn at_least(n: u64, floor: u64) -> u64 {
    if n < floor {
        floor
    } else {
        n
    }
}

fn floored(n: u64, floor: u64) -> (r: u64)
    ensures
        r == at_least(n, floor),
{
    if n < floor {
        floor
    } else {
        n
    }
}

/// The text of a configuration without the marks of its byte order.
pub fn config_text(content: &str) -> (r: &str)
    ensures
        r@ == text::without_leading(content@, '\u{feff}'),
{
    text::trim_leading(content, '\u{feff}')
}

/// The most processors of a pool that are used.
pub const MAX_POOL_SIZE: usize = 4;

impl DaemonConfig {
    /// How often the registry is read, in seconds.
    pub fn registry_poll_interval(&self) -> (r: u64)
        ensures
            r == or_num(self.registry_poll_interval_secs, 5),
    {
        num_or(self.registry_poll_interval_secs, 5)
    }

    /// How often the daemon shows that it lives, in seconds.
    pub fn heartbeat_interval(&self) -> (r: u64)
        ensures
            r == or_num(self.heartbeat_interval_secs, 10),
    {
        num_or(self.heartbeat_interval_secs, 10)
    }

    /// How often plugins are looked for, in seconds.
    pub fn plugin_update_poll_interval(&self) -> (r: u64)
        ensures
            r == or_num(self.plugin_update_poll_interval_secs, 600),
    {
        num_or(self.plugin_update_poll_interval_secs, 600)
    }

    /// How often a plugin is looked for, in seconds.
    pub fn plugin_update_poll_interval_for(&self, plugin_name: &str) -> (r: u64)
        ensures
            r == (if self.plugin_update_poll_interval_secs_by_name@.dom().contains(plugin_name@) {
                self.plugin_update_poll_interval_secs_by_name@[plugin_name@]
            } else {
                or_num(self.plugin_update_poll_interval_secs, 600)
            }),
    {
        match self.plugin_update_poll_interval_secs_by_name.get(plugin_name) {
            Some(secs) => *secs,
            None => self.plugin_update_poll_interval(),
        }
    }

    /// How often the daemon looks for plugins at all: the shortest of all
    /// intervals, in seconds.
    pub fn shortest_plugin_poll_interval(&self) -> (r: u64)
        ensures
            r <= or_num(self.plugin_update_poll_interval_secs, 600),
            forall|k: Seq<char>|
                self.plugin_update_poll_interval_secs_by_name@.dom().contains(k) ==> r
                    <= #[trigger] self.plugin_update_poll_interval_secs_by_name@[k],
            r == or_num(self.plugin_update_poll_interval_secs, 600) || exists|k: Seq<char>|
                {
                    &&& self.plugin_update_poll_interval_secs_by_name@.dom().contains(k)
                    &&& #[trigger] self.plugin_update_poll_interval_secs_by_name@[k] == r
                },
    {
        let by_name = &self.plugin_update_poll_interval_secs_by_name;
        let n: usize = by_name.len();
        let ghost keys = by_name.keys();
        let mut out = self.plugin_update_poll_interval();
        for i in 0..n
            invariant
                n == keys.len(),
                keys == by_name.keys(),
                out <= or_num(self.plugin_update_poll_interval_secs, 600),
                forall|j: int| 0 <= j < i ==> out <= by_name@[#[trigger] keys[j]],
                out == or_num(self.plugin_update_poll_interval_secs, 600) || exists|j: int|
                    0 <= j < i && by_name@[#[trigger] keys[j]] == out,
        {
            let secs: u64 = *by_name.value_at(i);
            if secs < out {
                out = secs;
                assert(by_name@[keys[i as int]] == out);
            }
        }
        proof {
            assert forall|k: Seq<char>| by_name@.dom().contains(k) implies out
                <= #[trigger] by_name@[k] by {
                assert(keys.contains(k));
                let j = choose|j: int| 0 <= j < keys.len() && keys[j] == k;
                assert(out <= by_name@[keys[j]]);
            }
            if out != or_num(self.plugin_update_poll_interval_secs, 600) {
                let j = choose|j: int| 0 <= j < keys.len() && by_name@[#[trigger] keys[j]] == out;
                assert(keys.contains(keys[j]));
                assert(by_name@.dom().contains(keys[j]));
            }
        }
        out
    }

    /// How often the runner looks for a newer one, in seconds.
    pub fn runner_update_poll_interval(&self) -> (r: u64)
        ensures
            r == or_num(self.runner_update_poll_interval_secs, 3600),
    {
        num_or(self.runner_update_poll_interval_secs, 3600)
    }

    /// How often the instructions of a project are fetched, in seconds.
    pub fn instruction_source_poll_interval(&self) -> (r: u64)
        ensures
            r == or_num(self.instruction_source_poll_interval_secs, 600),
    {
        num_or(self.instruction_source_poll_interval_secs, 600)
    }

    /// How many projects are served at a time: as many as the machine runs at a
    /// time, and at least one.
    pub fn max_concurrent_projects(&self, parallelism: usize) -> (r: usize)
        ensures
            r == concurrency(None, parallelism),
            r >= 1,
    {
        if parallelism < 1 {
            1
        } else {
            parallelism
        }
    }

    /// How many dispatches run at a time: as many as are set, else as many as
    /// the machine runs at a time, and at least one.
    pub fn gm_concurrency(&self, parallelism: usize) -> (r: usize)
        ensures
            r == concurrency(self.gm_concurrency, parallelism),
            r >= 1,
    {
        match self.gm_concurrency {
            Some(n) => if n < 1 {
                1
            } else {
                n
            },
            None => self.max_concurrent_projects(parallelism),
        }
    }

    /// How many instances a pool holds: one, unless set otherwise; but no more
    /// than the machine runs at a time or than are ever used, and at least one.
    pub fn gm_pool_size(&self, parallelism: usize) -> (r: usize)
        ensures
            r == pool_size(self.gm_pool_size, parallelism),
            1 <= r <= MAX_POOL_SIZE,
    {
        let mut n: usize = match self.gm_pool_size {
            Some(n) => n,
            None => 1,
        };
        if n > parallelism {
            n = parallelism;
        }
        if n > MAX_POOL_SIZE {
            n = MAX_POOL_SIZE;
        }
        if n < 1 {
            n = 1;
        }
        n
    }

    /// Why a pool has the size it has.
    pub fn gm_pool_capacity_reason(&self, parallelism: usize) -> (r: String)
        ensures
            r@ == (if pool_size(self.gm_pool_size, parallelism) == 4 {
                "four processors admitted by host capacity"@
            } else {
                "limited to "@ + text::decimal(pool_size(self.gm_pool_size, parallelism) as nat)
                    + " processor(s) by configured or host capacity"@
            }),
    {
        let capacity: usize = self.gm_pool_size(parallelism);
        if capacity == 4 {
            "four processors admitted by host capacity".to_owned()
        } else {
            text::add3(
                "limited to ",
                text::u64_text(capacity as u64).as_str(),
                " processor(s) by configured or host capacity",
            )
        }
    }

    /// How many instances of other plugins run at a time: at least one.
    pub fn side_plugin_concurrency(&self) -> (r: usize)
        ensures
            r == (match self.side_plugin_concurrency {
                Some(0) => 1,
                Some(n) => n,
                None => 1,
            }),
            r >= 1,
    {
        match self.side_plugin_concurrency {
            Some(n) => if n < 1 {
                1
            } else {
                n
            },
            None => 1,
        }
    }

    /// How much memory the process may hold before instances are released, in
    /// bytes: at least 256 megabytes.
    pub fn shared_store_recycle_private_bytes(&self) -> (r: u64)
        requires
            or_num(self.shared_store_recycle_private_mb, 768) * 1024 * 1024 <= u64::MAX,
        ensures
            r == at_least(or_num(self.shared_store_recycle_private_mb, 768), 256) * 1024 * 1024,
    {
        floored(num_or(self.shared_store_recycle_private_mb, 768), 256) * 1024 * 1024
    }

    /// How many dispatches run before instances are released: at least one.
    pub fn shared_store_recycle_dispatches(&self, parallelism: usize) -> (r: u64)
        ensures
            r == at_least(
                or_num(
                    self.shared_store_recycle_dispatches,
                    at_least(
                        default_dispatches(concurrency(self.gm_concurrency, parallelism)),
                        100,
                    ),
                ),
                1,
            ),
            r >= 1,
    {
        let n: u64 = self.gm_concurrency(parallelism) as u64;
        let default: u64 = match n.checked_mul(500) {
            Some(d) => d,
            None => u64::MAX,
        };
        floored(num_or(self.shared_store_recycle_dispatches, floored(default, 100)), 1)
    }

    /// How long a project is kept without work, in milliseconds: at least a
    /// minute.
    pub fn project_idle_evict_ms(&self) -> (r: u64)
        requires
            or_num(self.project_idle_evict_secs, 1800) * 1000 <= u64::MAX,
        ensures
            r == at_least(or_num(self.project_idle_evict_secs, 1800), 60) * 1000,
    {
        floored(num_or(self.project_idle_evict_secs, 1800), 60) * 1000
    }

    /// How long instances are kept without work, in milliseconds: at least five
    /// minutes.
    pub fn shared_plugin_release_idle_ms(&self) -> (r: u64)
        requires
            or_num(self.shared_plugin_release_idle_secs, 1800) * 1000 <= u64::MAX,
        ensures
            r == at_least(or_num(self.shared_plugin_release_idle_secs, 1800), 300) * 1000,
    {
        floored(num_or(self.shared_plugin_release_idle_secs, 1800), 300) * 1000
    }
}

/// How many dispatches run before instances are released, for a number that
/// runs at a time.
pub open spec fn default_dispatches(concurrency: usize) -> u64 {
    if concurrency * 500 > u64::MAX {
        u64::MAX
    } else {
        (concurrency * 500) as u64
    }
}

/// How many run at a time: as many as are set, else as many as the machine
/// runs at a time, and at least one.
pub open spec fn concurrency(set: Option<usize>, parallelism: usize) -> usize {
    let wanted = match set {
        Some(n) => n,
        None => parallelism,
    };
    if wanted < 1 {
        1
    } else {
        wanted
    }
}

/// How many instances a pool holds.
pub open spec fn pool_size(set: Option<usize>, parallelism: usize) -> usize {
    let wanted = match set {
        Some(n) => n,
        None => 1,
    };
    let fitting = if wanted > parallelism {
        parallelism
    } else {
        wanted
    };
    let used = if fitting > MAX_POOL_SIZE {
        MAX_POOL_SIZE
    } else {
        fitting
    };
    if used < 1 {
        1
    } else {
        used
    }
}

/// Why instances are released whether or not the daemon is idle: the process
/// holds too much memory, or enough dispatches have run.
pub open spec fn recycle_reason(
    private_bytes: Option<u64>,
    limit_bytes: u64,
    dispatches: u64,
    dispatch_limit: u64,
) -> Option<Seq<char>> {
    if private_bytes matches Some(b) && b >= limit_bytes {
        Some(
            "memory pressure: "@ + text::decimal((private_bytes->0 / 1_048_576) as nat)
                + "MB private commit >= "@ + text::decimal((limit_bytes / 1_048_576) as nat)
                + "MB limit (after "@ + text::decimal(dispatches as nat)
                + " shared dispatches)"@,
        )
    } else if dispatches >= dispatch_limit {
        Some(
            "dispatch budget: "@ + text::decimal(dispatches as nat) + " shared dispatches >= "@
                + text::decimal(dispatch_limit as nat) + " limit"@,
        )
    } else {
        None
    }
}

pub fn shared_store_recycle_reason_independent_of_daemon_idle_state(
    private_bytes: Option<u64>,
    limit_bytes: u64,
    dispatches: u64,
    dispatch_limit: u64,
) -> (r: Option<String>)
    ensures
        text::opt_string_view(r) == recycle_reason(
            private_bytes,
            limit_bytes,
            dispatches,
            dispatch_limit,
        ),
{
    let count = text::u64_text(dispatches);
    match private_bytes {
        Some(b) => if b >= limit_bytes {
            let head = text::add5(
                "memory pressure: ",
                text::u64_text(b / 1_048_576).as_str(),
                "MB private commit >= ",
                text::u64_text(limit_bytes / 1_048_576).as_str(),
                "MB limit (after ",
            );
            return Some(text::add3(head.as_str(), count.as_str(), " shared dispatches)"));
        },
        None => {},
    }
    if dispatches >= dispatch_limit {
        Some(
            text::add5(
                "dispatch budget: ",
                count.as_str(),
                " shared dispatches >= ",
                text::u64_text(dispatch_limit).as_str(),
                " limit",
            ),
        )
    } else {
        None
    }
}

/// A number that is set counts, and one that is not has its default; a floor
/// lifts what lies under it.
pub proof fn law_settings_count(n: u64, default: u64, floor: u64)
    ensures
        or_num(Some(n), default) == n,
        or_num(None, default) == default,
        at_least(n, floor) >= floor,
        n >= floor ==> at_least(n, floor) == n,
        n < floor ==> at_least(n, floor) == floor,
{
}

/// At least one project is served at a time: as many as are set, or as the
/// machine runs.
pub proof fn law_as_many_as_set(n: usize, parallelism: usize)
    ensures
        n >= 1 ==> concurrency(Some(n), parallelism) == n,
        concurrency(Some(0), parallelism) == 1,
        parallelism >= 1 ==> concurrency(None, parallelism) == parallelism,
        concurrency(None, 0) == 1,
{
}

/// A pool has as many places as are set, no more than the machine runs nor than
/// four, and at least one; it has one where none are set.
pub proof fn law_pools_have_one_to_four_places(n: usize, parallelism: usize)
    ensures
        pool_size(None, parallelism) == 1,
        1 <= pool_size(Some(n), parallelism) <= 4,
        1 <= n <= parallelism && n <= 4 ==> pool_size(Some(n), parallelism) == n,
        n >= 4 && parallelism >= 4 ==> pool_size(Some(n), parallelism) == 4,
        1 <= parallelism < n && parallelism <= 4 ==> pool_size(Some(n), parallelism) == parallelism,
{
}

/// The shared plugins start anew once they hold too much memory or served too
/// many calls, and the reason tells which, in megabytes or calls.
pub proof fn law_shared_plugins_start_anew(
    private_mb: u64,
    limit_mb: u64,
    dispatches: u64,
    dispatch_limit: u64,
)
    requires
        private_mb * 1_048_576 <= u64::MAX,
        limit_mb * 1_048_576 <= u64::MAX,
    ensures
        ({
            let bytes = (private_mb * 1_048_576) as u64;
            let limit = (limit_mb * 1_048_576) as u64;
            &&& private_mb >= limit_mb ==> recycle_reason(Some(bytes), limit, dispatches, dispatch_limit)
                == Some(
                "memory pressure: "@ + text::decimal(private_mb as nat) + "MB private commit >= "@
                    + text::decimal(limit_mb as nat) + "MB limit (after "@ + text::decimal(
                    dispatches as nat,
                ) + " shared dispatches)"@,
            )
            &&& private_mb < limit_mb && dispatches >= dispatch_limit ==> recycle_reason(
                Some(bytes),
                limit,
                dispatches,
                dispatch_limit,
            ) == Some(
                "dispatch budget: "@ + text::decimal(dispatches as nat) + " shared dispatches >= "@
                    + text::decimal(dispatch_limit as nat) + " limit"@,
            )
            &&& private_mb < limit_mb && dispatches < dispatch_limit ==> recycle_reason(
                Some(bytes),
                limit,
                dispatches,
                dispatch_limit,
            ) is None
            &&& dispatches < dispatch_limit ==> recycle_reason(None, limit, dispatches, dispatch_limit)
                is None
        }),
{
}

/// The shared plugins serve five hundred calls for each worker before they
/// start anew.
pub proof fn law_calls_before_starting_anew(n: usize)
    requires
        n <= 1_000_000,
    ensures
        default_dispatches(n) == 500 * n,
{
}

} // verus!

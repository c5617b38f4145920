//! The plugins of a project: their lifecycle, how long their calls may take,
//! and how a dispatch finds an instance to run on.
use crate::broker;
use crate::broker::{BrokerView, Brokers, LoadBalancePolicy, RouteLease};
use crate::host_state::DISPATCH_CALL_DEADLINE_SECS;
use crate::imports;
use crate::json;
use crate::json::{Json, JsonTree};
use crate::path;
use crate::pool;
use crate::pool::{PoolView, SharedPluginPool, SharedPlugins, SharedView};
use crate::strmap::StrMap;
use crate::text;
use vstd::prelude::*;
use vstd::string::*;

verus! {

/// How long an idle plugin is kept, in milliseconds.
pub const PLUGIN_IDLE_EVICT_MS: u64 = 1_800_000;

/// How often deadlines are looked at, in milliseconds.
pub const EPOCH_TICK_INTERVAL_MS: u64 = 1_000;

/// How long a call of the embedding plugin may take, in seconds.
pub const BERT_DISPATCH_CALL_DEADLINE_SECS: u64 = 1200;

/// The longest deadline that a caller may ask for, in seconds.
pub const CALLER_SUPPLIED_DEADLINE_CEILING_SECS: u64 = 3600;

// ---------------------------------------------------------------------------
// Deadlines
// ---------------------------------------------------------------------------
/// How many ticks a number of seconds takes, rounded up.
pub fn epoch_ticks_for_seconds(secs: u64) -> (r: u64)
    requires
        secs * 1000 <= u64::MAX,
    ensures
        r == (secs * 1000 + EPOCH_TICK_INTERVAL_MS - 1) / EPOCH_TICK_INTERVAL_MS as int,
        r == secs,
{
    let ms: u64 = secs * 1000;
    if ms % EPOCH_TICK_INTERVAL_MS == 0 {
        ms / EPOCH_TICK_INTERVAL_MS
    } else {
        ms / EPOCH_TICK_INTERVAL_MS + 1
    }
}

/// The deadline of a plugin's calls, in seconds.
pub open spec fn plugin_deadline(plugin: Seq<char>) -> u64 {
    if plugin == "bert"@ {
        BERT_DISPATCH_CALL_DEADLINE_SECS
    } else {
        DISPATCH_CALL_DEADLINE_SECS
    }
}

pub fn dispatch_call_deadline_secs(plugin_name: &str) -> (r: u64)
    ensures
        r == plugin_deadline(plugin_name@),
{
    if text::str_eq(plugin_name, "bert") {
        BERT_DISPATCH_CALL_DEADLINE_SECS
    } else {
        DISPATCH_CALL_DEADLINE_SECS
    }
}

/// The deadline that a request asks for, given what it reads as: its positive
/// field `deadline_secs`, up to the ceiling.
pub open spec fn supplied_deadline(parsed: Result<JsonTree, Seq<char>>) -> Option<nat> {
    match parsed {
        Ok(t) => match json::field_u64(t, "deadline_secs"@) {
            Some(s) => if s == 0 {
                None
            } else if s <= CALLER_SUPPLIED_DEADLINE_CEILING_SECS {
                Some(s)
            } else {
                Some(CALLER_SUPPLIED_DEADLINE_CEILING_SECS as nat)
            },
            None => None,
        },
        Err(_) => None,
    }
}

/// The deadline that a request asks for.
pub fn deadline_in(v: &Json) -> (r: Option<u64>)
    ensures
        imports::opt_nat(r) == supplied_deadline(json::read_ok(json::tree(*v))),
{
    match v.u64_field("deadline_secs") {
        Some(s) => if s == 0 {
            None
        } else if s <= CALLER_SUPPLIED_DEADLINE_CEILING_SECS {
            Some(s)
        } else {
            Some(CALLER_SUPPLIED_DEADLINE_CEILING_SECS)
        },
        None => None,
    }
}

/// The deadline that the body of a request asks for. A body that does not name
/// the field is not read.
pub fn caller_supplied_deadline_secs(body: &str) -> (r: Option<u64>)
    ensures
        imports::opt_nat(r) == (if text::has_text(body@, "deadline_secs"@) {
            supplied_deadline(json::parsed_json(body@))
        } else {
            None
        }),
{
    if !text::contains(body, "deadline_secs") {
        return None;
    }
    match json::parse(body) {
        Ok(v) => deadline_in(&v),
        Err(_) => None,
    }
}

/// The deadline of a call: what its body asks for, or that of the plugin.
pub open spec fn call_deadline(plugin: Seq<char>, supplied: Option<nat>) -> nat {
    match supplied {
        Some(s) => s,
        None => plugin_deadline(plugin) as nat,
    }
}

pub fn deadline_secs_for_call(plugin_name: &str, body: &str) -> (r: u64)
    ensures
        r == call_deadline(
            plugin_name@,
            if text::has_text(body@, "deadline_secs"@) {
                supplied_deadline(json::parsed_json(body@))
            } else {
                None
            },
        ),
        1 <= r <= CALLER_SUPPLIED_DEADLINE_CEILING_SECS,
{
    match caller_supplied_deadline_secs(body) {
        Some(s) => s,
        None => dispatch_call_deadline_secs(plugin_name),
    }
}

/// Every call has a deadline, of at least a second and at most the ceiling.
pub proof fn law_every_call_has_a_deadline(plugin: Seq<char>, parsed: Result<JsonTree, Seq<char>>)
    ensures
        1 <= call_deadline(plugin, supplied_deadline(parsed))
            <= CALLER_SUPPLIED_DEADLINE_CEILING_SECS,
{
}

// ---------------------------------------------------------------------------
// Lifecycle
// ---------------------------------------------------------------------------
/// Where a plugin stands: never loaded or evicted, held by a slot, or on its
/// way out after a load that failed.
#[derive(Debug, Clone, Copy, PartialEq, Eq, Structural)]
pub enum PluginFiberLifecycle {
    Inactive,
    Active,
    Unloading,
}

/// What is stored of a plugin's lifecycle.
pub struct PluginFiberState {
    pub state: PluginFiberLifecycle,
    pub content_hash: Option<String>,
}

/// The lifecycle after a load that succeeded or failed.
pub open spec fn next_lifecycle(current: PluginFiberLifecycle, load_succeeded: bool) -> PluginFiberLifecycle {
    match (current, load_succeeded) {
        (PluginFiberLifecycle::Inactive, true) => PluginFiberLifecycle::Active,
        (PluginFiberLifecycle::Inactive, false) => PluginFiberLifecycle::Inactive,
        (PluginFiberLifecycle::Active, true) => PluginFiberLifecycle::Active,
        (PluginFiberLifecycle::Active, false) => PluginFiberLifecycle::Unloading,
        (PluginFiberLifecycle::Unloading, _) => PluginFiberLifecycle::Inactive,
    }
}

/// The lifecycle that is stored; inactive where nothing readable is.
pub open spec fn stored_lifecycle(stored: Option<PluginFiberState>) -> PluginFiberLifecycle {
    match stored {
        Some(s) => s.state,
        None => PluginFiberLifecycle::Inactive,
    }
}

/// Where a plugin's lifecycle is stored.
pub fn plugin_fiber_state_path(install_dir: &str, plugin_name: &str) -> (r: String)
    ensures
        r@ == path::joined2(install_dir@, "plugins"@, plugin_name@ + ".fiber-state.json"@),
{
    path::join2(install_dir, "plugins", text::add2(plugin_name, ".fiber-state.json").as_str())
}

/// Moves a plugin's lifecycle on by one load. Gives what is to be stored.
pub fn advance_plugin_fiber(
    stored: Option<PluginFiberState>,
    load_succeeded: bool,
    content_hash: Option<&str>,
) -> (r: PluginFiberState)
    ensures
        r.state == next_lifecycle(stored_lifecycle(stored), load_succeeded),
        text::opt_string_view(r.content_hash) == text::opt_view(content_hash),
{
    let state = match (read_plugin_lifecycle(stored), load_succeeded) {
        (PluginFiberLifecycle::Inactive, true) => PluginFiberLifecycle::Active,
        (PluginFiberLifecycle::Inactive, false) => PluginFiberLifecycle::Inactive,
        (PluginFiberLifecycle::Active, true) => PluginFiberLifecycle::Active,
        (PluginFiberLifecycle::Active, false) => PluginFiberLifecycle::Unloading,
        (PluginFiberLifecycle::Unloading, _) => PluginFiberLifecycle::Inactive,
    };
    let content_hash = match content_hash {
        Some(h) => Some(h.to_owned()),
        None => None,
    };
    PluginFiberState { state, content_hash }
}

/// Where a plugin stands, by what is stored.
pub fn read_plugin_lifecycle(stored: Option<PluginFiberState>) -> (r: PluginFiberLifecycle)
    ensures
        r == stored_lifecycle(stored),
{
    match stored {
        Some(s) => s.state,
        None => PluginFiberLifecycle::Inactive,
    }
}

/// A plugin becomes active only by a load that succeeds, and a plugin on its
/// way out is inactive after the next load, whatever comes of it.
pub proof fn law_lifecycle_moves_one_step(current: PluginFiberLifecycle, load_succeeded: bool)
    ensures
        next_lifecycle(current, load_succeeded) == PluginFiberLifecycle::Active ==> load_succeeded
            && current != PluginFiberLifecycle::Unloading,
        next_lifecycle(current, load_succeeded) == PluginFiberLifecycle::Unloading
            ==> !load_succeeded && current == PluginFiberLifecycle::Active,
        next_lifecycle(PluginFiberLifecycle::Unloading, load_succeeded)
            == PluginFiberLifecycle::Inactive,
{
}

// ---------------------------------------------------------------------------
// Calling into a guest
// ---------------------------------------------------------------------------
/// What the number that a guest returned asks for.
pub enum CallOutcome {
    /// The response is read from guest memory.
    Read { ptr: u32, len: u32 },
    /// The response is empty.
    Empty,
    /// The response was lost on its way; the call fails with this error.
    Lost { error: String },
}

/// The error of a call whose response was lost.
pub open spec fn lost_error(plugin: Seq<char>, verb: Seq<char>, reason: Seq<char>) -> Seq<char> {
    "plugin_response_lost: "@ + plugin + " verb "@ + verb
        + " produced a response that never reached the guest -- "@ + reason
}

/// Reads the number that a guest returned. An address or a length of zero is an
/// empty response, unless a response was noted as lost.
pub fn call_outcome(plugin: &str, verb: &str, returned: u64, lost: Option<String>) -> (r: CallOutcome)
    ensures
        ({
            let ptr = returned as int % 0x1_0000_0000;
            let len = returned as int / 0x1_0000_0000;
            if ptr != 0 && len != 0 {
                r matches CallOutcome::Read { ptr: p, len: l } && p == ptr && l == len
            } else {
                match text::opt_string_view(lost) {
                    Some(reason) => r matches CallOutcome::Lost { error } && error@ == lost_error(
                        plugin@,
                        verb@,
                        reason,
                    ),
                    None => r is Empty,
                }
            }
        }),
{
    let (ptr, len) = crate::guest_abi::unpack_guest_ptr_len(returned);
    if ptr != 0 && len != 0 {
        return CallOutcome::Read { ptr, len };
    }
    match lost {
        Some(reason) => {
            let head = text::add5(
                "plugin_response_lost: ",
                plugin,
                " verb ",
                verb,
                " produced a response that never reached the guest -- ",
            );
            CallOutcome::Lost { error: text::add2(head.as_str(), reason.as_str()) }
        },
        None => CallOutcome::Empty,
    }
}

/// The error of a call that the guest did not end: one that ran out of time is
/// named as such, any other keeps its own text.
pub fn call_error(plugin: &str, verb: &str, deadline_secs: u64, interrupted: bool, error: &str) -> (r:
    String)
    ensures
        r@ == (if interrupted {
            "plugin_call_deadline_exceeded: "@ + plugin@ + " exceeded "@ + text::decimal(
                deadline_secs as nat,
            ) + "s executing verb "@ + verb@
        } else {
            error@
        }),
{
    if interrupted {
        let head = text::add5(
            "plugin_call_deadline_exceeded: ",
            plugin,
            " exceeded ",
            text::u64_text(deadline_secs).as_str(),
            "s executing verb ",
        );
        text::add2(head.as_str(), verb)
    } else {
        error.to_owned()
    }
}

// ---------------------------------------------------------------------------
// Routing
// ---------------------------------------------------------------------------
/// Whether the requests for a plugin are shared out: several providers are
/// registered for it, and one of them can be picked.
pub open spec fn shared_out(m: Map<Seq<char>, BrokerView>, plugin: Seq<char>) -> bool {
    m.dom().contains(plugin) && m[plugin].providers.len() >= 2 && broker::can_select(m[plugin])
}

/// The name under which a request for a plugin is dispatched: the provider
/// that the broker of that name picks, or the plugin itself where there are
/// not several providers or none to pick. The lease is held until the dispatch
/// has ended.
pub fn resolve_routed_plugin_name(brokers: &mut Brokers, plugin_name: &str) -> (r: (
    String,
    Option<RouteLease>,
))
    ensures
        broker::valid_brokers(final(brokers)@),
        r.1 is Some <==> shared_out(old(brokers)@, plugin_name@),
        match r.1 {
            Some(lease) => r.0@ == lease.provider_id@ && lease.service_key@ == plugin_name@
                && exists|i: int|
                #![trigger old(brokers)@[plugin_name@].providers[i]]
                broker::selects(old(brokers)@[plugin_name@], i) && lease.provider_id@ == old(
                    brokers,
                )@[plugin_name@].providers[i].id && final(brokers)@ == old(brokers)@.insert(
                    plugin_name@,
                    broker::routed(old(brokers)@[plugin_name@], i),
                ),
            None => r.0@ == plugin_name@ && final(brokers)@ == old(brokers)@,
        },
{
    let several = match broker::status(brokers, plugin_name) {
        Some(s) => s.providers.len() >= 2,
        None => false,
    };
    if !several {
        return (plugin_name.to_owned(), None);
    }
    match broker::route(brokers, plugin_name) {
        Some(lease) => (lease.provider_id.clone(), Some(lease)),
        None => (plugin_name.to_owned(), None),
    }
}

// ---------------------------------------------------------------------------
// Dispatching
// ---------------------------------------------------------------------------
/// Why a dispatch did not reach a plugin.
#[derive(Debug)]
pub enum PluginDispatchError {
    NotRegistered { plugin_name: String },
    EvictedOrPoisoned { plugin_name: String },
}

/// The text of a dispatch error.
pub open spec fn error_text(e: PluginDispatchError) -> Seq<char> {
    match e {
        PluginDispatchError::NotRegistered { plugin_name } => "plugin "@ + plugin_name@
            + " is not registered for this project (no plugin pool exists -- check .agentplug/plugins.txt and daemon startup logs for a compile/install failure)"@,
        PluginDispatchError::EvictedOrPoisoned { plugin_name } => "plugin "@ + plugin_name@
            + " slot was evicted after a prior dispatch error (poisoned Store) and could not be reinstantiated -- retry will attempt to reload it"@,
    }
}

impl PluginDispatchError {
    /// The text of this error.
    pub fn message(&self) -> (r: String)
        ensures
            r@ == error_text(*self),
    {
        match self {
            PluginDispatchError::NotRegistered { plugin_name } => text::add3(
                "plugin ",
                plugin_name.as_str(),
                " is not registered for this project (no plugin pool exists -- check .agentplug/plugins.txt and daemon startup logs for a compile/install failure)",
            ),
            PluginDispatchError::EvictedOrPoisoned { plugin_name } => text::add3(
                "plugin ",
                plugin_name.as_str(),
                " slot was evicted after a prior dispatch error (poisoned Store) and could not be reinstantiated -- retry will attempt to reload it",
            ),
        }
    }
}

/// The line that the event log gets when a slot was emptied after an error.
pub fn poisoned_store_eviction_line(
    plugin_name: &str,
    verb: &str,
    reinstantiation_succeeded: bool,
    prior_dispatch_error: &str,
    now_ms: u64,
) -> (r: String)
    ensures
        r@ == "evt: "@ + json::json_text(
            json::written(
                json::with_field(
                    json::obj5(
                        "event"@,
                        JsonTree::Str("plugin_poisoned_store_evicted"@),
                        "plugin"@,
                        JsonTree::Str(plugin_name@),
                        "verb"@,
                        JsonTree::Str(verb@),
                        "reinstantiation_succeeded"@,
                        JsonTree::Bool(reinstantiation_succeeded),
                        "prior_dispatch_error"@,
                        JsonTree::Str(prior_dispatch_error@),
                    ),
                    "ts"@,
                    json::uint_tree(now_ms as nat),
                ),
            ),
        ),
{
    let v = json::object5(
        "event",
        json::str("plugin_poisoned_store_evicted"),
        "plugin",
        json::str(plugin_name),
        "verb",
        json::str(verb),
        "reinstantiation_succeeded",
        json::boolean(reinstantiation_succeeded),
        "prior_dispatch_error",
        json::str(prior_dispatch_error),
    ).with("ts", json::uint(now_ms));
    text::add2("evt: ", json::to_text(&v).as_str())
}

/// How often a plugin is looked up before it counts as not registered.
pub const LOOKUP_ATTEMPTS: u32 = 3;

/// The pause between two lookups, in milliseconds.
pub const LOOKUP_BACKOFF_MS: u64 = 200;

/// How often a plugin is loaded again into an empty slot.
pub const RELOAD_ATTEMPTS: u32 = 3;

/// The pause between two loads, in milliseconds.
pub const RELOAD_BACKOFF_MS: u64 = 250;

/// Where a dispatch stands.
pub enum DispatchState {
    /// The pool of the plugin is being looked up.
    LookingUp { attempt: u32 },
    /// A plugin that was not found is being loaded.
    LoadingMissing,
    /// The pool is being looked up after that load.
    LookingUpLoaded,
    /// A slot is being taken.
    TakingSlot,
    /// The plugin is being loaded into an empty slot.
    Reloading { attempt: u32, last_error: Option<String> },
    /// The pool is being looked up after that load.
    LookingUpReloaded { attempt: u32, last_error: Option<String> },
    /// A slot is being looked at after that load.
    CheckingSlot { attempt: u32, last_error: Option<String> },
    /// A slot is being taken after a load that worked.
    TakingSlotAgain,
    /// The dispatch runs or has failed.
    Over,
}

/// What came of the last action.
pub enum DispatchEvent {
    /// The pool of the plugin was found, or not.
    LookedUp { found: bool },
    /// The plugin was loaded, or failed to with an error.
    Loaded { error: Option<String> },
    /// A slot was taken or looked at; it has content, or not.
    Slot { filled: bool },
}

/// What is to be done next.
pub enum DispatchAction {
    /// Look the pool up, after a pause.
    LookUp { after_ms: u64 },
    /// Load the plugin, after a pause.
    Load { after_ms: u64 },
    /// Be admitted and take a slot.
    TakeSlot,
    /// Take a slot, see whether it has content, and give it back.
    CheckSlot,
    /// Run the verb on the slot that was taken.
    Run,
    /// The plugin is not registered.
    FailNotRegistered,
    /// The slot is empty and stays empty; the detail goes to the event log.
    FailEvicted { detail: String },
}

/// Whether an event is one that a state waits for.
pub open spec fn awaits(s: DispatchState, e: DispatchEvent) -> bool {
    match s {
        DispatchState::LookingUp { attempt } => e is LookedUp && attempt < LOOKUP_ATTEMPTS,
        DispatchState::LoadingMissing => e is Loaded,
        DispatchState::LookingUpLoaded => e is LookedUp,
        DispatchState::TakingSlot => e is Slot,
        DispatchState::Reloading { attempt, .. } => e is Loaded && attempt < RELOAD_ATTEMPTS,
        DispatchState::LookingUpReloaded { attempt, .. } => e is LookedUp && attempt
            < RELOAD_ATTEMPTS,
        DispatchState::CheckingSlot { attempt, .. } => e is Slot && attempt < RELOAD_ATTEMPTS,
        DispatchState::TakingSlotAgain => e is Slot,
        DispatchState::Over => false,
    }
}

/// What the event log gets when a slot was found empty.
pub open spec fn already_empty() -> Seq<char> {
    "slot already empty from a prior eviction, reload did not repopulate it"@
}

/// What the event log gets when loading again did not help.
pub open spec fn reload_failed_detail(last_error: Option<Seq<char>>) -> Seq<char> {
    "reinstantiation failed after "@ + text::decimal(RELOAD_ATTEMPTS as nat) + " attempts: "@ + (
    match last_error {
        Some(e) => e,
        None => "reload produced no error but no slot was repopulated"@,
    })
}

/// Where a dispatch stands, as a value.
pub enum DispatchPhase {
    LookingUp(int),
    LoadingMissing,
    LookingUpLoaded,
    TakingSlot,
    Reloading(int, Option<Seq<char>>),
    LookingUpReloaded(int, Option<Seq<char>>),
    CheckingSlot(int, Option<Seq<char>>),
    TakingSlotAgain,
    Over,
}

/// The phase of a dispatch.
pub open spec fn phase(s: DispatchState) -> DispatchPhase {
    match s {
        DispatchState::LookingUp { attempt } => DispatchPhase::LookingUp(attempt as int),
        DispatchState::LoadingMissing => DispatchPhase::LoadingMissing,
        DispatchState::LookingUpLoaded => DispatchPhase::LookingUpLoaded,
        DispatchState::TakingSlot => DispatchPhase::TakingSlot,
        DispatchState::Reloading { attempt, last_error } => DispatchPhase::Reloading(
            attempt as int,
            text::opt_string_view(last_error),
        ),
        DispatchState::LookingUpReloaded { attempt, last_error } => DispatchPhase::LookingUpReloaded(
            attempt as int,
            text::opt_string_view(last_error),
        ),
        DispatchState::CheckingSlot { attempt, last_error } => DispatchPhase::CheckingSlot(
            attempt as int,
            text::opt_string_view(last_error),
        ),
        DispatchState::TakingSlotAgain => DispatchPhase::TakingSlotAgain,
        DispatchState::Over => DispatchPhase::Over,
    }
}

/// What came of the last action, as a value.
pub enum DispatchFact {
    LookedUp(bool),
    Loaded(Option<Seq<char>>),
    Slot(bool),
}

/// The fact that an event reports.
pub open spec fn fact(e: DispatchEvent) -> DispatchFact {
    match e {
        DispatchEvent::LookedUp { found } => DispatchFact::LookedUp(found),
        DispatchEvent::Loaded { error } => DispatchFact::Loaded(text::opt_string_view(error)),
        DispatchEvent::Slot { filled } => DispatchFact::Slot(filled),
    }
}

/// What is to be done, as a value.
pub enum DispatchMove {
    LookUp(int),
    Load(int),
    TakeSlot,
    CheckSlot,
    Run,
    FailNotRegistered,
    FailEvicted(Seq<char>),
}

/// The move that an action makes.
pub open spec fn the_move(a: DispatchAction) -> DispatchMove {
    match a {
        DispatchAction::LookUp { after_ms } => DispatchMove::LookUp(after_ms as int),
        DispatchAction::Load { after_ms } => DispatchMove::Load(after_ms as int),
        DispatchAction::TakeSlot => DispatchMove::TakeSlot,
        DispatchAction::CheckSlot => DispatchMove::CheckSlot,
        DispatchAction::Run => DispatchMove::Run,
        DispatchAction::FailNotRegistered => DispatchMove::FailNotRegistered,
        DispatchAction::FailEvicted { detail } => DispatchMove::FailEvicted(detail@),
    }
}

/// Who dispatches a verb.
#[derive(Debug, Clone, Copy, PartialEq, Eq, Structural)]
pub enum DispatchBy {
    /// The project itself. A plugin that is not found is not registered, and an
    /// empty slot stays empty.
    Project,
    /// A handle of the project, which has the plugin loaded again and then looks
    /// again. One with nothing to load it from loads nothing, without an error,
    /// and looks again all the same: another dispatch may have filled a slot.
    Handle,
}

/// How a dispatch goes on.
pub open spec fn dispatch_next(p: DispatchPhase, f: DispatchFact, by: DispatchBy) -> (
    DispatchPhase,
    DispatchMove,
) {
    match (p, f) {
        (DispatchPhase::LookingUp(a), DispatchFact::LookedUp(found)) => if found {
            (DispatchPhase::TakingSlot, DispatchMove::TakeSlot)
        } else if a + 1 < LOOKUP_ATTEMPTS {
            (DispatchPhase::LookingUp(a + 1), DispatchMove::LookUp(LOOKUP_BACKOFF_MS as int))
        } else if by == DispatchBy::Handle {
            (DispatchPhase::LoadingMissing, DispatchMove::Load(0))
        } else {
            (DispatchPhase::Over, DispatchMove::FailNotRegistered)
        },
        (DispatchPhase::LoadingMissing, DispatchFact::Loaded(_)) => (
            DispatchPhase::LookingUpLoaded,
            DispatchMove::LookUp(0),
        ),
        (DispatchPhase::LookingUpLoaded, DispatchFact::LookedUp(found)) => if found {
            (DispatchPhase::TakingSlot, DispatchMove::TakeSlot)
        } else {
            (DispatchPhase::Over, DispatchMove::FailNotRegistered)
        },
        (DispatchPhase::TakingSlot, DispatchFact::Slot(filled)) => if filled {
            (DispatchPhase::Over, DispatchMove::Run)
        } else if by == DispatchBy::Handle {
            (DispatchPhase::Reloading(0, None), DispatchMove::Load(0))
        } else {
            (DispatchPhase::Over, DispatchMove::FailEvicted(already_empty()))
        },
        (DispatchPhase::Reloading(a, last), DispatchFact::Loaded(error)) => (
            DispatchPhase::LookingUpReloaded(a, imports::first_of(error, last)),
            DispatchMove::LookUp(0),
        ),
        (DispatchPhase::LookingUpReloaded(a, last), DispatchFact::LookedUp(found)) => if found {
            (DispatchPhase::CheckingSlot(a, last), DispatchMove::CheckSlot)
        } else {
            (DispatchPhase::Over, DispatchMove::FailNotRegistered)
        },
        (DispatchPhase::CheckingSlot(a, last), DispatchFact::Slot(filled)) => if filled {
            (DispatchPhase::TakingSlotAgain, DispatchMove::TakeSlot)
        } else if a + 1 < RELOAD_ATTEMPTS {
            (DispatchPhase::Reloading(a + 1, last), DispatchMove::Load(RELOAD_BACKOFF_MS as int))
        } else {
            (DispatchPhase::Over, DispatchMove::FailEvicted(reload_failed_detail(last)))
        },
        (DispatchPhase::TakingSlotAgain, DispatchFact::Slot(filled)) => if filled {
            (DispatchPhase::Over, DispatchMove::Run)
        } else {
            (DispatchPhase::Over, DispatchMove::FailEvicted(already_empty()))
        },
        _ => (p, DispatchMove::FailNotRegistered),
    }
}

/// How a dispatch starts.
pub fn begin_dispatch() -> (r: (DispatchState, DispatchAction))
    ensures
        phase(r.0) == DispatchPhase::LookingUp(0),
        the_move(r.1) == DispatchMove::LookUp(0),
{
    (DispatchState::LookingUp { attempt: 0 }, DispatchAction::LookUp { after_ms: 0 })
}

fn fail_evicted(detail: String) -> (r: (DispatchState, DispatchAction))
    ensures
        phase(r.0) == DispatchPhase::Over,
        the_move(r.1) == DispatchMove::FailEvicted(detail@),
{
    (DispatchState::Over, DispatchAction::FailEvicted { detail })
}

/// Moves a dispatch on by one event.
pub fn step_dispatch(state: DispatchState, event: DispatchEvent, by: DispatchBy) -> (r: (
    DispatchState,
    DispatchAction,
))
    requires
        awaits(state, event),
    ensures
        (phase(r.0), the_move(r.1)) == dispatch_next(phase(state), fact(event), by),
{
    match (state, event) {
        (DispatchState::LookingUp { attempt }, DispatchEvent::LookedUp { found }) => {
            if found {
                (DispatchState::TakingSlot, DispatchAction::TakeSlot)
            } else if attempt + 1 < LOOKUP_ATTEMPTS {
                (
                    DispatchState::LookingUp { attempt: attempt + 1 },
                    DispatchAction::LookUp { after_ms: LOOKUP_BACKOFF_MS },
                )
            } else if by == DispatchBy::Handle {
                (DispatchState::LoadingMissing, DispatchAction::Load { after_ms: 0 })
            } else {
                (DispatchState::Over, DispatchAction::FailNotRegistered)
            }
        },
        (DispatchState::LoadingMissing, _) => (
            DispatchState::LookingUpLoaded,
            DispatchAction::LookUp { after_ms: 0 },
        ),
        (DispatchState::LookingUpLoaded, DispatchEvent::LookedUp { found }) => {
            if found {
                (DispatchState::TakingSlot, DispatchAction::TakeSlot)
            } else {
                (DispatchState::Over, DispatchAction::FailNotRegistered)
            }
        },
        (DispatchState::TakingSlot, DispatchEvent::Slot { filled }) => {
            if filled {
                (DispatchState::Over, DispatchAction::Run)
            } else if by == DispatchBy::Handle {
                (
                    DispatchState::Reloading { attempt: 0, last_error: None },
                    DispatchAction::Load { after_ms: 0 },
                )
            } else {
                fail_evicted(
                    "slot already empty from a prior eviction, reload did not repopulate it".to_owned(),
                )
            }
        },
        (DispatchState::Reloading { attempt, last_error }, DispatchEvent::Loaded { error }) => {
            let last_error = match error {
                Some(e) => Some(e),
                None => last_error,
            };
            (
                DispatchState::LookingUpReloaded { attempt, last_error },
                DispatchAction::LookUp { after_ms: 0 },
            )
        },
        (
            DispatchState::LookingUpReloaded { attempt, last_error },
            DispatchEvent::LookedUp { found },
        ) => {
            if found {
                (DispatchState::CheckingSlot { attempt, last_error }, DispatchAction::CheckSlot)
            } else {
                (DispatchState::Over, DispatchAction::FailNotRegistered)
            }
        },
        (DispatchState::CheckingSlot { attempt, last_error }, DispatchEvent::Slot { filled }) => {
            if filled {
                (DispatchState::TakingSlotAgain, DispatchAction::TakeSlot)
            } else if attempt + 1 < RELOAD_ATTEMPTS {
                (
                    DispatchState::Reloading { attempt: attempt + 1, last_error },
                    DispatchAction::Load { after_ms: RELOAD_BACKOFF_MS },
                )
            } else {
                let detail = match last_error {
                    Some(e) => e,
                    None => "reload produced no error but no slot was repopulated".to_owned(),
                };
                fail_evicted(
                    text::add4(
                        "reinstantiation failed after ",
                        text::u64_text(RELOAD_ATTEMPTS as u64).as_str(),
                        " attempts: ",
                        detail.as_str(),
                    ),
                )
            }
        },
        (DispatchState::TakingSlotAgain, DispatchEvent::Slot { filled }) => {
            if filled {
                (DispatchState::Over, DispatchAction::Run)
            } else {
                fail_evicted(
                    "slot already empty from a prior eviction, reload did not repopulate it".to_owned(),
                )
            }
        },
        _ => (DispatchState::Over, DispatchAction::FailNotRegistered),
    }
}

/// How many events a dispatch can still take.
pub open spec fn events_left(p: DispatchPhase) -> int {
    match p {
        DispatchPhase::LookingUp(a) => (LOOKUP_ATTEMPTS - a) + 20,
        DispatchPhase::LoadingMissing => 20,
        DispatchPhase::LookingUpLoaded => 19,
        DispatchPhase::TakingSlot => 18,
        DispatchPhase::Reloading(a, _) => 3 * (RELOAD_ATTEMPTS - a) + 2,
        DispatchPhase::LookingUpReloaded(a, _) => 3 * (RELOAD_ATTEMPTS - a) + 1,
        DispatchPhase::CheckingSlot(a, _) => 3 * (RELOAD_ATTEMPTS - a),
        DispatchPhase::TakingSlotAgain => 1,
        DispatchPhase::Over => 0,
    }
}

/// A dispatch ends: every event that it waits for brings it nearer to its end,
/// after which a verb runs or the dispatch has failed.
pub proof fn law_dispatch_ends(s: DispatchState, e: DispatchEvent, by: DispatchBy)
    requires
        awaits(s, e),
    ensures
        0 <= events_left(dispatch_next(phase(s), fact(e), by).0) < events_left(phase(s)),
        events_left(phase(s)) <= 23,
        dispatch_next(phase(s), fact(e), by).0 == DispatchPhase::Over <==> (dispatch_next(
            phase(s),
            fact(e),
            by,
        ).1 is Run || dispatch_next(phase(s), fact(e), by).1 is FailNotRegistered
            || dispatch_next(phase(s), fact(e), by).1 is FailEvicted),
{
}

/// A verb runs only on a slot that was taken and has content.
pub proof fn law_runs_only_on_a_filled_slot(s: DispatchState, e: DispatchEvent, by: DispatchBy)
    requires
        awaits(s, e),
        dispatch_next(phase(s), fact(e), by).1 == DispatchMove::Run,
    ensures
        fact(e) == DispatchFact::Slot(true),
        phase(s) == DispatchPhase::TakingSlot || phase(s) == DispatchPhase::TakingSlotAgain,
{
}

// ---------------------------------------------------------------------------
// The plugins of a project
// ---------------------------------------------------------------------------
/// The plugins that one project has loaded: shared ones by name, and its own
/// with their pools.
pub struct ProjectPlugins {
    pub root: String,
    pub last_active_ms: u64,
    shared_names: Vec<String>,
    own: StrMap<SharedPluginPool>,
}

/// The plugins of a project as a value.
#[verifier::ext_equal]
pub struct ProjectView {
    pub root: Seq<char>,
    pub last_active_ms: u64,
    pub shared: Set<Seq<char>>,
    pub own: Map<Seq<char>, PoolView>,
}

spec fn own_views(m: Map<Seq<char>, SharedPluginPool>) -> Map<Seq<char>, PoolView> {
    m.map_values(|p: SharedPluginPool| p@)
}

impl View for ProjectPlugins {
    type V = ProjectView;

    closed spec fn view(&self) -> ProjectView {
        ProjectView {
            root: self.root@,
            last_active_ms: self.last_active_ms,
            shared: pool::text_set(self.shared_names@),
            own: own_views(self.own@),
        }
    }
}

/// Whether every slot that no dispatch holds has content.
pub open spec fn all_filled(p: PoolView) -> bool {
    forall|i: int|
        0 <= i < p.slots.len() ==> (#[trigger] p.slots[i]).holder is Some || p.slots[i].content is Some
}

/// The pool that serves a plugin for a project, if it has one.
pub open spec fn pool_of(p: ProjectView, s: SharedView, name: Seq<char>) -> Option<PoolView> {
    if p.own.dom().contains(name) {
        Some(p.own[name])
    } else if p.shared.contains(name) && s.pools.dom().contains(name) {
        Some(s.pools[name])
    } else {
        None
    }
}

/// Whether some slot holds `hash`.
pub open spec fn holds_content(p: PoolView, hash: Seq<char>) -> bool {
    exists|i: int| 0 <= i < p.slots.len() && (#[trigger] p.slots[i]).content == Some(hash)
}

impl ProjectPlugins {
    /// A project that has loaded nothing.
    pub fn new(root: &str, now_ms: u64) -> (r: Self)
        ensures
            r@ == (ProjectView {
                root: root@,
                last_active_ms: now_ms,
                shared: Set::empty(),
                own: Map::empty(),
            }),
    {
        let r = ProjectPlugins {
            root: root.to_owned(),
            last_active_ms: now_ms,
            shared_names: Vec::new(),
            own: StrMap::new(),
        };
        assert(r@.shared =~= Set::<Seq<char>>::empty());
        assert(r@.own =~= Map::<Seq<char>, PoolView>::empty());
        r
    }

    /// The pool that serves a plugin for this project.
    pub fn pool<'a>(&'a self, shared: &'a SharedPlugins, plugin_name: &str) -> (r: Option<
        &'a SharedPluginPool,
    >)
        ensures
            match r {
                Some(p) => pool_of(self@, shared@, plugin_name@) == Some(p@),
                None => pool_of(self@, shared@, plugin_name@) is None,
            },
    {
        match self.own.get(plugin_name) {
            Some(p) => Some(p),
            None => if text::list_contains(&self.shared_names, plugin_name) {
                shared.get(plugin_name)
            } else {
                None
            },
        }
    }

    /// Whether a plugin is loaded: it has a pool, and every slot of it that no
    /// dispatch holds has content.
    pub fn is_loaded(&self, shared: &SharedPlugins, plugin_name: &str) -> (r: bool)
        ensures
            r == (match pool_of(self@, shared@, plugin_name@) {
                Some(p) => all_filled(p),
                None => false,
            }),
    {
        match self.pool(shared, plugin_name) {
            Some(p) => p.all_instantiated(),
            None => false,
        }
    }

    /// Whether a plugin is loaded with the content it has now. A shared plugin
    /// renews its content by itself; of any other some slot must hold it.
    pub fn is_loaded_current(&self, shared: &SharedPlugins, plugin_name: &str, content_hash: &str) -> (r:
        bool)
        ensures
            r == (match pool_of(self@, shared@, plugin_name@) {
                Some(p) => if pool::is_shared_name(plugin_name@) {
                    all_filled(p)
                } else {
                    holds_content(p, content_hash@)
                },
                None => false,
            }),
    {
        if pool::is_stateless_shared_plugin(plugin_name) {
            return self.is_loaded(shared, plugin_name);
        }
        match self.pool(shared, plugin_name) {
            Some(p) => {
                let hashes = p.slot_content_hashes();
                for i in 0..hashes.len()
                    invariant
                        hashes@.len() == p@.slots.len(),
                        pool_of(self@, shared@, plugin_name@) == Some(p@),
                        !pool::is_shared_name(plugin_name@),
                        forall|k: int|
                            0 <= k < hashes@.len() ==> text::opt_string_view(#[trigger] hashes@[k])
                                == p@.slots[k].content,
                        forall|j: int|
                            0 <= j < i ==> (#[trigger] p@.slots[j]).content != Some(content_hash@),
                {
                    assert(text::opt_string_view(hashes@[i as int]) == p@.slots[i as int].content);
                    match &hashes[i] {
                        Some(h) => {
                            if text::str_eq(h.as_str(), content_hash) {
                                assert(holds_content(p@, content_hash@));
                                return true;
                            }
                        },
                        None => {},
                    }
                }
                false
            },
            None => false,
        }
    }

    /// Notes that this project has a shared plugin.
    pub fn note_shared(&mut self, plugin_name: &str)
        ensures
            final(self)@ == (ProjectView {
                shared: old(self)@.shared.insert(plugin_name@),
                ..old(self)@
            }),
    {
        let ghost before = self@;
        pool::add_text(&mut self.shared_names, plugin_name);
        assert(self@.shared == before.shared.insert(plugin_name@));
    }

    /// Takes out the pool of a plugin of this project's own, made with one slot
    /// where there was none. It goes back with `put_own`.
    pub fn take_own(&mut self, plugin_name: &str) -> (r: SharedPluginPool)
        ensures
            r@ == (if old(self)@.own.dom().contains(plugin_name@) {
                old(self)@.own[plugin_name@]
            } else {
                pool::new_pool(plugin_name@, 1)
            }),
            final(self)@ == (ProjectView {
                own: old(self)@.own.remove(plugin_name@),
                ..old(self)@
            }),
    {
        let ghost m = self.own@;
        let taken = self.own.remove(plugin_name);
        assert(own_views(m.remove(plugin_name@)) =~= own_views(m).remove(plugin_name@));
        match taken {
            Some(p) => p,
            None => SharedPluginPool::new(plugin_name, 1),
        }
    }

    /// Puts the pool of a plugin of this project's own back.
    pub fn put_own(&mut self, plugin_name: &str, p: SharedPluginPool)
        ensures
            final(self)@ == (ProjectView {
                own: old(self)@.own.insert(plugin_name@, p@),
                ..old(self)@
            }),
    {
        let ghost m = self.own@;
        self.own.insert(plugin_name.to_owned(), p);
        assert(own_views(m.insert(plugin_name@, p)) =~= own_views(m).insert(plugin_name@, p@));
    }
}

// ---------------------------------------------------------------------------
// Fairness among projects
// ---------------------------------------------------------------------------
/// A dispatch that counts against the limit of its project, if it has one.
pub struct GmFairnessGuard {
    pub root: String,
    pub limited: bool,
}

/// How many dispatches of a project run, by the table that keeps a project
/// under the key of its path.
pub open spec fn inflight(m: Map<Seq<char>, usize>, root: Seq<char>) -> usize {
    if m.dom().contains(path::key(root)) {
        m[path::key(root)]
    } else {
        0
    }
}

impl GmFairnessGuard {
    /// Tries to start a dispatch of a project. Without a positive limit it
    /// starts uncounted; at the limit `None` tells the caller to wait and try
    /// again.
    pub fn acquire(running: &mut StrMap<usize>, root: &str, limit: Option<usize>) -> (r: Option<Self>)
        ensures
            match limit {
                Some(n) => if n == 0 {
                    r is Some && !r->0.limited && final(running)@ == old(running)@
                } else {
                    &&& r is Some <==> inflight(old(running)@, root@) < n
                    &&& r is Some ==> r->0.limited && final(running)@ == old(running)@.insert(
                        path::key(root@),
                        (inflight(old(running)@, root@) + 1) as usize,
                    )
                    &&& r is None ==> forall|k: Seq<char>| #[trigger]
                        inflight(final(running)@, k) == inflight(old(running)@, k)
                },
                None => r is Some && !r->0.limited && final(running)@ == old(running)@,
            },
            r is Some ==> r->0.root@ == root@,
    {
        let n: usize = match limit {
            Some(n) => n,
            None => 0,
        };
        if n == 0 {
            return Some(GmFairnessGuard { root: root.to_owned(), limited: false });
        }
        let key = path::key_of(root);
        let count: usize = match running.get(key.as_str()) {
            Some(c) => *c,
            None => 0,
        };
        if count < n {
            running.insert(key, count + 1);
            Some(GmFairnessGuard { root: root.to_owned(), limited: true })
        } else {
            None
        }
    }

    /// Ends a dispatch.
    pub fn release(self, running: &mut StrMap<usize>)
        ensures
            final(running)@ == (if self.limited && old(running)@.dom().contains(path::key(self.root@)) {
                old(running)@.insert(
                    path::key(self.root@),
                    (if old(running)@[path::key(self.root@)] == 0 {
                        0usize
                    } else {
                        (old(running)@[path::key(self.root@)] - 1) as usize
                    }),
                )
            } else {
                old(running)@
            }),
    {
        if !self.limited {
            return;
        }
        let key = path::key_of(self.root.as_str());
        let count: Option<usize> = match running.get(key.as_str()) {
            Some(c) => Some(*c),
            None => None,
        };
        match count {
            Some(c) => {
                running.insert(key, c.saturating_sub(1));
            },
            None => {},
        }
    }
}

/// The number of running dispatches of a project never passes its limit, and
/// ending one makes room for one.
pub proof fn law_fairness_limit_holds(m: Map<Seq<char>, usize>, root: Seq<char>, limit: usize)
    requires
        inflight(m, root) < limit,
    ensures
        ({
            let k = path::key(root);
            let after = m.insert(k, (inflight(m, root) + 1) as usize);
            &&& inflight(after, root) <= limit
            &&& inflight(after.insert(k, (after[k] - 1) as usize), root) == inflight(m, root)
        }),
{
}

// ---------------------------------------------------------------------------
// The list of plugins
// ---------------------------------------------------------------------------
/// The lines that are not blank, trimmed, among the first `n`.
pub open spec fn listed_names(lines: Seq<Seq<char>>, n: int) -> Seq<Seq<char>>
    decreases n,
{
    if n <= 0 {
        Seq::empty()
    } else {
        let rest = listed_names(lines, n - 1);
        let t = text::trimmed(lines[n - 1]);
        if t.len() == 0 {
            rest
        } else {
            rest.push(t)
        }
    }
}

/// The plugins that the list of a project names, one to a line.
pub fn read_project_plugin_list(content: &str) -> (r: Vec<String>)
    ensures
        text::string_views(r@) == listed_names(
            text::lines(content@),
            text::lines(content@).len() as int,
        ),
{
    let lines = text::lines_of(content);
    let ghost all = text::views(lines@);
    let mut out: Vec<String> = Vec::new();
    assert(text::string_views(out@) =~= Seq::<Seq<char>>::empty());
    for i in 0..lines.len()
        invariant
            all == text::views(lines@),
            text::string_views(out@) == listed_names(all, i as int),
    {
        let t = text::trim(lines[i]);
        assert(all[i as int] == lines@[i as int]@);
        let ghost before = out@;
        if !t.is_empty() {
            out.push(t.to_owned());
            assert(text::string_views(out@) =~= text::string_views(before).push(t@));
        }
    }
    out
}

/// Where the list of a project's plugins is.
pub fn project_plugin_list_path(root: &str) -> (r: String)
    ensures
        r@ == path::joined2(root@, ".agentplug"@, "plugins.txt"@),
{
    path::join2(root, ".agentplug", "plugins.txt")
}

/// A call has the time that its caller gives it, an hour at most; else two
/// minutes, and twenty for `bert`.
pub proof fn law_calls_have_their_time(plugin: Seq<char>, t: JsonTree, secs: u64, e: Seq<char>)
    ensures
        json::field(t, "deadline_secs"@) == Some(JsonTree::Number(text::decimal(secs as nat))) ==> {
            &&& 0 < secs <= 3600 ==> call_deadline(plugin, supplied_deadline(Ok(t))) == secs
            &&& secs > 3600 ==> call_deadline(plugin, supplied_deadline(Ok(t))) == 3600
            &&& secs == 0 ==> call_deadline(plugin, supplied_deadline(Ok(t))) == call_deadline(plugin, None)
        },
        json::field(t, "deadline_secs"@) is None ==> supplied_deadline(Ok(t)) is None,
        supplied_deadline(Err(e)) is None,
        plugin == "bert"@ ==> call_deadline(plugin, None) == 1200,
        plugin != "bert"@ ==> call_deadline(plugin, None) == 120,
{
    text::law_decimal_reads_back(secs as nat, u64::MAX as nat);
}

/// A plugin becomes active when it loads, is unloaded when that fails while it
/// is active, and is then inactive.
pub proof fn law_plugin_follows_its_loads(load_succeeded: bool)
    ensures
        next_lifecycle(PluginFiberLifecycle::Inactive, true) is Active,
        next_lifecycle(PluginFiberLifecycle::Inactive, false) is Inactive,
        next_lifecycle(PluginFiberLifecycle::Active, true) is Active,
        next_lifecycle(PluginFiberLifecycle::Active, false) is Unloading,
        next_lifecycle(PluginFiberLifecycle::Unloading, load_succeeded) is Inactive,
        stored_lifecycle(None) is Inactive,
{
}

/// The pool of a plugin is that of the project, or else the shared one that the
/// project uses.
pub proof fn law_own_pools_go_first(p: ProjectView, s: SharedView, name: Seq<char>)
    ensures
        p.own.dom().contains(name) ==> pool_of(p, s, name) == Some(p.own[name]),
        !p.own.dom().contains(name) && p.shared.contains(name) && s.pools.dom().contains(name) ==> pool_of(
            p,
            s,
            name,
        ) == Some(s.pools[name]),
        !p.own.dom().contains(name) && !p.shared.contains(name) ==> pool_of(p, s, name) is None,
        !p.own.dom().contains(name) && !s.pools.dom().contains(name) ==> pool_of(p, s, name) is None,
{
}

/// A plugin is looked for three times, a fifth of a second apart; one that is
/// found gives a slot, and one that is not is loaded where a handle asks.
pub proof fn law_plugin_is_looked_for_thrice(by: DispatchBy, a: int, error: Option<Seq<char>>)
    ensures
        dispatch_next(DispatchPhase::LookingUp(0), DispatchFact::LookedUp(false), by) == (
            DispatchPhase::LookingUp(1),
            DispatchMove::LookUp(200),
        ),
        dispatch_next(DispatchPhase::LookingUp(1), DispatchFact::LookedUp(false), by) == (
            DispatchPhase::LookingUp(2),
            DispatchMove::LookUp(200),
        ),
        dispatch_next(DispatchPhase::LookingUp(a), DispatchFact::LookedUp(true), by) == (
                DispatchPhase::TakingSlot,
                DispatchMove::TakeSlot,
            ),
        by == DispatchBy::Handle ==> dispatch_next(
            DispatchPhase::LookingUp(2),
            DispatchFact::LookedUp(false),
            by,
        ) == (DispatchPhase::LoadingMissing, DispatchMove::Load(0)),
        by != DispatchBy::Handle ==> dispatch_next(
            DispatchPhase::LookingUp(2),
            DispatchFact::LookedUp(false),
            by,
        ) == (DispatchPhase::Over, DispatchMove::FailNotRegistered),
        dispatch_next(DispatchPhase::LoadingMissing, DispatchFact::Loaded(error), by) == (
                DispatchPhase::LookingUpLoaded,
                DispatchMove::LookUp(0),
            ),
        dispatch_next(DispatchPhase::LookingUpLoaded, DispatchFact::LookedUp(true), by) == (
            DispatchPhase::TakingSlot,
            DispatchMove::TakeSlot,
        ),
        dispatch_next(DispatchPhase::LookingUpLoaded, DispatchFact::LookedUp(false), by) == (
            DispatchPhase::Over,
            DispatchMove::FailNotRegistered,
        ),
{
}

/// A filled slot runs; an empty one is loaded anew up to three times, a quarter
/// of a second apart, where a handle asks, and fails with the last error.
pub proof fn law_empty_slot_is_filled_again(
    by: DispatchBy,
    a: int,
    last: Option<Seq<char>>,
    error: Seq<char>,
)
    ensures
        dispatch_next(DispatchPhase::TakingSlot, DispatchFact::Slot(true), by) == (
            DispatchPhase::Over,
            DispatchMove::Run,
        ),
        by == DispatchBy::Handle ==> dispatch_next(
            DispatchPhase::TakingSlot,
            DispatchFact::Slot(false),
            by,
        ) == (DispatchPhase::Reloading(0, None), DispatchMove::Load(0)),
        by != DispatchBy::Handle ==> dispatch_next(
            DispatchPhase::TakingSlot,
            DispatchFact::Slot(false),
            by,
        ) == (
            DispatchPhase::Over,
            DispatchMove::FailEvicted(
                "slot already empty from a prior eviction, reload did not repopulate it"@,
            ),
        ),
        dispatch_next(DispatchPhase::Reloading(a, last), DispatchFact::Loaded(Some(error)), by) == (
                DispatchPhase::LookingUpReloaded(a, Some(error)),
                DispatchMove::LookUp(0),
            ) && dispatch_next(DispatchPhase::Reloading(a, last), DispatchFact::Loaded(None), by) == (
                DispatchPhase::LookingUpReloaded(a, last),
                DispatchMove::LookUp(0),
            ),
        dispatch_next(DispatchPhase::LookingUpReloaded(a, last), DispatchFact::LookedUp(true), by) == (
                DispatchPhase::CheckingSlot(a, last),
                DispatchMove::CheckSlot,
            ) && dispatch_next(
                DispatchPhase::LookingUpReloaded(a, last),
                DispatchFact::LookedUp(false),
                by,
            ) == (DispatchPhase::Over, DispatchMove::FailNotRegistered),
        dispatch_next(DispatchPhase::CheckingSlot(a, last), DispatchFact::Slot(true), by) == (
                DispatchPhase::TakingSlotAgain,
                DispatchMove::TakeSlot,
            ),
        dispatch_next(DispatchPhase::CheckingSlot(0, last), DispatchFact::Slot(false), by) == (
            DispatchPhase::Reloading(1, last),
            DispatchMove::Load(250),
        ),
        dispatch_next(DispatchPhase::CheckingSlot(1, last), DispatchFact::Slot(false), by) == (
            DispatchPhase::Reloading(2, last),
            DispatchMove::Load(250),
        ),
        dispatch_next(DispatchPhase::CheckingSlot(2, Some(error)), DispatchFact::Slot(false), by) == (
            DispatchPhase::Over,
            DispatchMove::FailEvicted(
                "reinstantiation failed after "@ + text::decimal(3) + " attempts: "@ + error,
            ),
        ),
        dispatch_next(DispatchPhase::TakingSlotAgain, DispatchFact::Slot(true), by) == (
            DispatchPhase::Over,
            DispatchMove::Run,
        ),
        dispatch_next(DispatchPhase::TakingSlotAgain, DispatchFact::Slot(false), by) == (
            DispatchPhase::Over,
            DispatchMove::FailEvicted(
                "slot already empty from a prior eviction, reload did not repopulate it"@,
            ),
        ),
{
}

/// A failed dispatch names its plugin and what became of it.
pub proof fn law_failed_dispatch_names_its_plugin(
    plugin_name: String,
    plugin: Seq<char>,
    verb: Seq<char>,
    reason: Seq<char>,
)
    ensures
        ("plugin "@ + plugin_name@ + " is not registered for this project"@).is_prefix_of(
            error_text(PluginDispatchError::NotRegistered { plugin_name }),
        ),
        ("plugin "@ + plugin_name@ + " slot was evicted after a prior dispatch error"@).is_prefix_of(
            error_text(PluginDispatchError::EvictedOrPoisoned { plugin_name }),
        ),
        lost_error(plugin, verb, reason) == "plugin_response_lost: "@ + plugin + " verb "@ + verb
            + " produced a response that never reached the guest -- "@ + reason,
{
    reveal_strlit(" is not registered for this project");
    reveal_strlit(
        " is not registered for this project (no plugin pool exists -- check .agentplug/plugins.txt and daemon startup logs for a compile/install failure)",
    );
    reveal_strlit(" slot was evicted after a prior dispatch error");
    reveal_strlit(
        " slot was evicted after a prior dispatch error (poisoned Store) and could not be reinstantiated -- retry will attempt to reload it",
    );
    let a = "plugin "@ + plugin_name@ + " is not registered for this project"@;
    let b = error_text(PluginDispatchError::NotRegistered { plugin_name });
    assert(b.subrange(0, a.len() as int) =~= a);
    let c = "plugin "@ + plugin_name@ + " slot was evicted after a prior dispatch error"@;
    let d = error_text(PluginDispatchError::EvictedOrPoisoned { plugin_name });
    assert(d.subrange(0, c.len() as int) =~= c);
}

/// The plugins that a list names are its lines, without the space around them
/// and without the blank ones.
pub proof fn law_listed_plugins_are_the_lines(lines: Seq<Seq<char>>, n: int, i: int)
    requires
        0 <= i < n <= lines.len(),
    ensures
        text::trimmed(lines[i]).len() > 0 ==> listed_names(lines, n).contains(text::trimmed(lines[i])),
        forall|k: int|
            0 <= k < listed_names(lines, n).len() ==> (#[trigger] listed_names(lines, n)[k]).len() > 0,
    decreases n,
{
    let all = listed_names(lines, n);
    let rest = listed_names(lines, n - 1);
    let t = text::trimmed(lines[i]);
    if n > 1 {
        law_listed_plugins_are_the_lines(lines, n - 1, if i < n - 1 {
            i
        } else {
            0
        });
    }
    assert forall|k: int| 0 <= k < all.len() implies (#[trigger] all[k]).len() > 0 by {
        if k < rest.len() {
            assert(all[k] == rest[k]);
        }
    }
    if t.len() > 0 {
        if i < n - 1 {
            let k = choose|k: int| 0 <= k < rest.len() && rest[k] == t;
            assert(all[k] == t);
        } else {
            assert(all[rest.len() as int] == t);
        }
    }
}

/// What a pool holds: every slot is held or filled, and a content is that of
/// some slot.
pub proof fn law_slots_tell_what_a_pool_holds(p: PoolView, hash: Seq<char>, i: int)
    requires
        0 <= i < p.slots.len(),
    ensures
        p.slots[i].content == Some(hash) ==> holds_content(p, hash),
        p.slots[i].holder is None && p.slots[i].content is None ==> !all_filled(p),
        (forall|k: int| 0 <= k < p.slots.len() ==> (#[trigger] p.slots[k]).content != Some(hash))
            ==> !holds_content(p, hash),
        (forall|k: int| 0 <= k < p.slots.len() ==> (#[trigger] p.slots[k]).content is Some) ==> all_filled(
            p,
        ),
{
}

/// A plugin is shared out where two or more provide it.
pub proof fn law_plugins_of_several_are_shared_out(m: Map<Seq<char>, BrokerView>, plugin: Seq<char>)
    ensures
        shared_out(m, plugin) ==> m.dom().contains(plugin) && m[plugin].providers.len() >= 2,
        m.dom().contains(plugin) && m[plugin].providers.len() >= 2 && m[plugin].policy
            == LoadBalancePolicy::LeastLoaded && (exists|i: int|
            0 <= i < m[plugin].providers.len() && !(#[trigger] m[plugin].providers[i]).draining
                && m[plugin].providers[i].weight > 0) ==> shared_out(m, plugin),
{
    if m.dom().contains(plugin) && exists|i: int|
        0 <= i < m[plugin].providers.len() && !(#[trigger] m[plugin].providers[i]).draining
            && m[plugin].providers[i].weight > 0 {
        let i = choose|i: int|
            0 <= i < m[plugin].providers.len() && !(#[trigger] m[plugin].providers[i]).draining
                && m[plugin].providers[i].weight > 0;
        assert(broker::routable(m[plugin].providers[i]));
    }
}

/// Idle plugins are unloaded after half an hour, and calls are timed by the
/// second.
pub proof fn law_times_of_plugins()
    ensures
        PLUGIN_IDLE_EVICT_MS == 30 * 60 * 1000,
        EPOCH_TICK_INTERVAL_MS == 1000,
{
}

} // verus!

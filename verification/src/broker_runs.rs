//! What holds of the brokers over any sequence of calls.
use crate::broker;
use crate::broker::{BrokerView, LoadBalancePolicy, ProviderView};
use vstd::prelude::*;

verus! {

// ---------------------------------------------------------------------------
// Sequences of calls
// ---------------------------------------------------------------------------
/// A call that changes the brokers. A routed request names the position of the
/// provider that was picked, if one was; a release, the lease that ends.
pub enum BrokerCall {
    Register { key: Seq<char>, id: Seq<char>, policy: LoadBalancePolicy, weight: u32 },
    Unregister { key: Seq<char>, id: Seq<char> },
    SetPolicy { key: Seq<char>, policy: LoadBalancePolicy },
    Route { key: Seq<char>, picked: Option<int> },
    Release { key: Seq<char>, id: Seq<char> },
    Shift { key: Seq<char>, id: Seq<char>, step: nat },
    Reap { key: Seq<char> },
}

/// The brokers after a call, as the functions that make it say.
pub open spec fn after_call(m: Map<Seq<char>, BrokerView>, c: BrokerCall) -> Map<
    Seq<char>,
    BrokerView,
> {
    match c {
        BrokerCall::Register { key, id, policy, weight } => m.insert(
            key,
            broker::with_provider(broker::broker_or_new(m, key, policy), id, weight),
        ),
        BrokerCall::Unregister { key, id } => if broker::busy_provider(m, key, id) {
            m
        } else {
            broker::without_provider(m, key, id)
        },
        BrokerCall::SetPolicy { key, policy } => if m.dom().contains(key) {
            m.insert(key, BrokerView { policy, ..m[key] })
        } else {
            m
        },
        BrokerCall::Route { key, picked } => match picked {
            Some(i) => m.insert(key, broker::routed(m[key], i)),
            None => m,
        },
        BrokerCall::Release { key, id } => broker::released(m, key, id),
        BrokerCall::Shift { key, id, step } => broker::traffic_shifted(m, key, id, step as int),
        BrokerCall::Reap { key } => if m.dom().contains(key) {
            m.insert(
                key,
                BrokerView { providers: broker::undrained(m[key].providers), ..m[key] },
            )
        } else {
            m
        },
    }
}

/// The brokers after a sequence of calls, from a table without brokers on.
pub open spec fn after_calls(calls: Seq<BrokerCall>) -> Map<Seq<char>, BrokerView>
    decreases calls.len(),
{
    if calls.len() == 0 {
        Map::empty()
    } else {
        after_call(after_calls(calls.drop_last()), calls.last())
    }
}

/// Whether a routed request gets a provider of the service: the one that was
/// picked is what the broker picks, and none is picked only where there is none.
pub open spec fn routes(m: Map<Seq<char>, BrokerView>, key: Seq<char>, picked: Option<int>) -> bool {
    let can = m.dom().contains(key) && broker::can_select(m[key]);
    match picked {
        Some(i) => can && broker::selects(m[key], i),
        None => !can,
    }
}

/// How a call changes the number of leases on the provider `id` of a service.
pub open spec fn lease_change(
    m: Map<Seq<char>, BrokerView>,
    c: BrokerCall,
    service: Seq<char>,
    id: Seq<char>,
) -> int {
    match c {
        BrokerCall::Route { key, picked: Some(i) } => if key == service && m[key].providers[i].id
            == id {
            1
        } else {
            0
        },
        BrokerCall::Release { key, id: ended } => if key == service && ended == id {
            -1
        } else {
            0
        },
        _ => 0,
    }
}

/// How many leases on the provider `id` of a service were given and have not
/// ended.
pub open spec fn live_leases(calls: Seq<BrokerCall>, service: Seq<char>, id: Seq<char>) -> int
    decreases calls.len(),
{
    if calls.len() == 0 {
        0
    } else {
        live_leases(calls.drop_last(), service, id) + lease_change(
            after_calls(calls.drop_last()),
            calls.last(),
            service,
            id,
        )
    }
}

/// Whether calls can come like this: requests are routed as the brokers pick,
/// and only a lease that was given ends, once.
pub open spec fn can_come(calls: Seq<BrokerCall>) -> bool
    decreases calls.len(),
{
    calls.len() > 0 ==> {
        let before = calls.drop_last();
        &&& can_come(before)
        &&& match calls.last() {
            BrokerCall::Route { key, picked } => routes(after_calls(before), key, picked),
            BrokerCall::Release { key, id } => live_leases(before, key, id) > 0,
            _ => true,
        }
    }
}

/// Whether no provider ever has more leases at a time than its counter holds.
pub open spec fn leases_fit(calls: Seq<BrokerCall>) -> bool {
    forall|n: int, service: Seq<char>, id: Seq<char>|
        0 <= n <= calls.len() ==> #[trigger] live_leases(calls.take(n), service, id) <= u64::MAX
}

/// How many requests run on the provider `id` of a broker; none where it has no
/// such provider.
pub open spec fn load_of(b: BrokerView, id: Seq<char>) -> int {
    if broker::has_provider(b.providers, id) {
        b.providers[broker::provider_index(b.providers, id)].in_flight as int
    } else {
        0
    }
}

/// How many requests run on the provider `id` of a service.
pub open spec fn load_in(m: Map<Seq<char>, BrokerView>, service: Seq<char>, id: Seq<char>) -> int {
    if m.dom().contains(service) {
        load_of(m[service], id)
    } else {
        0
    }
}

// ---------------------------------------------------------------------------
// One broker
// ---------------------------------------------------------------------------
/// The load of a provider, wherever it stands.
proof fn lemma_load(b: BrokerView, i: int)
    requires
        broker::valid_broker(b),
        0 <= i < b.providers.len(),
    ensures
        load_of(b, b.providers[i].id) == b.providers[i].in_flight,
{
    broker::lemma_provider_index(b, i);
}

/// Where the providers keep their places, ids and loads, the loads are the same.
proof fn lemma_same_loads(b: BrokerView, c: BrokerView, id: Seq<char>)
    requires
        broker::valid_broker(b),
        broker::valid_broker(c),
        b.providers.len() == c.providers.len(),
        forall|i: int|
            0 <= i < b.providers.len() ==> (#[trigger] b.providers[i]).id == c.providers[i].id
                && b.providers[i].in_flight == c.providers[i].in_flight,
    ensures
        load_of(b, id) == load_of(c, id),
{
    if broker::has_provider(b.providers, id) {
        let i = broker::provider_index(b.providers, id);
        assert(b.providers[i].id == c.providers[i].id);
        lemma_load(c, i);
    } else if broker::has_provider(c.providers, id) {
        let i = broker::provider_index(c.providers, id);
        assert(b.providers[i].id == c.providers[i].id);
    }
}

proof fn lemma_registered(b: BrokerView, id: Seq<char>, weight: u32, other: Seq<char>)
    requires
        broker::valid_broker(b),
    ensures
        broker::valid_broker(broker::with_provider(b, id, weight)),
        load_of(broker::with_provider(b, id, weight), other) == load_of(b, other),
{
    let c = broker::with_provider(b, id, weight);
    if !broker::has_provider(b.providers, id) {
        assert forall|i: int, j: int| 0 <= i < j < c.providers.len() implies (
        #[trigger] c.providers[i]).id != (#[trigger] c.providers[j]).id by {
            assert(b.providers[i].id != id);
        }
        if broker::has_provider(b.providers, other) {
            let i = broker::provider_index(b.providers, other);
            assert(c.providers[i] == b.providers[i]);
            lemma_load(c, i);
        } else if broker::has_provider(c.providers, other) {
            let i = broker::provider_index(c.providers, other);
            assert(i < b.providers.len() ==> c.providers[i] == b.providers[i]);
        }
    }
}

proof fn lemma_routed(b: BrokerView, i: int, id: Seq<char>)
    requires
        broker::valid_broker(b),
        0 <= i < b.providers.len(),
        b.providers[i].in_flight < u64::MAX,
    ensures
        broker::valid_broker(broker::routed(b, i)),
        load_of(broker::routed(b, i), id) == load_of(b, id) + (if b.providers[i].id == id {
            1int
        } else {
            0
        }),
{
    let c = broker::routed(b, i);
    broker::lemma_routed_valid(b, i);
    assert(c.providers[i].id == b.providers[i].id);
    if b.providers[i].id == id {
        lemma_load(b, i);
        lemma_load(c, i);
    } else if broker::has_provider(b.providers, id) {
        let j = broker::provider_index(b.providers, id);
        assert(c.providers[j] == b.providers[j]);
        lemma_load(c, j);
    } else if broker::has_provider(c.providers, id) {
        let j = broker::provider_index(c.providers, id);
        assert(c.providers[j].id == b.providers[j].id);
    }
}

/// A broker after the request on the provider at `i` ended.
spec fn one_ended(b: BrokerView, i: int) -> BrokerView {
    BrokerView { providers: b.providers.update(i, broker::one_less(b.providers[i])), ..b }
}

proof fn lemma_ended(b: BrokerView, i: int, id: Seq<char>)
    requires
        broker::valid_broker(b),
        0 <= i < b.providers.len(),
        b.providers[i].in_flight > 0,
    ensures
        broker::valid_broker(one_ended(b, i)),
        load_of(one_ended(b, i), id) == load_of(b, id) - (if b.providers[i].id == id {
            1int
        } else {
            0
        }),
{
    let c = one_ended(b, i);
    assert forall|x: int, y: int| 0 <= x < y < c.providers.len() implies (
    #[trigger] c.providers[x]).id != (#[trigger] c.providers[y]).id by {
        assert(c.providers[x].id == b.providers[x].id);
        assert(c.providers[y].id == b.providers[y].id);
    }
    assert(c.providers[i].id == b.providers[i].id);
    if b.providers[i].id == id {
        lemma_load(b, i);
        lemma_load(c, i);
    } else if broker::has_provider(b.providers, id) {
        let j = broker::provider_index(b.providers, id);
        assert(c.providers[j] == b.providers[j]);
        lemma_load(c, j);
    } else if broker::has_provider(c.providers, id) {
        let j = broker::provider_index(c.providers, id);
        assert(c.providers[j].id == b.providers[j].id);
    }
}

/// A broker without the provider at `i`.
spec fn one_gone(b: BrokerView, i: int) -> BrokerView {
    BrokerView { providers: b.providers.remove(i), ..b }
}

proof fn lemma_gone(b: BrokerView, i: int, id: Seq<char>)
    requires
        broker::valid_broker(b),
        0 <= i < b.providers.len(),
        b.providers[i].in_flight == 0,
    ensures
        broker::valid_broker(one_gone(b, i)),
        load_of(one_gone(b, i), id) == load_of(b, id),
{
    let c = one_gone(b, i);
    assert forall|x: int| 0 <= x < c.providers.len() implies (#[trigger] c.providers[x])
        == b.providers[if x < i {
        x
    } else {
        x + 1
    }] by {}
    assert forall|x: int, y: int| 0 <= x < y < c.providers.len() implies (
    #[trigger] c.providers[x]).id != (#[trigger] c.providers[y]).id by {
        let u = if x < i {
            x
        } else {
            x + 1
        };
        let v = if y < i {
            y
        } else {
            y + 1
        };
        assert(b.providers[u].id != b.providers[v].id);
    }
    if b.providers[i].id == id {
        lemma_load(b, i);
        if broker::has_provider(c.providers, id) {
            let j = broker::provider_index(c.providers, id);
            let u = if j < i {
                j
            } else {
                j + 1
            };
            assert(b.providers[u].id == b.providers[i].id);
        }
    } else if broker::has_provider(b.providers, id) {
        let j = broker::provider_index(b.providers, id);
        let u = if j < i {
            j
        } else {
            j - 1
        };
        assert(c.providers[u] == b.providers[j]);
        lemma_load(c, u);
    } else if broker::has_provider(c.providers, id) {
        let j = broker::provider_index(c.providers, id);
        let u = if j < i {
            j
        } else {
            j + 1
        };
        assert(b.providers[u].id == id);
    }
}

/// A broker without its drained providers.
spec fn all_reaped(b: BrokerView) -> BrokerView {
    BrokerView { providers: broker::undrained(b.providers), ..b }
}

/// What stays was there before.
proof fn lemma_stayed(ps: Seq<ProviderView>, k: int)
    requires
        0 <= k < broker::undrained(ps).len(),
    ensures
        ps.contains(broker::undrained(ps)[k]),
    decreases ps.len(),
{
    let t = ps.drop_last();
    if k < broker::undrained(t).len() {
        lemma_stayed(t, k);
        let i = choose|i: int| 0 <= i < t.len() && t[i] == broker::undrained(t)[k];
        assert(ps[i] == broker::undrained(ps)[k]);
    } else {
        assert(ps[ps.len() - 1] == broker::undrained(ps)[k]);
    }
}

proof fn lemma_reaped(b: BrokerView, id: Seq<char>)
    requires
        broker::valid_broker(b),
    ensures
        broker::valid_broker(all_reaped(b)),
        load_of(all_reaped(b), id) == load_of(b, id),
{
    let c = all_reaped(b);
    broker::lemma_undrained(b, b.providers.len() as int);
    assert(b.providers.take(b.providers.len() as int) =~= b.providers);
    if broker::has_provider(c.providers, id) {
        let k = broker::provider_index(c.providers, id);
        lemma_stayed(b.providers, k);
        let i = choose|i: int| 0 <= i < b.providers.len() && b.providers[i] == c.providers[k];
        lemma_load(b, i);
    } else if broker::has_provider(b.providers, id) {
        let i = broker::provider_index(b.providers, id);
        if b.providers[i].in_flight > 0 {
            broker::law_reaping_keeps_busy_providers(b.providers, i);
            let k = choose|k: int|
                0 <= k < c.providers.len() && c.providers[k] == b.providers[i];
            assert(c.providers[k].id == id);
        }
    }
}

/// A broker after a step of traffic went to the provider at `i`.
spec fn one_shift(b: BrokerView, i: int, step: nat) -> BrokerView {
    BrokerView { providers: broker::shifted(b.providers, i, step as int), ..b }
}

proof fn lemma_shifted(b: BrokerView, i: int, step: nat, id: Seq<char>)
    requires
        broker::valid_broker(b),
        0 <= i < b.providers.len(),
    ensures
        broker::valid_broker(one_shift(b, i, step)),
        load_of(one_shift(b, i, step), id) == load_of(b, id),
{
    broker::lemma_shifted_valid(b, i, step as int);
    let c = one_shift(b, i, step);
    assert forall|k: int| 0 <= k < b.providers.len() implies (#[trigger] b.providers[k]).id
        == c.providers[k].id && b.providers[k].in_flight == c.providers[k].in_flight by {
        broker::law_shift_moves_weight_to_target(b, i, step as int, k);
    }
    lemma_same_loads(b, c, id);
}

// ---------------------------------------------------------------------------
// Leases
// ---------------------------------------------------------------------------
/// What one call does to the load of a provider.
proof fn lemma_call(m: Map<Seq<char>, BrokerView>, c: BrokerCall, service: Seq<char>, id: Seq<char>)
    requires
        broker::valid_brokers(m),
        c matches BrokerCall::Route { key, picked: Some(i) } ==> m.dom().contains(key)
            && broker::selects(m[key], i) && m[key].providers[i].in_flight < u64::MAX,
        c matches BrokerCall::Release { key, id: ended } ==> load_in(m, key, ended) > 0,
    ensures
        broker::valid_brokers(after_call(m, c)),
        load_in(after_call(m, c), service, id) == load_in(m, service, id) + lease_change(
            m,
            c,
            service,
            id,
        ),
{
    match c {
        BrokerCall::Register { key, id: named, policy, weight } => {
            let b = broker::broker_or_new(m, key, policy);
            lemma_registered(b, named, weight, id);
        },
        BrokerCall::Unregister { key, id: named } => {
            if m.dom().contains(key) && broker::has_provider(m[key].providers, named)
                && !broker::busy_provider(m, key, named) {
                let i = broker::provider_index(m[key].providers, named);
                lemma_gone(m[key], i, id);
            }
        },
        BrokerCall::SetPolicy { key, policy } => {
            if m.dom().contains(key) {
                let after = BrokerView { policy, ..m[key] };
                assert(broker::valid_broker(after));
                lemma_same_loads(m[key], after, id);
            }
        },
        BrokerCall::Route { key, picked } => {
            if picked is Some {
                lemma_routed(m[key], picked->0, id);
            }
        },
        BrokerCall::Release { key, id: ended } => {
            let i = broker::provider_index(m[key].providers, ended);
            lemma_ended(m[key], i, id);
        },
        BrokerCall::Shift { key, id: named, step } => {
            if m.dom().contains(key) && broker::has_provider(m[key].providers, named) {
                let i = broker::provider_index(m[key].providers, named);
                lemma_shifted(m[key], i, step, id);
            }
        },
        BrokerCall::Reap { key } => {
            if m.dom().contains(key) {
                lemma_reaped(m[key], id);
            }
        },
    }
}

/// After any sequence of calls in which no counter runs over, what a broker
/// counts in flight on a provider is the number of leases on it that were given
/// and have not ended. A provider that is gone has none.
pub proof fn law_load_is_the_number_of_leases(
    calls: Seq<BrokerCall>,
    service: Seq<char>,
    id: Seq<char>,
)
    requires
        can_come(calls),
        leases_fit(calls),
    ensures
        load_in(after_calls(calls), service, id) == live_leases(calls, service, id),
{
    lemma_leases(calls, service, id);
}

proof fn lemma_leases(calls: Seq<BrokerCall>, service: Seq<char>, id: Seq<char>)
    requires
        can_come(calls),
        leases_fit(calls),
    ensures
        broker::valid_brokers(after_calls(calls)),
        load_in(after_calls(calls), service, id) == live_leases(calls, service, id),
    decreases calls.len(),
{
    if calls.len() > 0 {
        let before = calls.drop_last();
        let m = after_calls(before);
        assert(calls.take(calls.len() as int) =~= calls);
        assert(before.take(before.len() as int) =~= before);
        assert forall|n: int, s: Seq<char>, i: Seq<char>|
            0 <= n <= before.len() implies #[trigger] live_leases(before.take(n), s, i)
            <= u64::MAX by {
            assert(calls.take(n) =~= before.take(n));
            assert(live_leases(calls.take(n), s, i) <= u64::MAX);
        }
        lemma_leases(before, service, id);
        match calls.last() {
            BrokerCall::Route { key, picked } => {
                if picked is Some {
                    let i = picked->0;
                    let on = m[key].providers[i].id;
                    lemma_leases(before, key, on);
                    lemma_load(m[key], i);
                    assert(live_leases(calls.take(calls.len() as int), key, on) <= u64::MAX);
                }
            },
            BrokerCall::Release { key, id: ended } => {
                lemma_leases(before, key, ended);
            },
            _ => {},
        }
        lemma_call(m, calls.last(), service, id);
    }
}

// ---------------------------------------------------------------------------
// Rolling updates
// ---------------------------------------------------------------------------
/// Whether a broker has the provider `id` at weight nothing, or not at all.
pub open spec fn is_waiting(b: BrokerView, id: Seq<char>) -> bool {
    forall|i: int|
        0 <= i < b.providers.len() && (#[trigger] b.providers[i]).id == id ==> b.providers[i].weight
            == 0
}

/// Whether a call gives weight to the provider `id` of a service: a shift
/// towards it, or its registration where it is not there any more.
pub open spec fn brings_in(
    m: Map<Seq<char>, BrokerView>,
    c: BrokerCall,
    service: Seq<char>,
    id: Seq<char>,
) -> bool {
    match c {
        BrokerCall::Shift { key, id: named, .. } => key == service && named == id,
        BrokerCall::Register { key, id: named, policy, weight } => key == service && named == id
            && weight > 0 && !broker::has_provider(
            broker::broker_or_new(m, key, policy).providers,
            id,
        ),
        _ => false,
    }
}

/// Whether the provider `id` of a service has no weight, or is not there.
pub open spec fn waits_in(m: Map<Seq<char>, BrokerView>, service: Seq<char>, id: Seq<char>) -> bool {
    m.dom().contains(service) ==> is_waiting(m[service], id)
}

/// What one call leaves without weight, unless it gives it some.
proof fn lemma_waits(m: Map<Seq<char>, BrokerView>, c: BrokerCall, service: Seq<char>, id: Seq<char>)
    requires
        broker::valid_brokers(m),
        waits_in(m, service, id),
        !brings_in(m, c, service, id),
        c matches BrokerCall::Route { key, picked: Some(i) } ==> m.dom().contains(key)
            && broker::selects(m[key], i),
    ensures
        waits_in(after_call(m, c), service, id),
{
    let after = after_call(m, c);
    if after.dom().contains(service) {
        let b = after[service];
        assert forall|i: int| 0 <= i < b.providers.len() && (#[trigger] b.providers[i]).id
            == id implies b.providers[i].weight == 0 by {
            match c {
                BrokerCall::Register { key, id: named, policy, weight } => {
                    let old_b = broker::broker_or_new(m, key, policy);
                    if key == service && i < old_b.providers.len() {
                        assert(old_b.providers[i] == b.providers[i]);
                    }
                },
                BrokerCall::Unregister { key, id: named } => {
                    if key == service && m.dom().contains(key) && broker::has_provider(
                        m[key].providers,
                        named,
                    ) && !broker::busy_provider(m, key, named) {
                        let gone = broker::provider_index(m[key].providers, named);
                        let u = if i < gone {
                            i
                        } else {
                            i + 1
                        };
                        assert(b.providers[i] == m[key].providers[u]);
                    }
                },
                BrokerCall::Shift { key, id: named, step } => {
                    if key == service && broker::has_provider(m[key].providers, named) {
                        let t = broker::provider_index(m[key].providers, named);
                        broker::law_shift_moves_weight_to_target(m[key], t, step as int, i);
                        assert(m[key].providers[i].id == id);
                        assert(i != t);
                    }
                },
                BrokerCall::Reap { key } => {
                    if key == service {
                        lemma_stayed(m[key].providers, i);
                        let k = choose|k: int|
                            0 <= k < m[key].providers.len() && m[key].providers[k]
                                == b.providers[i];
                        assert(m[key].providers[k].id == id);
                    }
                },
                _ => {
                    assert(m[service].providers[i].id == id);
                },
            }
        }
    }
}

/// The brokers after further calls.
pub open spec fn after_more(m: Map<Seq<char>, BrokerView>, calls: Seq<BrokerCall>) -> Map<
    Seq<char>,
    BrokerView,
>
    decreases calls.len(),
{
    if calls.len() == 0 {
        m
    } else {
        after_call(after_more(m, calls.drop_last()), calls.last())
    }
}

/// Whether further calls can come like this, and none of them gives weight to
/// the provider `id` of a service.
pub open spec fn leaves_out(
    m: Map<Seq<char>, BrokerView>,
    calls: Seq<BrokerCall>,
    service: Seq<char>,
    id: Seq<char>,
) -> bool
    decreases calls.len(),
{
    calls.len() > 0 ==> {
        let before = after_more(m, calls.drop_last());
        &&& leaves_out(m, calls.drop_last(), service, id)
        &&& !brings_in(before, calls.last(), service, id)
        &&& calls.last() matches BrokerCall::Route { key, picked } ==> routes(before, key, picked)
        &&& calls.last() matches BrokerCall::Release { key, id: ended } ==> load_in(
            before,
            key,
            ended,
        ) > 0
    }
}

/// A provider that comes in with a rolling update gets no request, whatever
/// calls follow, until a call gives it weight: a shift towards it, or its
/// registration once it has been taken out.
pub proof fn law_incoming_provider_waits_for_traffic(
    m: Map<Seq<char>, BrokerView>,
    service: Seq<char>,
    id: Seq<char>,
    calls: Seq<BrokerCall>,
    picked: int,
)
    requires
        broker::valid_brokers(m),
        !(m.dom().contains(service) && broker::has_provider(m[service].providers, id)),
        ({
            let begun = after_call(
                m,
                BrokerCall::Register {
                    key: service,
                    id,
                    policy: LoadBalancePolicy::RoundRobin,
                    weight: 0,
                },
            );
            &&& leaves_out(begun, calls, service, id)
            &&& routes(after_more(begun, calls), service, Some(picked))
        }),
    ensures
        ({
            let begun = after_call(
                m,
                BrokerCall::Register {
                    key: service,
                    id,
                    policy: LoadBalancePolicy::RoundRobin,
                    weight: 0,
                },
            );
            let old_b = broker::broker_or_new(m, service, LoadBalancePolicy::RoundRobin);
            &&& begun == m.insert(
                service,
                BrokerView {
                    providers: old_b.providers.push(broker::new_provider(id, 0)),
                    ..old_b
                },
            )
            &&& after_more(begun, calls)[service].providers[picked].id != id
        }),
{
    let c = BrokerCall::Register {
        key: service,
        id,
        policy: LoadBalancePolicy::RoundRobin,
        weight: 0,
    };
    let begun = after_call(m, c);
    let old_b = broker::broker_or_new(m, service, LoadBalancePolicy::RoundRobin);
    lemma_registered(old_b, id, 0, id);
    assert(waits_in(begun, service, id)) by {
        let b = begun[service];
        assert forall|i: int| 0 <= i < b.providers.len() && (#[trigger] b.providers[i]).id
            == id implies b.providers[i].weight == 0 by {
            if i < old_b.providers.len() {
                assert(old_b.providers[i] == b.providers[i]);
            }
        }
    }
    lemma_waits_on(begun, calls, service, id);
    let last = after_more(begun, calls)[service];
    assert(broker::routable(last.providers[picked]));
}

proof fn lemma_waits_on(
    m: Map<Seq<char>, BrokerView>,
    calls: Seq<BrokerCall>,
    service: Seq<char>,
    id: Seq<char>,
)
    requires
        broker::valid_brokers(m),
        waits_in(m, service, id),
        leaves_out(m, calls, service, id),
    ensures
        broker::valid_brokers(after_more(m, calls)),
        waits_in(after_more(m, calls), service, id),
    decreases calls.len(),
{
    if calls.len() > 0 {
        let before = after_more(m, calls.drop_last());
        lemma_waits_on(m, calls.drop_last(), service, id);
        lemma_waits(before, calls.last(), service, id);
        lemma_call_valid(before, calls.last());
    }
}

/// Every call leaves the brokers valid.
proof fn lemma_call_valid(m: Map<Seq<char>, BrokerView>, c: BrokerCall)
    requires
        broker::valid_brokers(m),
        c matches BrokerCall::Route { key, picked: Some(i) } ==> m.dom().contains(key)
            && broker::selects(m[key], i),
        c matches BrokerCall::Release { key, id: ended } ==> load_in(m, key, ended) > 0,
    ensures
        broker::valid_brokers(after_call(m, c)),
{
    match c {
        BrokerCall::Route { key, picked } => {
            if picked is Some {
                broker::lemma_routed_valid(m[key], picked->0);
            }
        },
        _ => {
            lemma_call(m, c, Seq::empty(), Seq::empty());
        },
    }
}

} // verus!

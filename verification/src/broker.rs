//! Routing of requests among the providers of a service: weighted round robin
//! or least loaded, with traffic shifted step by step from one provider to
//! another and drained providers taken out once nothing runs on them.
use crate::strmap::StrMap;
use crate::text;
use vstd::prelude::*;
use vstd::string::*;

verus! {

/// How a broker picks among its providers.
#[derive(Debug, Clone, Copy, PartialEq, Eq, Structural)]
pub enum LoadBalancePolicy {
    RoundRobin,
    LeastLoaded,
}

impl Default for LoadBalancePolicy {
    fn default() -> (r: Self)
        ensures
            r == LoadBalancePolicy::RoundRobin,
    {
        LoadBalancePolicy::RoundRobin
    }
}

struct BrokerProvider {
    provider_id: String,
    weight: u32,
    draining: bool,
    in_flight: u64,
    total_dispatched: u64,
}

struct ServiceBroker {
    policy: LoadBalancePolicy,
    providers: Vec<BrokerProvider>,
    round_robin_current: StrMap<i64>,
}

/// The brokers of all services, by service.
pub struct Brokers {
    table: StrMap<ServiceBroker>,
}

// ---------------------------------------------------------------------------
// Meaning
// ---------------------------------------------------------------------------
/// A provider as its broker knows it.
#[verifier::ext_equal]
pub struct ProviderView {
    pub id: Seq<char>,
    pub weight: u32,
    pub draining: bool,
    pub in_flight: u64,
    pub total_dispatched: u64,
}

/// A broker: its policy, its providers in order of registration, and the
/// round-robin credit of each provider that was ever credited.
#[verifier::ext_equal]
pub struct BrokerView {
    pub policy: LoadBalancePolicy,
    pub providers: Seq<ProviderView>,
    pub credits: Map<Seq<char>, i64>,
}

impl View for BrokerProvider {
    type V = ProviderView;

    closed spec fn view(&self) -> ProviderView {
        ProviderView {
            id: self.provider_id@,
            weight: self.weight,
            draining: self.draining,
            in_flight: self.in_flight,
            total_dispatched: self.total_dispatched,
        }
    }
}

spec fn provider_views(s: Seq<BrokerProvider>) -> Seq<ProviderView> {
    Seq::new(s.len(), |i: int| s[i]@)
}

impl View for ServiceBroker {
    type V = BrokerView;

    closed spec fn view(&self) -> BrokerView {
        BrokerView {
            policy: self.policy,
            providers: provider_views(self.providers@),
            credits: self.round_robin_current@,
        }
    }
}

impl View for Brokers {
    type V = Map<Seq<char>, BrokerView>;

    closed spec fn view(&self) -> Map<Seq<char>, BrokerView> {
        self.table@.map_values(|b: ServiceBroker| b@)
    }
}

/// A new provider, on which nothing ran yet.
pub open spec fn new_provider(id: Seq<char>, weight: u32) -> ProviderView {
    ProviderView { id, weight, draining: false, in_flight: 0, total_dispatched: 0 }
}

/// A broker without providers.
pub open spec fn new_broker(policy: LoadBalancePolicy) -> BrokerView {
    BrokerView { policy, providers: Seq::empty(), credits: Map::empty() }
}

/// What every broker keeps: no two providers share an id, and no weight
/// exceeds one hundred.
pub open spec fn valid_broker(b: BrokerView) -> bool {
    &&& forall|i: int, j: int|
        0 <= i < j < b.providers.len() ==> (#[trigger] b.providers[i]).id != (
        #[trigger] b.providers[j]).id
    &&& forall|i: int|
        0 <= i < b.providers.len() ==> (#[trigger] b.providers[i]).weight <= 100
}

/// Whether every broker of a table is valid.
pub open spec fn valid_brokers(m: Map<Seq<char>, BrokerView>) -> bool {
    forall|k: Seq<char>| #[trigger] m.dom().contains(k) ==> valid_broker(m[k])
}

/// Whether `id` is among the providers.
pub open spec fn has_provider(ps: Seq<ProviderView>, id: Seq<char>) -> bool {
    exists|i: int| 0 <= i < ps.len() && (#[trigger] ps[i]).id == id
}

/// Whether requests may be routed to `p`.
pub open spec fn routable(p: ProviderView) -> bool {
    !p.draining && p.weight > 0
}

/// Whether some provider takes requests.
pub open spec fn any_routable(ps: Seq<ProviderView>) -> bool {
    exists|i: int| 0 <= i < ps.len() && routable(#[trigger] ps[i])
}

/// The weights of the routable providers, summed in 64 bits.
pub open spec fn routable_weight(ps: Seq<ProviderView>) -> i64
    decreases ps.len(),
{
    if ps.len() == 0 {
        0
    } else if routable(ps.last()) {
        routable_weight(ps.drop_last()).wrapping_add(ps.last().weight as i64)
    } else {
        routable_weight(ps.drop_last())
    }
}

/// The credit of `id`; nothing before it was ever credited.
pub open spec fn credit(credits: Map<Seq<char>, i64>, id: Seq<char>) -> i64 {
    if credits.dom().contains(id) {
        credits[id]
    } else {
        0
    }
}

/// The credits once each routable provider has been given its weight.
pub open spec fn bumped(ps: Seq<ProviderView>, credits: Map<Seq<char>, i64>) -> Map<Seq<char>, i64>
    decreases ps.len(),
{
    if ps.len() == 0 {
        credits
    } else {
        let c = bumped(ps.drop_last(), credits);
        let p = ps.last();
        if routable(p) {
            c.insert(p.id, credit(c, p.id).wrapping_add(p.weight as i64))
        } else {
            c
        }
    }
}

/// The credit of provider `i` once it has been given its weight.
pub open spec fn bump(b: BrokerView, i: int) -> i64 {
    credit(b.credits, b.providers[i].id).wrapping_add(b.providers[i].weight as i64)
}

/// Whether `b` can pick a provider at all.
pub open spec fn can_select(b: BrokerView) -> bool {
    any_routable(b.providers) && (b.policy == LoadBalancePolicy::RoundRobin ==> routable_weight(
        b.providers,
    ) != 0)
}

/// Whether `b` picks provider `i`. Round robin picks the first of those with
/// the highest credit, least loaded the first of those with the least in
/// flight; only routable providers are picked.
pub open spec fn selects(b: BrokerView, i: int) -> bool {
    &&& 0 <= i < b.providers.len()
    &&& routable(b.providers[i])
    &&& match b.policy {
        LoadBalancePolicy::RoundRobin => forall|j: int|
            0 <= j < b.providers.len() && routable(#[trigger] b.providers[j]) ==> bump(b, j)
                <= bump(b, i) && (j < i ==> bump(b, j) < bump(b, i)),
        LoadBalancePolicy::LeastLoaded => forall|j: int|
            0 <= j < b.providers.len() && routable(#[trigger] b.providers[j])
                ==> b.providers[i].in_flight <= b.providers[j].in_flight && (j < i
                ==> b.providers[i].in_flight < b.providers[j].in_flight),
    }
}

/// The credits after `b` picked provider `i`.
pub open spec fn credits_after(b: BrokerView, i: int) -> Map<Seq<char>, i64> {
    match b.policy {
        LoadBalancePolicy::RoundRobin => {
            let c = bumped(b.providers, b.credits);
            c.insert(
                b.providers[i].id,
                credit(c, b.providers[i].id).wrapping_sub(routable_weight(b.providers)),
            )
        },
        LoadBalancePolicy::LeastLoaded => b.credits,
    }
}

/// Provider `p` with one more request on it.
pub open spec fn one_more(p: ProviderView) -> ProviderView {
    ProviderView {
        in_flight: p.in_flight.wrapping_add(1),
        total_dispatched: p.total_dispatched.wrapping_add(1),
        ..p
    }
}

/// Provider `p` with one request fewer on it.
pub open spec fn one_less(p: ProviderView) -> ProviderView {
    ProviderView { in_flight: p.in_flight.wrapping_sub(1), ..p }
}

/// `b` after a request was routed to provider `i`.
pub open spec fn routed(b: BrokerView, i: int) -> BrokerView {
    BrokerView {
        policy: b.policy,
        providers: b.providers.update(i, one_more(b.providers[i])),
        credits: credits_after(b, i),
    }
}

// ---------------------------------------------------------------------------
// Picking
// ---------------------------------------------------------------------------
/// Crediting leaves ids alone that are not among the providers.
proof fn lemma_bumped_other(ps: Seq<ProviderView>, credits: Map<Seq<char>, i64>, id: Seq<char>)
    requires
        !has_provider(ps, id),
    ensures
        credit(bumped(ps, credits), id) == credit(credits, id),
        bumped(ps, credits).dom().contains(id) == credits.dom().contains(id),
    decreases ps.len(),
{
    if ps.len() > 0 {
        let t = ps.drop_last();
        assert(ps[ps.len() - 1].id != id);
        assert(!has_provider(t, id)) by {
            if has_provider(t, id) {
                let i = choose|i: int| 0 <= i < t.len() && (#[trigger] t[i]).id == id;
                assert(ps[i].id == id);
            }
        }
        lemma_bumped_other(t, credits, id);
    }
}

/// A routable provider with an id of its own is credited its weight, once.
proof fn lemma_bumped_own(b: BrokerView, n: int, i: int)
    requires
        valid_broker(b),
        0 <= i < n <= b.providers.len(),
        routable(b.providers[i]),
    ensures
        credit(bumped(b.providers.take(n), b.credits), b.providers[i].id) == bump(b, i),
    decreases n,
{
    let ps = b.providers.take(n);
    let t = ps.drop_last();
    assert(t == b.providers.take(n - 1));
    if i == n - 1 {
        assert(!has_provider(t, b.providers[i].id)) by {
            if has_provider(t, b.providers[i].id) {
                let j = choose|j: int|
                    0 <= j < t.len() && (#[trigger] t[j]).id == b.providers[i].id;
                assert(b.providers[j].id == b.providers[i].id);
            }
        }
        lemma_bumped_other(t, b.credits, b.providers[i].id);
    } else {
        lemma_bumped_own(b, n - 1, i);
        assert(b.providers[i].id != b.providers[n - 1].id);
    }
}

impl BrokerProvider {
    fn new(provider_id: &str, weight: u32) -> (r: Self)
        ensures
            r@ == new_provider(provider_id@, weight),
    {
        BrokerProvider {
            provider_id: provider_id.to_owned(),
            weight,
            draining: false,
            in_flight: 0,
            total_dispatched: 0,
        }
    }

    fn is_routable(&self) -> (r: bool)
        ensures
            r == routable(self@),
    {
        !self.draining && self.weight > 0
    }
}

impl ServiceBroker {
    fn new(policy: LoadBalancePolicy) -> (r: Self)
        ensures
            r@ == new_broker(policy),
            valid_broker(r@),
    {
        let r = ServiceBroker { policy, providers: Vec::new(), round_robin_current: StrMap::new() };
        assert(r@ == new_broker(policy));
        r
    }

    /// The positions of the providers that take requests, in order.
    fn routable_indices(&self) -> (r: Vec<usize>)
        ensures
            r@.len() > 0 <==> any_routable(self@.providers),
            forall|k: int|
                0 <= k < r@.len() ==> (#[trigger] r@[k]) < self@.providers.len() && routable(
                    self@.providers[r@[k] as int],
                ),
            forall|k: int, l: int| 0 <= k < l < r@.len() ==> (#[trigger] r@[k]) < (#[trigger] r@[l]),
            forall|i: int|
                0 <= i < self@.providers.len() && routable(#[trigger] self@.providers[i])
                    ==> r@.contains(i as usize),
    {
        let mut out: Vec<usize> = Vec::new();
        for i in 0..self.providers.len()
            invariant
                self@.providers.len() == self.providers@.len(),
                forall|k: int|
                    0 <= k < out@.len() ==> (#[trigger] out@[k]) < i && routable(
                        self@.providers[out@[k] as int],
                    ),
                forall|k: int, l: int|
                    0 <= k < l < out@.len() ==> (#[trigger] out@[k]) < (#[trigger] out@[l]),
                forall|j: int|
                    0 <= j < i && routable(#[trigger] self@.providers[j]) ==> out@.contains(
                        j as usize,
                    ),
        {
            let ghost before = out@;
            assert(self@.providers[i as int] == self.providers@[i as int]@);
            if self.providers[i].is_routable() {
                out.push(i);
                assert(out@[before.len() as int] == i);
                assert forall|j: int|
                    0 <= j < i + 1 && routable(
                        #[trigger] self@.providers[j],
                    ) implies out@.contains(j as usize) by {
                    if j < i {
                        assert(before.contains(j as usize));
                        let k = choose|k: int| 0 <= k < before.len() && before[k] == j as usize;
                        assert(out@[k] == j as usize);
                    }
                }
            }
        }
        proof {
            if out@.len() > 0 {
                assert(routable(self@.providers[out@[0] as int]));
            }
        }
        out
    }

    /// The weights of the providers that take requests.
    fn total_weight(&self) -> (r: i64)
        ensures
            r == routable_weight(self@.providers),
    {
        let mut total: i64 = 0;
        for i in 0..self.providers.len()
            invariant
                self@.providers.len() == self.providers@.len(),
                total == routable_weight(self@.providers.take(i as int)),
        {
            let ghost t = self@.providers.take(i + 1);
            assert(t.drop_last() == self@.providers.take(i as int));
            assert(t.last() == self.providers@[i as int]@);
            if self.providers[i].is_routable() {
                total = total.wrapping_add(self.providers[i].weight as i64);
            }
        }
        assert(self@.providers.take(self@.providers.len() as int) == self@.providers);
        total
    }

    /// Picks a provider and charges its credit; `None` where there is none to
    /// pick.
    fn select(&mut self) -> (r: Option<usize>)
        requires
            valid_broker(old(self)@),
        ensures
            match r {
                Some(i) => can_select(old(self)@) && selects(old(self)@, i as int) && final(self)@
                    == (BrokerView { credits: credits_after(old(self)@, i as int), ..old(self)@ }),
                None => !can_select(old(self)@) && final(self)@ == old(self)@,
            },
    {
        let routable_at = self.routable_indices();
        if routable_at.len() == 0 {
            return None;
        }
        match self.policy {
            LoadBalancePolicy::RoundRobin => {
                let total: i64 = self.total_weight();
                if total == 0 {
                    return None;
                }
                Some(self.select_round_robin(total))
            },
            LoadBalancePolicy::LeastLoaded => Some(self.select_least_loaded(&routable_at)),
        }
    }

    fn select_least_loaded(&self, routable_at: &Vec<usize>) -> (r: usize)
        requires
            self@.policy == LoadBalancePolicy::LeastLoaded,
            routable_at@.len() > 0,
            forall|k: int|
                0 <= k < routable_at@.len() ==> (#[trigger] routable_at@[k]) < self@.providers.len()
                    && routable(self@.providers[routable_at@[k] as int]),
            forall|k: int, l: int|
                0 <= k < l < routable_at@.len() ==> (#[trigger] routable_at@[k]) < (
                #[trigger] routable_at@[l]),
            forall|i: int|
                0 <= i < self@.providers.len() && routable(#[trigger] self@.providers[i])
                    ==> routable_at@.contains(i as usize),
        ensures
            selects(self@, r as int),
    {
        let mut best: usize = 0;
        for k in 1..routable_at.len()
            invariant
                0 <= best < k <= routable_at@.len(),
                self@.providers.len() == self.providers@.len(),
                forall|l: int|
                    0 <= l < routable_at@.len() ==> (#[trigger] routable_at@[l])
                        < self@.providers.len(),
                forall|l: int|
                    0 <= l < k ==> self@.providers[routable_at@[best as int] as int].in_flight
                        <= self@.providers[(#[trigger] routable_at@[l]) as int].in_flight,
                forall|l: int|
                    0 <= l < best ==> self@.providers[routable_at@[best as int] as int].in_flight
                        < self@.providers[(#[trigger] routable_at@[l]) as int].in_flight,
        {
            let i: usize = routable_at[k];
            let b: usize = routable_at[best];
            assert(self@.providers[i as int] == self.providers@[i as int]@);
            assert(self@.providers[b as int] == self.providers@[b as int]@);
            if self.providers[i].in_flight < self.providers[b].in_flight {
                best = k;
            }
        }
        let r: usize = routable_at[best];
        let n: usize = self.providers.len();
        proof {
            assert(n == self@.providers.len());
            assert forall|j: int|
                0 <= j < self@.providers.len() && routable(
                    #[trigger] self@.providers[j],
                ) implies self@.providers[r as int].in_flight <= self@.providers[j].in_flight && (j
                < r ==> self@.providers[r as int].in_flight < self@.providers[j].in_flight) by {
                assert(routable_at@.contains(j as usize));
                let l = choose|l: int|
                    0 <= l < routable_at@.len() && routable_at@[l] == j as usize;
                assert(routable_at@[l] == j);
                if j < r {
                    if l >= best {
                        assert(l == best || routable_at@[best as int] < routable_at@[l]);
                    }
                }
            }
        }
        r
    }

    fn select_round_robin(&mut self, total: i64) -> (r: usize)
        requires
            valid_broker(old(self)@),
            old(self)@.policy == LoadBalancePolicy::RoundRobin,
            any_routable(old(self)@.providers),
            total == routable_weight(old(self)@.providers),
        ensures
            selects(old(self)@, r as int),
            final(self)@ == (BrokerView {
                credits: credits_after(old(self)@, r as int),
                ..old(self)@
            }),
    {
        let ghost b = self@;
        let mut currents: StrMap<i64> = StrMap::new();
        std::mem::swap(&mut currents, &mut self.round_robin_current);
        let mut best: Option<(usize, i64)> = None;
        assert(b.providers.take(0) == Seq::<ProviderView>::empty());
        for i in 0..self.providers.len()
            invariant
                valid_broker(b),
                b == old(self)@,
                b.providers == provider_views(self.providers@),
                currents@ == bumped(b.providers.take(i as int), b.credits),
                match best {
                    Some((w, c)) => w < i && routable(b.providers[w as int]) && c == bump(b, w as int)
                        && forall|j: int|
                        0 <= j < i && routable(#[trigger] b.providers[j]) ==> bump(b, j) <= c && (j
                            < w ==> bump(b, j) < c),
                    None => forall|j: int| 0 <= j < i ==> !routable(#[trigger] b.providers[j]),
                },
                self.policy == b.policy,
        {
            let ghost t = b.providers.take(i + 1);
            assert(t.drop_last() == b.providers.take(i as int));
            assert(t.last() == self.providers@[i as int]@);
            assert(b.providers[i as int] == self.providers@[i as int]@);
            if self.providers[i].is_routable() {
                let before: i64 = match currents.get(self.providers[i].provider_id.as_str()) {
                    Some(c) => *c,
                    None => 0,
                };
                let now: i64 = before.wrapping_add(self.providers[i].weight as i64);
                currents.insert(self.providers[i].provider_id.clone(), now);
                proof {
                    lemma_bumped_own(b, i + 1, i as int);
                    assert(b.providers.take(i + 1) == t);
                    assert(credit(currents@, b.providers[i as int].id) == now);
                }
                let better = match best {
                    Some((_, c)) => now > c,
                    None => true,
                };
                if better {
                    best = Some((i, now));
                }
            }
        }
        assert(b.providers.take(b.providers.len() as int) == b.providers);
        match best {
            Some((winner, _)) => {
                let id = self.providers[winner].provider_id.clone();
                assert(b.providers[winner as int] == self.providers@[winner as int]@);
                let c: i64 = match currents.get(id.as_str()) {
                    Some(c) => *c,
                    None => 0,
                };
                proof {
                    lemma_bumped_own(b, b.providers.len() as int, winner as int);
                }
                currents.insert(id, c.wrapping_sub(total));
                self.round_robin_current = currents;
                winner
            },
            None => {
                proof {
                    let i = choose|i: int|
                        0 <= i < b.providers.len() && routable(#[trigger] b.providers[i]);
                    assert(false);
                }
                0
            },
        }
    }
}

// ---------------------------------------------------------------------------
// The table of brokers
// ---------------------------------------------------------------------------
spec fn broker_views(m: Map<Seq<char>, ServiceBroker>) -> Map<Seq<char>, BrokerView> {
    m.map_values(|b: ServiceBroker| b@)
}

/// Changing one broker changes its view alone.
proof fn lemma_broker_views(m: Map<Seq<char>, ServiceBroker>, k: Seq<char>, b: ServiceBroker)
    ensures
        broker_views(m.insert(k, b)) == broker_views(m).insert(k, b@),
        broker_views(m.remove(k).insert(k, b)) == broker_views(m).insert(k, b@),
        broker_views(m.remove(k)) == broker_views(m).remove(k),
        valid_brokers(broker_views(m)) && valid_broker(b@) ==> valid_brokers(
            broker_views(m).insert(k, b@),
        ),
        valid_brokers(broker_views(m)) ==> valid_brokers(broker_views(m).remove(k)),
{
    assert(broker_views(m.insert(k, b)) =~= broker_views(m).insert(k, b@));
    assert(broker_views(m.remove(k).insert(k, b)) =~= broker_views(m).insert(k, b@));
    assert(broker_views(m.remove(k)) =~= broker_views(m).remove(k));
}

impl Brokers {
    #[verifier::type_invariant]
    spec fn all_valid(self) -> bool {
        valid_brokers(broker_views(self.table@))
    }

    /// A table without brokers.
    pub fn new() -> (r: Self)
        ensures
            r@ == Map::<Seq<char>, BrokerView>::empty(),
    {
        let table: StrMap<ServiceBroker> = StrMap::new();
        let r = Brokers { table };
        assert(r@ == Map::<Seq<char>, BrokerView>::empty());
        r
    }

    fn take_table(&mut self) -> (r: StrMap<ServiceBroker>)
        ensures
            broker_views(r@) == old(self)@,
            valid_brokers(old(self)@),
    {
        proof {
            use_type_invariant(&*self);
        }
        let mut table: StrMap<ServiceBroker> = StrMap::new();
        std::mem::swap(&mut table, &mut self.table);
        table
    }
}

/// The broker `b` with the provider `id` of the given weight, unless it has
/// one of that id.
pub open spec fn with_provider(b: BrokerView, id: Seq<char>, weight: u32) -> BrokerView {
    if has_provider(b.providers, id) {
        b
    } else {
        BrokerView {
            providers: b.providers.push(
                new_provider(
                    id,
                    if weight <= 100 {
                        weight
                    } else {
                        100
                    },
                ),
            ),
            ..b
        }
    }
}

/// The broker of a service, or a new one with the given policy.
pub open spec fn broker_or_new(
    m: Map<Seq<char>, BrokerView>,
    key: Seq<char>,
    policy: LoadBalancePolicy,
) -> BrokerView {
    if m.dom().contains(key) {
        m[key]
    } else {
        new_broker(policy)
    }
}

impl ServiceBroker {
    /// The position of the provider `id`.
    fn position(&self, id: &str) -> (r: Option<usize>)
        ensures
            match r {
                Some(i) => i < self@.providers.len() && self@.providers[i as int].id == id@
                    && forall|j: int| 0 <= j < i ==> (#[trigger] self@.providers[j]).id != id@,
                None => !has_provider(self@.providers, id@),
            },
    {
        for i in 0..self.providers.len()
            invariant
                self@.providers.len() == self.providers@.len(),
                forall|j: int| 0 <= j < i ==> (#[trigger] self@.providers[j]).id != id@,
        {
            assert(self@.providers[i as int] == self.providers@[i as int]@);
            if text::str_eq(self.providers[i].provider_id.as_str(), id) {
                return Some(i);
            }
        }
        None
    }

    fn add_provider(&mut self, id: &str, weight: u32)
        requires
            valid_broker(old(self)@),
        ensures
            final(self)@ == with_provider(old(self)@, id@, weight),
            valid_broker(final(self)@),
    {
        let ghost b = self@;
        if self.position(id).is_none() {
            let w: u32 = if weight <= 100 {
                weight
            } else {
                100
            };
            let p = BrokerProvider::new(id, w);
            let ghost pv = p@;
            self.providers.push(p);
            proof {
                assert(self@.providers == b.providers.push(pv));
                assert forall|i: int, j: int| 0 <= i < j < self@.providers.len() implies (
                #[trigger] self@.providers[i]).id != (#[trigger] self@.providers[j]).id by {
                    assert(b.providers[i].id != id@);
                }
            }
        }
    }
}

/// Registers a provider of a service at full weight.
pub fn register_provider(
    brokers: &mut Brokers,
    service_key: &str,
    provider_id: &str,
    policy: LoadBalancePolicy,
)
    ensures
        valid_brokers(final(brokers)@),
        final(brokers)@ == old(brokers)@.insert(
            service_key@,
            with_provider(broker_or_new(old(brokers)@, service_key@, policy), provider_id@, 100),
        ),
{
    register_provider_with_weight(brokers, service_key, provider_id, policy, 100);
}

/// Registers a provider of a service. The policy counts where the service is
/// new; a provider that is known already stays as it is.
pub fn register_provider_with_weight(
    brokers: &mut Brokers,
    service_key: &str,
    provider_id: &str,
    policy: LoadBalancePolicy,
    initial_weight: u32,
)
    ensures
        valid_brokers(final(brokers)@),
        final(brokers)@ == old(brokers)@.insert(
            service_key@,
            with_provider(
                broker_or_new(old(brokers)@, service_key@, policy),
                provider_id@,
                initial_weight,
            ),
        ),
{
    let mut table = brokers.take_table();
    let ghost m = table@;
    let mut broker = match table.remove(service_key) {
        Some(b) => b,
        None => ServiceBroker::new(policy),
    };
    broker.add_provider(provider_id, initial_weight);
    proof {
        lemma_broker_views(m, service_key@, broker);
    }
    table.insert(service_key.to_owned(), broker);
    brokers.table = table;
}

/// Registers the provider that is to take over a service, at weight nothing.
pub fn begin_rolling_update(brokers: &mut Brokers, service_key: &str, incoming_provider_id: &str)
    ensures
        valid_brokers(final(brokers)@),
        final(brokers)@ == old(brokers)@.insert(
            service_key@,
            with_provider(
                broker_or_new(old(brokers)@, service_key@, LoadBalancePolicy::RoundRobin),
                incoming_provider_id@,
                0,
            ),
        ),
{
    register_provider_with_weight(
        brokers,
        service_key,
        incoming_provider_id,
        LoadBalancePolicy::RoundRobin,
        0,
    );
}

/// The position of the first provider `id`.
pub open spec fn provider_index(ps: Seq<ProviderView>, id: Seq<char>) -> int {
    choose|i: int| 0 <= i < ps.len() && (#[trigger] ps[i]).id == id
}

/// Whether a request runs on the provider `id` of the service.
pub open spec fn busy_provider(
    m: Map<Seq<char>, BrokerView>,
    key: Seq<char>,
    id: Seq<char>,
) -> bool {
    m.dom().contains(key) && has_provider(m[key].providers, id)
        && m[key].providers[provider_index(m[key].providers, id)].in_flight > 0
}

/// The table without the provider `id` of a service; a service whose last
/// provider goes, goes too.
pub open spec fn without_provider(
    m: Map<Seq<char>, BrokerView>,
    key: Seq<char>,
    id: Seq<char>,
) -> Map<Seq<char>, BrokerView> {
    if m.dom().contains(key) && has_provider(m[key].providers, id) {
        let rest = m[key].providers.remove(provider_index(m[key].providers, id));
        if rest.len() == 0 {
            m.remove(key)
        } else {
            m.insert(key, BrokerView { providers: rest, ..m[key] })
        }
    } else {
        m
    }
}

/// Where ids are distinct, a provider stands at one position.
pub proof fn lemma_provider_index(b: BrokerView, i: int)
    requires
        valid_broker(b),
        0 <= i < b.providers.len(),
    ensures
        provider_index(b.providers, b.providers[i].id) == i,
{
    let j = provider_index(b.providers, b.providers[i].id);
    assert(b.providers[i].id == b.providers[i].id);
    assert(0 <= j < b.providers.len() && b.providers[j].id == b.providers[i].id);
}

/// Takes a provider out of a service, unless a request runs on it. Gives
/// whether the provider is gone.
pub fn unregister_provider(brokers: &mut Brokers, service_key: &str, provider_id: &str) -> (r: bool)
    ensures
        valid_brokers(final(brokers)@),
        r == !busy_provider(old(brokers)@, service_key@, provider_id@),
        final(brokers)@ == (if r {
            without_provider(old(brokers)@, service_key@, provider_id@)
        } else {
            old(brokers)@
        }),
{
    let mut table = brokers.take_table();
    let ghost m = table@;
    let ghost at_first = old(brokers)@;
    match table.remove(service_key) {
        None => {
            assert(m.remove(service_key@) =~= m);
            brokers.table = table;
            true
        },
        Some(b) => {
            let mut broker = b;
            assert(at_first.dom().contains(service_key@) && at_first[service_key@] == broker@);
            proof {
                lemma_broker_views(m, service_key@, broker);
                assert(at_first.insert(service_key@, broker@) =~= at_first);
            }
            match broker.position(provider_id) {
                None => {
                    table.insert(service_key.to_owned(), broker);
                    brokers.table = table;
                    true
                },
                Some(pos) => {
                    assert(broker@.providers[pos as int] == broker.providers@[pos as int]@);
                    proof {
                        lemma_provider_index(broker@, pos as int);
                    }
                    if broker.providers[pos].in_flight > 0 {
                        table.insert(service_key.to_owned(), broker);
                        brokers.table = table;
                        return false;
                    }
                    let ghost before = broker@;
                    let _ = broker.providers.remove(pos);
                    proof {
                        assert(broker@.providers =~= before.providers.remove(pos as int));
                        assert(valid_broker(broker@)) by {
                            assert forall|i: int, j: int|
                                0 <= i < j < broker@.providers.len() implies (
                            #[trigger] broker@.providers[i]).id != (
                            #[trigger] broker@.providers[j]).id by {
                                let x = if i < pos { i } else { i + 1 };
                                let y = if j < pos { j } else { j + 1 };
                                assert(broker@.providers[i] == before.providers[x]);
                                assert(broker@.providers[j] == before.providers[y]);
                            }
                            assert forall|i: int| 0 <= i < broker@.providers.len() implies (
                            #[trigger] broker@.providers[i]).weight <= 100 by {
                                let x = if i < pos { i } else { i + 1 };
                                assert(broker@.providers[i] == before.providers[x]);
                            }
                        }
                        lemma_broker_views(m, service_key@, broker);
                    }
                    if broker.providers.len() > 0 {
                        table.insert(service_key.to_owned(), broker);
                    }
                    brokers.table = table;
                    true
                },
            }
        },
    }
}

/// Changes how the broker of a service picks; an unknown service is left out.
pub fn set_policy(brokers: &mut Brokers, service_key: &str, policy: LoadBalancePolicy)
    ensures
        valid_brokers(final(brokers)@),
        final(brokers)@ == (if old(brokers)@.dom().contains(service_key@) {
            old(brokers)@.insert(
                service_key@,
                (BrokerView { policy, ..old(brokers)@[service_key@] }),
            )
        } else {
            old(brokers)@
        }),
{
    let mut table = brokers.take_table();
    let ghost m = table@;
    match table.remove(service_key) {
        Some(b) => {
            let mut broker = b;
            broker.policy = policy;
            proof {
                lemma_broker_views(m, service_key@, broker);
            }
            table.insert(service_key.to_owned(), broker);
        },
        None => {
            assert(m.remove(service_key@) =~= m);
        },
    }
    brokers.table = table;
}

// ---------------------------------------------------------------------------
// Routing
// ---------------------------------------------------------------------------
/// A request that runs on a provider. It is given back with `release`.
pub struct RouteLease {
    pub service_key: String,
    pub provider_id: String,
}

/// Picks a provider of the service and puts a request on it.
pub fn route(brokers: &mut Brokers, service_key: &str) -> (r: Option<RouteLease>)
    ensures
        valid_brokers(final(brokers)@),
        r is Some <==> old(brokers)@.dom().contains(service_key@) && can_select(
            old(brokers)@[service_key@],
        ),
        match r {
            Some(lease) => lease.service_key@ == service_key@ && exists|i: int|
                #![trigger old(brokers)@[service_key@].providers[i]]
                selects(old(brokers)@[service_key@], i) && lease.provider_id@ == old(
                    brokers,
                )@[service_key@].providers[i].id && final(brokers)@ == old(brokers)@.insert(
                    service_key@,
                    routed(old(brokers)@[service_key@], i),
                ),
            None => final(brokers)@ == old(brokers)@,
        },
{
    let mut table = brokers.take_table();
    let ghost m = table@;
    let ghost at_first = old(brokers)@;
    match table.remove(service_key) {
        None => {
            assert(m.remove(service_key@) =~= m);
            brokers.table = table;
            None
        },
        Some(b) => {
            let mut broker = b;
            assert(at_first.dom().contains(service_key@) && at_first[service_key@] == broker@);
            let ghost before = broker@;
            match broker.select() {
                None => {
                    proof {
                        lemma_broker_views(m, service_key@, broker);
                        assert(at_first.insert(service_key@, broker@) =~= at_first);
                    }
                    table.insert(service_key.to_owned(), broker);
                    brokers.table = table;
                    None
                },
                Some(i) => {
                    let ghost picked = broker@;
                    assert(picked.providers[i as int] == broker.providers@[i as int]@);
                    let mut providers: Vec<BrokerProvider> = Vec::new();
                    std::mem::swap(&mut providers, &mut broker.providers);
                    let p = &providers[i];
                    let provider_id = p.provider_id.clone();
                    let changed = BrokerProvider {
                        provider_id: p.provider_id.clone(),
                        weight: p.weight,
                        draining: p.draining,
                        in_flight: p.in_flight.wrapping_add(1),
                        total_dispatched: p.total_dispatched.wrapping_add(1),
                    };
                    let ghost changed_view = changed@;
                    providers.set(i, changed);
                    broker.providers = providers;
                    proof {
                        assert(broker@.providers =~= picked.providers.update(
                            i as int,
                            changed_view,
                        ));
                        assert(broker@ =~= routed(before, i as int));
                        lemma_routed_valid(before, i as int);
                        lemma_broker_views(m, service_key@, broker);
                        assert(at_first[service_key@].providers[i as int].id == provider_id@);
                    }
                    table.insert(service_key.to_owned(), broker);
                    brokers.table = table;
                    Some(RouteLease { service_key: service_key.to_owned(), provider_id })
                },
            }
        },
    }
}

/// Routing keeps a broker valid.
pub proof fn lemma_routed_valid(b: BrokerView, i: int)
    requires
        valid_broker(b),
        0 <= i < b.providers.len(),
    ensures
        valid_broker(routed(b, i)),
{
    let q = routed(b, i).providers;
    assert forall|x: int, y: int| 0 <= x < y < q.len() implies (#[trigger] q[x]).id != (
    #[trigger] q[y]).id by {
        assert(q[x].id == b.providers[x].id);
        assert(q[y].id == b.providers[y].id);
    }
}

/// The table after the request on the provider `id` of a service ended.
pub open spec fn released(
    m: Map<Seq<char>, BrokerView>,
    key: Seq<char>,
    id: Seq<char>,
) -> Map<Seq<char>, BrokerView> {
    if m.dom().contains(key) && has_provider(m[key].providers, id) {
        let i = provider_index(m[key].providers, id);
        m.insert(
            key,
            BrokerView {
                providers: m[key].providers.update(i, one_less(m[key].providers[i])),
                ..m[key]
            },
        )
    } else {
        m
    }
}

/// Ends a routed request. A provider that is gone by now is left out.
pub fn release(brokers: &mut Brokers, lease: RouteLease)
    ensures
        valid_brokers(final(brokers)@),
        final(brokers)@ == released(old(brokers)@, lease.service_key@, lease.provider_id@),
{
    let mut table = brokers.take_table();
    let ghost m = table@;
    let ghost at_first = old(brokers)@;
    match table.remove(lease.service_key.as_str()) {
        None => {
            assert(m.remove(lease.service_key@) =~= m);
            brokers.table = table;
        },
        Some(b) => {
            let mut broker = b;
            let ghost before = broker@;
            assert(at_first.dom().contains(lease.service_key@) && at_first[lease.service_key@]
                == broker@);
            match broker.position(lease.provider_id.as_str()) {
                None => {
                    proof {
                        lemma_broker_views(m, lease.service_key@, broker);
                        assert(at_first.insert(lease.service_key@, broker@) =~= at_first);
                    }
                },
                Some(i) => {
                    assert(before.providers[i as int] == broker.providers@[i as int]@);
                    proof {
                        lemma_provider_index(before, i as int);
                    }
                    let mut providers: Vec<BrokerProvider> = Vec::new();
                    std::mem::swap(&mut providers, &mut broker.providers);
                    let p = &providers[i];
                    let changed = BrokerProvider {
                        provider_id: p.provider_id.clone(),
                        weight: p.weight,
                        draining: p.draining,
                        in_flight: p.in_flight.wrapping_sub(1),
                        total_dispatched: p.total_dispatched,
                    };
                    let ghost changed_view = changed@;
                    providers.set(i, changed);
                    broker.providers = providers;
                    proof {
                        assert(broker@.providers =~= before.providers.update(
                            i as int,
                            changed_view,
                        ));
                        let q = broker@.providers;
                        assert forall|x: int, y: int| 0 <= x < y < q.len() implies (
                        #[trigger] q[x]).id != (#[trigger] q[y]).id by {
                            assert(q[x].id == before.providers[x].id);
                            assert(q[y].id == before.providers[y].id);
                        }
                        lemma_broker_views(m, lease.service_key@, broker);
                    }
                },
            }
            table.insert(lease.service_key.clone(), broker);
            brokers.table = table;
        },
    }
}

// ---------------------------------------------------------------------------
// Status
// ---------------------------------------------------------------------------
/// What is known of one provider.
pub struct ProviderStatus {
    pub provider_id: String,
    pub weight: u32,
    pub draining: bool,
    pub in_flight: u64,
    pub total_dispatched: u64,
}

/// What is known of the broker of one service.
pub struct BrokerStatus {
    pub service_key: String,
    pub policy: LoadBalancePolicy,
    pub providers: Vec<ProviderStatus>,
}

/// The provider that a status describes.
pub open spec fn status_view(s: ProviderStatus) -> ProviderView {
    ProviderView {
        id: s.provider_id@,
        weight: s.weight,
        draining: s.draining,
        in_flight: s.in_flight,
        total_dispatched: s.total_dispatched,
    }
}

/// The broker of a service as it stands, provider by provider.
pub fn status(brokers: &Brokers, service_key: &str) -> (r: Option<BrokerStatus>)
    ensures
        r is Some <==> brokers@.dom().contains(service_key@),
        r matches Some(s) ==> s.service_key@ == service_key@ && s.policy
            == brokers@[service_key@].policy && Seq::new(
            s.providers@.len(),
            |i: int| status_view(s.providers@[i]),
        ) == brokers@[service_key@].providers,
        valid_brokers(brokers@),
{
    proof {
        use_type_invariant(brokers);
    }
    match brokers.table.get(service_key) {
        None => None,
        Some(broker) => {
            let mut out: Vec<ProviderStatus> = Vec::new();
            assert(brokers@[service_key@] == broker@);
            for i in 0..broker.providers.len()
                invariant
                    out@.len() == i,
                    broker@.providers.len() == broker.providers@.len(),
                    forall|k: int|
                        0 <= k < i ==> status_view(#[trigger] out@[k]) == broker@.providers[k],
            {
                let p = &broker.providers[i];
                assert(broker@.providers[i as int] == p@);
                out.push(
                    ProviderStatus {
                        provider_id: p.provider_id.clone(),
                        weight: p.weight,
                        draining: p.draining,
                        in_flight: p.in_flight,
                        total_dispatched: p.total_dispatched,
                    },
                );
            }
            assert(Seq::new(out@.len(), |i: int| status_view(out@[i])) =~= broker@.providers);
            Some(
                BrokerStatus {
                    service_key: service_key.to_owned(),
                    policy: broker.policy,
                    providers: out,
                },
            )
        },
    }
}

// ---------------------------------------------------------------------------
// Shifting traffic
// ---------------------------------------------------------------------------
/// The weights of all providers but the one at `target`, among the first `n`.
pub open spec fn other_weight(ps: Seq<ProviderView>, target: int, n: int) -> nat
    decreases n,
{
    if n <= 0 {
        0
    } else if n - 1 == target {
        other_weight(ps, target, n - 1)
    } else {
        other_weight(ps, target, n - 1) + ps[n - 1].weight as nat
    }
}

/// The smaller of two numbers.
pub open spec fn least(a: int, b: int) -> int {
    if a <= b {
        a
    } else {
        b
    }
}

/// How much weight one step takes from the others: the step, capped at one
/// hundred and at what they have.
pub open spec fn reduction(ps: Seq<ProviderView>, target: int, step: int) -> int {
    least(least(step, 100), other_weight(ps, target, ps.len() as int) as int)
}

/// The position of the last provider other than the target.
pub open spec fn last_other(n: int, target: int) -> int {
    if target == n - 1 {
        n - 2
    } else {
        n - 1
    }
}

/// How much of the reduction provider `i` bears, when `left` of it is still to
/// be borne: its part by weight, rounded down; the last bears what is left.
/// None bears more than its weight.
pub open spec fn share_of(ps: Seq<ProviderView>, target: int, cut: int, i: int, left: int) -> int {
    let wanted = if i == last_other(ps.len() as int, target) {
        left
    } else {
        (cut * ps[i].weight as int) / (other_weight(ps, target, ps.len() as int) as int)
    };
    least(least(wanted, ps[i].weight as int), left)
}

/// How much of the reduction is still to be borne after the first `n`
/// providers.
pub open spec fn left_after(ps: Seq<ProviderView>, target: int, cut: int, n: int) -> int
    decreases n,
{
    if n <= 0 {
        cut
    } else if n - 1 == target {
        left_after(ps, target, cut, n - 1)
    } else {
        let left = left_after(ps, target, cut, n - 1);
        left - share_of(ps, target, cut, n - 1, left)
    }
}

/// Provider `i` after it bore its share; one that is left without weight
/// drains.
pub open spec fn thinned(ps: Seq<ProviderView>, target: int, cut: int, i: int) -> ProviderView {
    if i == target || cut <= 0 {
        ps[i]
    } else {
        let w = ps[i].weight - share_of(ps, target, cut, i, left_after(ps, target, cut, i));
        ProviderView { weight: w as u32, draining: ps[i].draining || w == 0, ..ps[i] }
    }
}

/// The providers after one step of traffic went to the one at `target`.
pub open spec fn shifted(ps: Seq<ProviderView>, target: int, step: int) -> Seq<ProviderView> {
    let cut = reduction(ps, target, step);
    Seq::new(
        ps.len(),
        |i: int|
            if i == target {
                ProviderView {
                    weight: least(ps[i].weight + cut, 100) as u32,
                    draining: false,
                    ..ps[i]
                }
            } else {
                thinned(ps, target, cut, i)
            },
    )
}

/// Whether all traffic goes to the provider at `target`.
pub open spec fn fully_shifted(ps: Seq<ProviderView>, target: int) -> bool {
    ps[target].weight >= 100 && forall|i: int|
        0 <= i < ps.len() && i != target ==> (#[trigger] ps[i]).weight == 0
}

/// What is left to bear never goes below nothing nor above the reduction.
proof fn lemma_left(ps: Seq<ProviderView>, target: int, cut: int, n: int)
    requires
        0 <= cut,
        0 <= n <= ps.len(),
        other_weight(ps, target, ps.len() as int) > 0,
    ensures
        0 <= left_after(ps, target, cut, n) <= cut,
    decreases n,
{
    if n > 0 {
        lemma_left(ps, target, cut, n - 1);
        if n - 1 != target {
            lemma_share(ps, target, cut, n - 1, left_after(ps, target, cut, n - 1));
        }
    }
}

/// A share lies between nothing and both the weight and what is left.
proof fn lemma_share(ps: Seq<ProviderView>, target: int, cut: int, i: int, left: int)
    requires
        0 <= left,
        0 <= cut,
        0 <= i < ps.len(),
        other_weight(ps, target, ps.len() as int) > 0,
    ensures
        0 <= share_of(ps, target, cut, i, left) <= left,
        share_of(ps, target, cut, i, left) <= ps[i].weight,
{
    let w = ps[i].weight as int;
    let total = other_weight(ps, target, ps.len() as int) as int;
    assert((cut * w) / total >= 0) by (nonlinear_arith)
        requires
            cut >= 0,
            w >= 0,
            total > 0,
    ;
}

impl BrokerProvider {
    /// This provider with another weight and draining mark.
    fn reweighted(&self, weight: u32, draining: bool) -> (r: Self)
        ensures
            r@ == (ProviderView { weight, draining, ..self@ }),
    {
        BrokerProvider {
            provider_id: self.provider_id.clone(),
            weight,
            draining,
            in_flight: self.in_flight,
            total_dispatched: self.total_dispatched,
        }
    }
}

impl ServiceBroker {
    /// The weights of all providers but the one at `target`.
    fn weight_of_others(&self, target: usize) -> (r: u128)
        requires
            valid_broker(self@),
            target < self@.providers.len(),
        ensures
            r == other_weight(self@.providers, target as int, self@.providers.len() as int),
    {
        let mut total: u128 = 0;
        for i in 0..self.providers.len()
            invariant
                valid_broker(self@),
                self@.providers.len() == self.providers@.len(),
                total == other_weight(self@.providers, target as int, i as int),
                total <= 100 * i,
        {
            assert(self@.providers[i as int] == self.providers@[i as int]@);
            if i != target {
                total = total + self.providers[i].weight as u128;
            }
        }
        total
    }

    fn shift_to(&mut self, target: usize, step_percent: u32) -> (r: bool)
        requires
            valid_broker(old(self)@),
            target < old(self)@.providers.len(),
        ensures
            valid_broker(final(self)@),
            final(self)@ == (BrokerView {
                providers: shifted(old(self)@.providers, target as int, step_percent as int),
                ..old(self)@
            }),
            r == fully_shifted(final(self)@.providers, target as int),
    {
        let ghost b = self@;
        let ghost ps = self@.providers;
        let ghost t = target as int;
        let total: u128 = self.weight_of_others(target);
        let step: u32 = if step_percent <= 100 {
            step_percent
        } else {
            100
        };
        let cut: u32 = if step as u128 <= total {
            step
        } else {
            total as u32
        };
        assert(cut == reduction(ps, t, step_percent as int));
        let n: usize = self.providers.len();
        let last: Option<usize> = if target < n - 1 {
            Some(n - 1)
        } else if n > 1 {
            Some(n - 2)
        } else {
            None
        };
        let mut out: Vec<BrokerProvider> = Vec::new();
        let mut left: u32 = cut;
        let mut others_empty = true;
        for i in 0..n
            invariant
                valid_broker(b),
                b == self@,
                ps == b.providers,
                n == ps.len(),
                n == self.providers@.len(),
                t == target,
                target < n,
                cut <= 100,
                cut == reduction(ps, t, step_percent as int),
                total == other_weight(ps, t, n as int),
                cut > 0 ==> total > 0,
                last == (if last_other(n as int, t) >= 0 {
                    Some(last_other(n as int, t) as usize)
                } else {
                    None
                }),
                left == left_after(ps, t, cut as int, i as int) || cut == 0,
                left <= cut,
                out@.len() == i,
                forall|k: int|
                    0 <= k < i ==> (#[trigger] out@[k])@ == shifted(ps, t, step_percent as int)[k],
                others_empty ==> forall|k: int|
                    0 <= k < i && k != t ==> (#[trigger] out@[k])@.weight == 0,
                !others_empty ==> exists|k: int|
                    0 <= k < i && k != t && (#[trigger] out@[k])@.weight != 0,
        {
            let p = &self.providers[i];
            let ghost before = out@;
            assert(ps[i as int] == p@);
            assert(p@.weight <= 100);
            if i == target {
                let w: u32 = if p.weight + cut <= 100 {
                    p.weight + cut
                } else {
                    100
                };
                out.push(p.reweighted(w, false));
            } else if cut > 0 {
                let wanted: u32 = if last == Some(i) {
                    left
                } else {
                    assert(cut * p.weight <= 10_000) by (nonlinear_arith)
                        requires
                            cut <= 100,
                            p.weight <= 100,
                    ;
                    let part: u128 = (cut as u128 * p.weight as u128) / total;
                    assert(part <= 10_000) by (nonlinear_arith)
                        requires
                            part == (cut * p.weight) / total as int,
                            cut * p.weight <= 10_000,
                            cut * p.weight >= 0,
                            total > 0,
                    ;
                    part as u32
                };
                let share: u32 = if wanted <= p.weight {
                    wanted
                } else {
                    p.weight
                };
                let share: u32 = if share <= left {
                    share
                } else {
                    left
                };
                assert(share == share_of(ps, t, cut as int, i as int, left as int));
                let w: u32 = p.weight - share;
                left = left - share;
                out.push(p.reweighted(w, p.draining || w == 0));
            } else {
                out.push(p.reweighted(p.weight, p.draining));
            }
            assert(out@[i as int]@ == shifted(ps, t, step_percent as int)[i as int]);
            proof {
                if !others_empty {
                    let k = choose|k: int|
                        0 <= k < i && k != t && (#[trigger] before[k])@.weight != 0;
                    assert(out@[k] == before[k]);
                }
            }
            if i != target && out[i].weight != 0 {
                assert(out@[i as int]@.weight != 0);
                others_empty = false;
            }
        }
        let full = others_empty && out[target].weight >= 100;
        self.providers = out;
        proof {
            assert(self@.providers =~= shifted(ps, t, step_percent as int));
            lemma_shifted_valid(b, t, step_percent as int);
            assert(full == fully_shifted(self@.providers, t)) by {
                assert(out@[t]@ == self@.providers[t]);
                if others_empty {
                    assert forall|i: int| 0 <= i < self@.providers.len() && i != t implies (
                    #[trigger] self@.providers[i]).weight == 0 by {
                        assert(out@[i]@ == self@.providers[i]);
                    }
                } else {
                    let k = choose|k: int|
                        0 <= k < n && k != t && (#[trigger] out@[k])@.weight != 0;
                    assert(self@.providers[k].weight != 0);
                }
            }
        }
        full
    }
}

/// Shifting keeps a broker valid.
pub proof fn lemma_shifted_valid(b: BrokerView, target: int, step: int)
    requires
        valid_broker(b),
        0 <= target < b.providers.len(),
        0 <= step,
    ensures
        valid_broker(BrokerView { providers: shifted(b.providers, target, step), ..b }),
{
    let ps = b.providers;
    let q = shifted(ps, target, step);
    let cut = reduction(ps, target, step);
    assert forall|i: int| 0 <= i < q.len() implies (#[trigger] q[i]).weight <= 100 by {
        assert(ps[i].weight <= 100);
        if i != target && cut > 0 {
            lemma_left(ps, target, cut, i);
            lemma_share(ps, target, cut, i, left_after(ps, target, cut, i));
        }
    }
    assert forall|i: int, j: int| 0 <= i < j < q.len() implies (#[trigger] q[i]).id != (
    #[trigger] q[j]).id by {
        assert(q[i].id == ps[i].id && q[j].id == ps[j].id);
    }
}

/// Shifts a step of traffic to a provider of a service, away from the others.
/// Gives whether all of it goes there now; `false` where the service or the
/// provider is unknown.
pub fn shift_traffic(
    brokers: &mut Brokers,
    service_key: &str,
    to_provider_id: &str,
    step_percent: u32,
) -> (r: bool)
    ensures
        valid_brokers(final(brokers)@),
        final(brokers)@ == traffic_shifted(
            old(brokers)@,
            service_key@,
            to_provider_id@,
            step_percent as int,
        ),
        r == (old(brokers)@.dom().contains(service_key@) && has_provider(
            old(brokers)@[service_key@].providers,
            to_provider_id@,
        ) && fully_shifted(
            final(brokers)@[service_key@].providers,
            provider_index(old(brokers)@[service_key@].providers, to_provider_id@),
        )),
{
    let mut table = brokers.take_table();
    let ghost m = table@;
    let ghost at_first = old(brokers)@;
    match table.remove(service_key) {
        None => {
            assert(m.remove(service_key@) =~= m);
            brokers.table = table;
            false
        },
        Some(b) => {
            let mut broker = b;
            let ghost before = broker@;
            assert(at_first.dom().contains(service_key@) && at_first[service_key@] == broker@);
            let full = match broker.position(to_provider_id) {
                None => {
                    proof {
                        lemma_broker_views(m, service_key@, broker);
                        assert(at_first.insert(service_key@, broker@) =~= at_first);
                    }
                    false
                },
                Some(i) => {
                    proof {
                        lemma_provider_index(before, i as int);
                    }
                    let full = broker.shift_to(i, step_percent);
                    proof {
                        lemma_broker_views(m, service_key@, broker);
                    }
                    full
                },
            };
            table.insert(service_key.to_owned(), broker);
            brokers.table = table;
            full
        },
    }
}

/// The table after a step of traffic went to one provider of a service.
pub open spec fn traffic_shifted(
    m: Map<Seq<char>, BrokerView>,
    key: Seq<char>,
    id: Seq<char>,
    step: int,
) -> Map<Seq<char>, BrokerView> {
    if m.dom().contains(key) && has_provider(m[key].providers, id) {
        let b = m[key];
        let ps = shifted(b.providers, provider_index(b.providers, id), step);
        m.insert(key, BrokerView { providers: ps, ..b })
    } else {
        m
    }
}

// ---------------------------------------------------------------------------
// Reaping
// ---------------------------------------------------------------------------
/// Whether a provider is drained: it takes no requests and none runs on it.
pub open spec fn drained(p: ProviderView) -> bool {
    p.draining && p.weight == 0 && p.in_flight == 0
}

/// The ids of the drained providers, in order.
pub open spec fn drained_ids(ps: Seq<ProviderView>) -> Seq<Seq<char>>
    decreases ps.len(),
{
    if ps.len() == 0 {
        Seq::empty()
    } else if drained(ps.last()) {
        drained_ids(ps.drop_last()).push(ps.last().id)
    } else {
        drained_ids(ps.drop_last())
    }
}

/// The providers that are not drained, in order.
pub open spec fn undrained(ps: Seq<ProviderView>) -> Seq<ProviderView>
    decreases ps.len(),
{
    if ps.len() == 0 {
        Seq::empty()
    } else if drained(ps.last()) {
        undrained(ps.drop_last())
    } else {
        undrained(ps.drop_last()).push(ps.last())
    }
}

/// What stays was there before, in the same order and with its id of its own.
pub proof fn lemma_undrained(b: BrokerView, n: int)
    requires
        valid_broker(b),
        0 <= n <= b.providers.len(),
    ensures
        valid_broker(BrokerView { providers: undrained(b.providers.take(n)), ..b }),
        forall|i: int|
            0 <= i < undrained(b.providers.take(n)).len() ==> has_provider(
                b.providers.take(n),
                (#[trigger] undrained(b.providers.take(n))[i]).id,
            ),
    decreases n,
{
    if n > 0 {
        let ps = b.providers.take(n);
        let t = b.providers.take(n - 1);
        assert(ps.drop_last() == t);
        lemma_undrained(b, n - 1);
        let u = undrained(ps);
        let bt = BrokerView { providers: undrained(t), ..b };
        assert(valid_broker(bt));
        assert forall|i: int| 0 <= i < u.len() implies has_provider(ps, (#[trigger] u[i]).id) by {
            if i < undrained(t).len() {
                assert(u[i] == undrained(t)[i]);
                let j = choose|j: int|
                    0 <= j < t.len() && (#[trigger] t[j]).id == undrained(t)[i].id;
                assert(ps[j] == t[j]);
            } else {
                assert(ps[n - 1].id == u[i].id);
            }
        }
        assert forall|i: int, j: int| 0 <= i < j < u.len() implies (#[trigger] u[i]).id != (
        #[trigger] u[j]).id by {
            assert(u[i] == bt.providers[i]);
            if j < undrained(t).len() {
                assert(u[j] == bt.providers[j]);
            } else {
                assert(u[j] == b.providers[n - 1]);
                let k = choose|k: int|
                    0 <= k < t.len() && (#[trigger] t[k]).id == undrained(t)[i].id;
                assert(t[k] == b.providers[k]);
                assert(b.providers[k].id != b.providers[n - 1].id);
            }
        }
        assert forall|i: int| 0 <= i < u.len() implies (#[trigger] u[i]).weight <= 100 by {
            if i < undrained(t).len() {
                assert(u[i] == bt.providers[i]);
            } else {
                assert(u[i] == b.providers[n - 1]);
            }
        }
    }
}

/// Takes the drained providers out of a service. Gives their ids. The service
/// stays, even without providers.
pub fn reap_drained(brokers: &mut Brokers, service_key: &str) -> (r: Vec<String>)
    ensures
        valid_brokers(final(brokers)@),
        text::string_views(r@) == (if old(brokers)@.dom().contains(service_key@) {
            drained_ids(old(brokers)@[service_key@].providers)
        } else {
            Seq::empty()
        }),
        final(brokers)@ == (if old(brokers)@.dom().contains(service_key@) {
            old(brokers)@.insert(
                service_key@,
                (BrokerView {
                    providers: undrained(old(brokers)@[service_key@].providers),
                    ..old(brokers)@[service_key@]
                }),
            )
        } else {
            old(brokers)@
        }),
{
    let mut table = brokers.take_table();
    let ghost m = table@;
    let ghost at_first = old(brokers)@;
    let mut removed: Vec<String> = Vec::new();
    match table.remove(service_key) {
        None => {
            assert(m.remove(service_key@) =~= m);
            assert(text::string_views(removed@) =~= Seq::<Seq<char>>::empty());
        },
        Some(b) => {
            let mut broker = b;
            let ghost before = broker@;
            let ghost ps = broker@.providers;
            assert(at_first.dom().contains(service_key@) && at_first[service_key@] == broker@);
            let mut providers: Vec<BrokerProvider> = Vec::new();
            std::mem::swap(&mut providers, &mut broker.providers);
            let mut kept: Vec<BrokerProvider> = Vec::new();
            let ghost all = providers@;
            assert(ps.take(0) =~= Seq::<ProviderView>::empty());
            assert(provider_views(kept@) =~= Seq::<ProviderView>::empty());
            assert(text::string_views(removed@) =~= Seq::<Seq<char>>::empty());
            for p in it: providers.into_iter()
                invariant
                    it.seq() == all,
                    ps == provider_views(all),
                    provider_views(kept@) == undrained(ps.take(it.index())),
                    text::string_views(removed@) == drained_ids(ps.take(it.index())),
            {
                assert(p == all[it.index()]);
                let ghost t = ps.take(it.index() + 1);
                assert(t.drop_last() =~= ps.take(it.index()));
                assert(t.last() == p@);
                let ghost kept_before = kept@;
                let ghost removed_before = removed@;
                if p.draining && p.weight == 0 && p.in_flight == 0 {
                    removed.push(p.provider_id.clone());
                    assert(text::string_views(removed@) =~= text::string_views(
                        removed_before,
                    ).push(p@.id));
                } else {
                    let ghost pv = p@;
                    kept.push(p);
                    assert(provider_views(kept@) =~= provider_views(kept_before).push(pv));
                }
            }
            assert(ps.take(ps.len() as int) =~= ps);
            broker.providers = kept;
            proof {
                lemma_undrained(before, ps.len() as int);
                lemma_broker_views(m, service_key@, broker);
            }
            table.insert(service_key.to_owned(), broker);
        },
    }
    brokers.table = table;
    removed
}

// ---------------------------------------------------------------------------
// Laws
// ---------------------------------------------------------------------------
/// Ending a routed request undoes what routing did to the load: only the
/// count of dispatches and the credits remember it.
pub proof fn law_release_undoes_route(m: Map<Seq<char>, BrokerView>, key: Seq<char>, i: int)
    requires
        valid_brokers(m),
        m.dom().contains(key),
        selects(m[key], i),
    ensures
        ({
            let p = m[key].providers[i];
            let back = released(m.insert(key, routed(m[key], i)), key, p.id);
            back == m.insert(
                key,
                BrokerView {
                    policy: m[key].policy,
                    providers: m[key].providers.update(
                        i,
                        ProviderView {
                            total_dispatched: p.total_dispatched.wrapping_add(1),
                            ..p
                        },
                    ),
                    credits: credits_after(m[key], i),
                },
            )
        }),
{
    let b = m[key];
    let p = b.providers[i];
    let b1 = routed(b, i);
    let m1 = m.insert(key, b1);
    lemma_routed_valid(b, i);
    assert(b1.providers[i].id == p.id);
    lemma_provider_index(b1, i);
    assert(has_provider(b1.providers, p.id));
    let target = b.providers.update(
        i,
        ProviderView { total_dispatched: p.total_dispatched.wrapping_add(1), ..p },
    );
    assert(b1.providers.update(i, one_less(b1.providers[i])) =~= target);
    let b2 = BrokerView { policy: b.policy, providers: target, credits: credits_after(b, i) };
    assert(released(m1, key, p.id) =~= m.insert(key, b2));
}

/// Ending a routed request lowers the load of its provider by one. Nothing else
/// changes: not what the provider was dispatched in all, no other provider of
/// the service, and no other service.
pub proof fn law_release_lowers_one_load(m: Map<Seq<char>, BrokerView>, key: Seq<char>, i: int)
    requires
        valid_brokers(m),
        m.dom().contains(key),
        0 <= i < m[key].providers.len(),
        m[key].providers[i].in_flight > 0,
    ensures
        ({
            let p = m[key].providers[i];
            let after = released(m, key, p.id);
            &&& after.dom() == m.dom()
            &&& after[key].policy == m[key].policy
            &&& after[key].credits == m[key].credits
            &&& after[key].providers.len() == m[key].providers.len()
            &&& after[key].providers[i].in_flight == p.in_flight - 1
            &&& after[key].providers[i] == (ProviderView {
                in_flight: after[key].providers[i].in_flight,
                ..p
            })
            &&& forall|j: int|
                0 <= j < m[key].providers.len() && j != i ==> #[trigger] after[key].providers[j]
                    == m[key].providers[j]
            &&& forall|k: Seq<char>|
                m.dom().contains(k) && k != key ==> #[trigger] after[k] == m[k]
        }),
{
    let b = m[key];
    assert(b == m[key]);
    lemma_provider_index(b, i);
    assert(has_provider(b.providers, b.providers[i].id));
    assert(released(m, key, b.providers[i].id).dom() =~= m.dom());
}

/// Once a shift is complete, no request is routed to any other provider.
pub proof fn law_complete_shift_routes_to_target_alone(b: BrokerView, target: int, i: int)
    requires
        0 <= target < b.providers.len(),
        fully_shifted(b.providers, target),
        selects(b, i),
    ensures
        i == target,
{
    if i != target {
        assert(b.providers[i].weight == 0);
    }
}

/// A shift gives the target weight and takes none from it; it gives none of
/// the others any. Requests in flight stay where they are.
pub proof fn law_shift_moves_weight_to_target(b: BrokerView, target: int, step: int, i: int)
    requires
        valid_broker(b),
        0 <= target < b.providers.len(),
        0 <= step,
        0 <= i < b.providers.len(),
    ensures
        shifted(b.providers, target, step)[i].id == b.providers[i].id,
        shifted(b.providers, target, step)[i].in_flight == b.providers[i].in_flight,
        i == target ==> shifted(b.providers, target, step)[i].weight >= b.providers[i].weight,
        i != target ==> shifted(b.providers, target, step)[i].weight <= b.providers[i].weight,
        shifted(b.providers, target, step)[i].weight <= 100,
{
    let ps = b.providers;
    let cut = reduction(ps, target, step);
    assert(ps[i].weight <= 100);
    if cut > 0 {
        lemma_left(ps, target, cut, i);
        lemma_share(ps, target, cut, i, left_after(ps, target, cut, i));
    }
}

/// A step that is worth all the weight of the others leaves them none.
pub proof fn law_large_step_empties_the_others(b: BrokerView, target: int, step: int, i: int)
    requires
        valid_broker(b),
        0 <= target < b.providers.len(),
        0 <= i < b.providers.len(),
        i != target,
        other_weight(b.providers, target, b.providers.len() as int) <= least(step, 100),
    ensures
        shifted(b.providers, target, step)[i].weight == 0,
{
    let ps = b.providers;
    let total = other_weight(ps, target, ps.len() as int) as int;
    let cut = reduction(ps, target, step);
    lemma_other_weight_parts(ps, target, i, ps.len() as int);
    if total > 0 {
        lemma_all_taken(ps, target, i);
        let w = ps[i].weight as int;
        assert((total * w) / total == w) by (nonlinear_arith)
            requires
                total > 0,
        ;
    }
}

proof fn lemma_other_weight_parts(ps: Seq<ProviderView>, target: int, i: int, n: int)
    requires
        0 <= i < n <= ps.len(),
    ensures
        other_weight(ps, target, i) + (if i == target {
            0
        } else {
            ps[i].weight as int
        }) <= other_weight(ps, target, n),
    decreases n,
{
    if i < n - 1 {
        lemma_other_weight_parts(ps, target, i, n - 1);
    }
}

/// Where all the weight of the others is to go, each has borne all of its own.
proof fn lemma_all_taken(ps: Seq<ProviderView>, target: int, n: int)
    requires
        0 <= n < ps.len(),
        0 <= target < ps.len(),
        other_weight(ps, target, ps.len() as int) > 0,
    ensures
        left_after(ps, target, other_weight(ps, target, ps.len() as int) as int, n)
            == other_weight(ps, target, ps.len() as int) - other_weight(ps, target, n),
    decreases n,
{
    let total = other_weight(ps, target, ps.len() as int) as int;
    if n > 0 {
        lemma_all_taken(ps, target, n - 1);
        lemma_other_weight_parts(ps, target, n - 1, ps.len() as int);
        let w = ps[n - 1].weight as int;
        assert((total * w) / total == w) by (nonlinear_arith)
            requires
                total > 0,
        ;
        if n - 1 != target && n - 1 == last_other(ps.len() as int, target) {
            // Only the target stands behind the last of the others.
            assert(n == ps.len() - 1 && target == n);
            assert(other_weight(ps, target, n + 1) == other_weight(ps, target, n));
        }
    }
}

/// Reaping keeps every provider on which a request runs.
pub proof fn law_reaping_keeps_busy_providers(ps: Seq<ProviderView>, i: int)
    requires
        0 <= i < ps.len(),
        ps[i].in_flight > 0,
    ensures
        undrained(ps).contains(ps[i]),
    decreases ps.len(),
{
    let t = ps.drop_last();
    if i < t.len() {
        assert(t[i] == ps[i]);
        law_reaping_keeps_busy_providers(t, i);
        let k = choose|k: int| 0 <= k < undrained(t).len() && undrained(t)[k] == ps[i];
        assert(undrained(ps)[k] == ps[i]);
    } else {
        assert(undrained(ps)[undrained(ps).len() - 1] == ps[i]);
    }
}

/// The weights of the routable providers among the first `n`, as they sum up.
pub open spec fn weight_sum(ps: Seq<ProviderView>, n: int) -> int
    decreases n,
{
    if n <= 0 {
        0
    } else {
        weight_sum(ps, n - 1) + if routable(ps[n - 1]) {
            ps[n - 1].weight as int
        } else {
            0
        }
    }
}

/// The credits of the routable providers among the first `n`, as they sum up.
pub open spec fn credit_sum(b: BrokerView, n: int) -> int
    decreases n,
{
    if n <= 0 {
        0
    } else {
        credit_sum(b, n - 1) + if routable(b.providers[n - 1]) {
            credit(b.credits, b.providers[n - 1].id) as int
        } else {
            0
        }
    }
}

/// Round robin is in balance: what some providers are ahead, others are
/// behind, and none is ahead by a whole round.
pub open spec fn in_balance(b: BrokerView) -> bool {
    &&& credit_sum(b, b.providers.len() as int) == 0
    &&& forall|j: int|
        0 <= j < b.providers.len() && routable(#[trigger] b.providers[j]) ==> credit(
            b.credits,
            b.providers[j].id,
        ) > -weight_sum(b.providers, b.providers.len() as int)
}

/// Whether the credits of round robin fit in 64 bits: as many whole rounds as
/// there are providers, and one more.
pub open spec fn credits_fit(b: BrokerView) -> bool {
    (b.providers.len() + 1) * weight_sum(b.providers, b.providers.len() as int) <= i64::MAX
}

/// Round robin stays in balance with each request: the provider that is
/// picked pays one whole round, and each routable provider is given its weight.
pub proof fn law_round_robin_stays_in_balance(b: BrokerView, i: int)
    requires
        valid_broker(b),
        b.policy == LoadBalancePolicy::RoundRobin,
        credits_fit(b),
        in_balance(b),
        selects(b, i),
    ensures
        in_balance(routed(b, i)),
        forall|j: int|
            0 <= j < b.providers.len() && routable(#[trigger] b.providers[j]) ==> credit(
                routed(b, i).credits,
                b.providers[j].id,
            ) == credit(b.credits, b.providers[j].id) + b.providers[j].weight - (if j == i {
                weight_sum(b.providers, b.providers.len() as int)
            } else {
                0
            }),
{
    let n = b.providers.len() as int;
    let w = weight_sum(b.providers, n);
    let r = routed(b, i);
    lemma_weight_nonnegative(b.providers, n);
    assert(2 * w <= (n + 1) * w <= i64::MAX && (n + 1) * w == n * w + w) by (nonlinear_arith)
        requires
            n >= 1,
            w >= 0,
            (n + 1) * w <= i64::MAX,
    ;
    lemma_weight_sum(b, n);
    lemma_weight_positive(b.providers, i, n);
    assert(b.providers.take(n) == b.providers);
    assert forall|j: int| 0 <= j < n && routable(#[trigger] b.providers[j]) implies credit(
        r.credits,
        b.providers[j].id,
    ) == credit(b.credits, b.providers[j].id) + b.providers[j].weight - (if j == i {
        w
    } else {
        0
    }) && bump(b, j) == credit(b.credits, b.providers[j].id) + b.providers[j].weight by {
        lemma_bumped_own(b, n, j);
        lemma_bumped_own(b, n, i);
        lemma_credit_bound(b, n, j, w);
        lemma_credit_bound(b, n, i, w);
        lemma_weight_within(b.providers, j, n);
        lemma_weight_within(b.providers, i, n);
        if j != i {
            assert(b.providers[j].id != b.providers[i].id);
        }
    }
    lemma_sum_after(b, i, n, w);
    lemma_weight_sum_same(b.providers, r.providers, n);
    // The picked provider was ahead of nothing.
    assert(bump(b, i) > 0) by {
        if bump(b, i) <= 0 {
            lemma_bumps_not_positive(b, n);
        }
    }
    assert forall|j: int| 0 <= j < n && routable(#[trigger] r.providers[j]) implies credit(
        r.credits,
        r.providers[j].id,
    ) > -w by {
        assert(routable(b.providers[j]));
    }
}

/// `b` after requests were routed to the providers `picks`, one by one.
pub open spec fn after_run(b: BrokerView, picks: Seq<int>) -> BrokerView
    decreases picks.len(),
{
    if picks.len() == 0 {
        b
    } else {
        routed(after_run(b, picks.drop_last()), picks.last())
    }
}

/// Whether `b` picks `picks`, one by one, where nothing but requests comes.
pub open spec fn picks_in_turn(b: BrokerView, picks: Seq<int>) -> bool
    decreases picks.len(),
{
    picks.len() > 0 ==> picks_in_turn(b, picks.drop_last()) && selects(
        after_run(b, picks.drop_last()),
        picks.last(),
    )
}

/// How many of the picks are `j`.
pub open spec fn times_picked(picks: Seq<int>, j: int) -> nat
    decreases picks.len(),
{
    if picks.len() == 0 {
        0
    } else {
        times_picked(picks.drop_last(), j) + if picks.last() == j {
            1nat
        } else {
            0nat
        }
    }
}

/// Round robin is in balance before any request.
pub proof fn law_round_robin_begins_in_balance(b: BrokerView)
    requires
        b.credits == Map::<Seq<char>, i64>::empty(),
        any_routable(b.providers),
    ensures
        in_balance(b),
{
    let n = b.providers.len() as int;
    lemma_no_credit_sums_to_nothing(b, n);
    let i = choose|i: int| 0 <= i < n && routable(#[trigger] b.providers[i]);
    lemma_weight_positive(b.providers, i, n);
}

proof fn lemma_no_credit_sums_to_nothing(b: BrokerView, n: int)
    requires
        b.credits == Map::<Seq<char>, i64>::empty(),
    ensures
        credit_sum(b, n) == 0,
    decreases n,
{
    if n > 0 {
        lemma_no_credit_sums_to_nothing(b, n - 1);
    }
}

/// Over any run of requests a provider's share follows its weight: what it
/// was given and what it paid differ by a bounded number of rounds, however
/// long the run.
pub proof fn law_round_robin_share_follows_weight(b: BrokerView, picks: Seq<int>, j: int)
    requires
        valid_broker(b),
        b.policy == LoadBalancePolicy::RoundRobin,
        credits_fit(b),
        in_balance(b),
        picks_in_turn(b, picks),
        0 <= j < b.providers.len(),
        routable(b.providers[j]),
    ensures
        ({
            let n = b.providers.len() as int;
            let round = weight_sum(b.providers, n);
            let given = picks.len() * b.providers[j].weight;
            let paid = times_picked(picks, j) * round;
            -((n + 1) * round) < given - paid < (n + 1) * round
        }),
{
    let n = b.providers.len() as int;
    let w = weight_sum(b.providers, n);
    let after = after_run(b, picks);
    lemma_run(b, picks, j);
    lemma_weight_nonnegative(b.providers, n);
    lemma_credit_bound(b, n, j, w);
    lemma_weight_sum_same(b.providers, after.providers, n);
    lemma_credit_bound(after, n, j, w);
    assert(n * w + w == (n + 1) * w) by (nonlinear_arith);
}

/// Whether no provider that takes requests is ahead or behind, as before any
/// request.
pub open spec fn is_even(b: BrokerView) -> bool {
    forall|j: int|
        0 <= j < b.providers.len() && routable(#[trigger] b.providers[j]) ==> credit(
            b.credits,
            b.providers[j].id,
        ) == 0
}

/// How often round robin picks provider `j` in one round: as often as its weight
/// says, and never where it takes no requests.
pub open spec fn round_share(b: BrokerView, j: int) -> int {
    if routable(b.providers[j]) {
        b.providers[j].weight as int
    } else {
        0
    }
}

/// Over one round, which has as many requests as all the weights, each provider
/// is picked exactly as often as its weight says, and no provider is ahead or
/// behind afterwards.
pub proof fn law_round_robin_is_exact_over_a_round(b: BrokerView, picks: Seq<int>)
    requires
        valid_broker(b),
        b.policy == LoadBalancePolicy::RoundRobin,
        credits_fit(b),
        is_even(b),
        picks_in_turn(b, picks),
        picks.len() == weight_sum(b.providers, b.providers.len() as int),
    ensures
        forall|j: int|
            0 <= j < b.providers.len() ==> #[trigger] times_picked(picks, j) == round_share(b, j),
        is_even(after_run(b, picks)),
{
    let n = b.providers.len() as int;
    let w = weight_sum(b.providers, n);
    let after = after_run(b, picks);
    lemma_even_balance(b);
    lemma_run_keeps(b, picks);
    assert forall|j: int| 0 <= j < n && routable(#[trigger] b.providers[j]) implies credit(
        after.credits,
        b.providers[j].id,
    ) >= 0 && credit(after.credits, b.providers[j].id) == w * (b.providers[j].weight - times_picked(
        picks,
        j,
    )) && w > 0 && credit_sum(after, n) == 0 by {
        lemma_run(b, picks, j);
        lemma_weight_positive(b.providers, j, n);
        lemma_weight_sum_same(b.providers, after.providers, n);
        let d = b.providers[j].weight as int;
        let c = times_picked(picks, j) as int;
        assert(w * d - c * w == w * (d - c)) by (nonlinear_arith);
        assert(routable(after.providers[j]));
        assert(w * (d - c) > -w);
        assert(d - c >= 0) by (nonlinear_arith)
            requires
                w * (d - c) > -w,
                w > 0,
        ;
        assert(w * (d - c) >= 0) by (nonlinear_arith)
            requires
                w > 0,
                d - c >= 0,
        ;
    }
    assert forall|j: int| 0 <= j < n implies #[trigger] times_picked(picks, j) == round_share(b, j)
        by {
        if routable(b.providers[j]) {
            assert forall|k: int| 0 <= k < n && routable(#[trigger] after.providers[k]) implies credit(
                after.credits,
                after.providers[k].id,
            ) >= 0 by {
                assert(routable(b.providers[k]));
            }
            assert(routable(after.providers[j]));
            lemma_none_ahead(after, n, j);
            let d = b.providers[j].weight as int;
            let c = times_picked(picks, j) as int;
            assert(d == c) by (nonlinear_arith)
                requires
                    w * (d - c) == 0,
                    w > 0,
            ;
        } else {
            lemma_never_picked(b, picks, j);
        }
    }
    assert forall|j: int| 0 <= j < n && routable(#[trigger] after.providers[j]) implies credit(
        after.credits,
        after.providers[j].id,
    ) == 0 by {
        assert(routable(b.providers[j]));
        assert(times_picked(picks, j) == round_share(b, j));
        assert(w * 0 == 0);
    }
}

/// Over any run of requests, each block of as many requests as all the weights
/// goes to each provider exactly as often as its weight says, from the first
/// block on.
pub proof fn law_round_robin_is_exact_in_every_block(
    b: BrokerView,
    picks: Seq<int>,
    block: nat,
    j: int,
)
    requires
        valid_broker(b),
        b.policy == LoadBalancePolicy::RoundRobin,
        credits_fit(b),
        is_even(b),
        picks_in_turn(b, picks),
        (block + 1) * weight_sum(b.providers, b.providers.len() as int) <= picks.len(),
        0 <= j < b.providers.len(),
    ensures
        ({
            let round = weight_sum(b.providers, b.providers.len() as int);
            times_picked(picks.subrange(block * round, (block + 1) * round), j) == round_share(b, j)
        }),
    decreases block,
{
    let n = b.providers.len() as int;
    let w = weight_sum(b.providers, n);
    lemma_weight_nonnegative(b.providers, n);
    assert(0 <= w <= (block + 1) * w && (block + 1) * w == block * w + w && 0 <= block * w) by (nonlinear_arith)
        requires
            w >= 0,
            block >= 0,
    ;
    let first = picks.take(w);
    let rest = picks.skip(w);
    assert(first + rest =~= picks);
    lemma_run_split(b, first, rest);
    law_round_robin_is_exact_over_a_round(b, first);
    if block == 0 {
        assert(block * w == 0) by (nonlinear_arith)
            requires
                block == 0,
        ;
        assert(picks.subrange(block * w, (block + 1) * w) =~= first);
    } else {
        let next = after_run(b, first);
        let before = (block - 1) as nat;
        lemma_run_keeps(b, first);
        lemma_weight_sum_same(b.providers, next.providers, n);
        assert((before + 1) * w == block * w && before * w == block * w - w) by (nonlinear_arith)
            requires
                before == block - 1,
        ;
        law_round_robin_is_exact_in_every_block(next, rest, before, j);
        assert(rest.subrange(before * w, (before + 1) * w) =~= picks.subrange(
            block * w,
            (block + 1) * w,
        ));
    }
}

/// Where no provider is ahead or behind, round robin is in balance.
proof fn lemma_even_balance(b: BrokerView)
    requires
        is_even(b),
    ensures
        in_balance(b),
{
    let n = b.providers.len() as int;
    lemma_even_sum(b, n);
    assert forall|j: int| 0 <= j < n && routable(#[trigger] b.providers[j]) implies credit(
        b.credits,
        b.providers[j].id,
    ) > -weight_sum(b.providers, n) by {
        lemma_weight_positive(b.providers, j, n);
    }
}

proof fn lemma_even_sum(b: BrokerView, n: int)
    requires
        is_even(b),
        0 <= n <= b.providers.len(),
    ensures
        credit_sum(b, n) == 0,
    decreases n,
{
    if n > 0 {
        lemma_even_sum(b, n - 1);
        assert(routable(b.providers[n - 1]) ==> credit(b.credits, b.providers[n - 1].id) == 0);
    }
}

/// Where none is behind and all sum to nothing, none is ahead.
proof fn lemma_none_ahead(b: BrokerView, n: int, j: int)
    requires
        n == b.providers.len(),
        0 <= j < n,
        routable(b.providers[j]),
        credit_sum(b, n) == 0,
        forall|k: int|
            0 <= k < n && routable(#[trigger] b.providers[k]) ==> credit(
                b.credits,
                b.providers[k].id,
            ) >= 0,
    ensures
        credit(b.credits, b.providers[j].id) == 0,
{
    lemma_sum_covers(b, n, j);
}

proof fn lemma_sum_covers(b: BrokerView, n: int, j: int)
    requires
        0 <= n <= b.providers.len(),
        0 <= j < b.providers.len(),
        routable(b.providers[j]),
        forall|k: int|
            0 <= k < b.providers.len() && routable(#[trigger] b.providers[k]) ==> credit(
                b.credits,
                b.providers[k].id,
            ) >= 0,
    ensures
        credit_sum(b, n) >= 0,
        j < n ==> credit_sum(b, n) >= credit(b.credits, b.providers[j].id),
    decreases n,
{
    if n > 0 {
        lemma_sum_covers(b, n - 1, j);
        assert(routable(b.providers[n - 1]) ==> credit(b.credits, b.providers[n - 1].id) >= 0);
    }
}

/// A run of requests leaves all of the providers but their counts alone.
proof fn lemma_run_keeps(b: BrokerView, picks: Seq<int>)
    requires
        valid_broker(b),
        picks_in_turn(b, picks),
    ensures
        valid_broker(after_run(b, picks)),
        after_run(b, picks).policy == b.policy,
        after_run(b, picks).providers.len() == b.providers.len(),
        forall|k: int|
            0 <= k < b.providers.len() ==> (#[trigger] b.providers[k]).id == after_run(
                b,
                picks,
            ).providers[k].id && b.providers[k].weight == after_run(b, picks).providers[k].weight
                && b.providers[k].draining == after_run(b, picks).providers[k].draining,
    decreases picks.len(),
{
    if picks.len() > 0 {
        let before = after_run(b, picks.drop_last());
        lemma_run_keeps(b, picks.drop_last());
        lemma_routed_valid(before, picks.last());
        assert forall|k: int| 0 <= k < b.providers.len() implies (#[trigger] b.providers[k]).id
            == after_run(b, picks).providers[k].id && b.providers[k].weight == after_run(
            b,
            picks,
        ).providers[k].weight && b.providers[k].draining == after_run(
            b,
            picks,
        ).providers[k].draining by {
            assert(before.providers[k].id == b.providers[k].id);
        }
    }
}

/// A provider that takes no requests is never picked.
proof fn lemma_never_picked(b: BrokerView, picks: Seq<int>, j: int)
    requires
        valid_broker(b),
        picks_in_turn(b, picks),
        0 <= j < b.providers.len(),
        !routable(b.providers[j]),
    ensures
        times_picked(picks, j) == 0,
    decreases picks.len(),
{
    if picks.len() > 0 {
        lemma_never_picked(b, picks.drop_last(), j);
        lemma_run_keeps(b, picks.drop_last());
    }
}

/// A run of requests can be parted anywhere.
proof fn lemma_run_split(b: BrokerView, first: Seq<int>, rest: Seq<int>)
    requires
        picks_in_turn(b, first + rest),
    ensures
        picks_in_turn(b, first),
        picks_in_turn(after_run(b, first), rest),
        after_run(b, first + rest) == after_run(after_run(b, first), rest),
    decreases rest.len(),
{
    if rest.len() == 0 {
        assert(first + rest =~= first);
    } else {
        assert((first + rest).drop_last() =~= first + rest.drop_last());
        assert((first + rest).last() == rest.last());
        lemma_run_split(b, first, rest.drop_last());
    }
}

/// What a run of requests does to the credit of one provider.
proof fn lemma_run(b: BrokerView, picks: Seq<int>, j: int)
    requires
        valid_broker(b),
        b.policy == LoadBalancePolicy::RoundRobin,
        credits_fit(b),
        in_balance(b),
        picks_in_turn(b, picks),
        0 <= j < b.providers.len(),
        routable(b.providers[j]),
    ensures
        ({
            let after = after_run(b, picks);
            let round = weight_sum(b.providers, b.providers.len() as int);
            &&& valid_broker(after)
            &&& after.policy == b.policy
            &&& in_balance(after)
            &&& after.providers.len() == b.providers.len()
            &&& forall|k: int|
                0 <= k < b.providers.len() ==> (#[trigger] b.providers[k]).id
                    == after.providers[k].id && b.providers[k].weight == after.providers[k].weight
                    && b.providers[k].draining == after.providers[k].draining
            &&& credit(after.credits, b.providers[j].id) == credit(b.credits, b.providers[j].id)
                + picks.len() * b.providers[j].weight - times_picked(picks, j) * round
        }),
    decreases picks.len(),
{
    let n = b.providers.len() as int;
    let w = weight_sum(b.providers, n);
    if picks.len() > 0 {
        let before = after_run(b, picks.drop_last());
        let i = picks.last();
        lemma_run(b, picks.drop_last(), j);
        lemma_weight_sum_same(b.providers, before.providers, n);
        assert(routable(before.providers[j]));
        assert(credits_fit(before));
        law_round_robin_stays_in_balance(before, i);
        lemma_routed_valid(before, i);
        let v = b.providers[j].weight as int;
        let c = times_picked(picks.drop_last(), j) as int;
        let m = picks.len() as int;
        assert((m - 1) * v + v == m * v) by (nonlinear_arith);
        assert(c * w + w == (c + 1) * w) by (nonlinear_arith);
        assert forall|k: int| 0 <= k < n implies (#[trigger] b.providers[k]).id
            == after_run(b, picks).providers[k].id && b.providers[k].weight == after_run(
            b,
            picks,
        ).providers[k].weight && b.providers[k].draining == after_run(
            b,
            picks,
        ).providers[k].draining by {
            assert(before.providers[k].id == b.providers[k].id);
        }
    } else {
        assert(0 * w == 0) by (nonlinear_arith);
        assert(0 * b.providers[j].weight == 0);
    }
}

/// Where the sum of weights fits in 64 bits, it is what 64 bits hold of it.
proof fn lemma_weight_sum(b: BrokerView, n: int)
    requires
        0 <= n <= b.providers.len(),
        weight_sum(b.providers, n) <= i64::MAX,
    ensures
        0 <= weight_sum(b.providers, n),
        routable_weight(b.providers.take(n)) == weight_sum(b.providers, n),
    decreases n,
{
    if n > 0 {
        lemma_weight_nonnegative(b.providers, n - 1);
        lemma_weight_sum(b, n - 1);
        assert(b.providers.take(n).drop_last() == b.providers.take(n - 1));
    }
}

/// No weight is more than all of them.
proof fn lemma_weight_within(ps: Seq<ProviderView>, i: int, n: int)
    requires
        0 <= i < n <= ps.len(),
        routable(ps[i]),
    ensures
        ps[i].weight <= weight_sum(ps, n),
    decreases n,
{
    lemma_weight_nonnegative(ps, n - 1);
    if i < n - 1 {
        lemma_weight_within(ps, i, n - 1);
    }
}

proof fn lemma_weight_positive(ps: Seq<ProviderView>, i: int, n: int)
    requires
        0 <= i < n <= ps.len(),
        routable(ps[i]),
    ensures
        weight_sum(ps, n) > 0,
    decreases n,
{
    if i < n - 1 {
        lemma_weight_positive(ps, i, n - 1);
    } else {
        lemma_weight_nonnegative(ps, n - 1);
    }
}

proof fn lemma_weight_nonnegative(ps: Seq<ProviderView>, n: int)
    ensures
        weight_sum(ps, n) >= 0,
    decreases n,
{
    if n > 0 {
        lemma_weight_nonnegative(ps, n - 1);
    }
}

/// Where no credit is a whole round behind and all sum to nothing, none is
/// more rounds ahead than there are providers.
proof fn lemma_credit_bound(b: BrokerView, n: int, j: int, w: int)
    requires
        n == b.providers.len(),
        0 <= j < n,
        routable(b.providers[j]),
        w >= 0,
        credit_sum(b, n) == 0,
        forall|k: int|
            0 <= k < n && routable(#[trigger] b.providers[k]) ==> credit(
                b.credits,
                b.providers[k].id,
            ) > -w,
    ensures
        -w < credit(b.credits, b.providers[j].id) <= n * w,
{
    lemma_credit_sum_low(b, n, j, w);
}

proof fn lemma_credit_sum_low(b: BrokerView, n: int, j: int, w: int)
    requires
        0 <= n <= b.providers.len(),
        0 <= j < b.providers.len(),
        routable(b.providers[j]),
        w >= 0,
        forall|k: int|
            0 <= k < b.providers.len() && routable(#[trigger] b.providers[k]) ==> credit(
                b.credits,
                b.providers[k].id,
            ) > -w,
    ensures
        j >= n ==> credit_sum(b, n) >= -(n * w),
        j < n ==> credit_sum(b, n) >= credit(b.credits, b.providers[j].id) - n * w,
    decreases n,
{
    if n > 0 {
        lemma_credit_sum_low(b, n - 1, j, w);
        assert((n - 1) * w + w == n * w) by (nonlinear_arith);
        assert(routable(b.providers[n - 1]) ==> credit(b.credits, b.providers[n - 1].id) > -w);
    } else {
        assert(0 * w == 0);
    }
}

/// What one request does to the sum of the credits.
proof fn lemma_sum_after(b: BrokerView, i: int, n: int, w: int)
    requires
        0 <= n <= b.providers.len(),
        0 <= i < b.providers.len(),
        routable(b.providers[i]),
        forall|j: int|
            0 <= j < b.providers.len() && routable(#[trigger] b.providers[j]) ==> credit(
                routed(b, i).credits,
                b.providers[j].id,
            ) == credit(b.credits, b.providers[j].id) + b.providers[j].weight - (if j == i {
                w
            } else {
                0
            }),
    ensures
        credit_sum(routed(b, i), n) == credit_sum(b, n) + weight_sum(b.providers, n) - (if i < n {
            w
        } else {
            0
        }),
    decreases n,
{
    if n > 0 {
        lemma_sum_after(b, i, n - 1, w);
        let q = routed(b, i).providers[n - 1];
        assert(q.id == b.providers[n - 1].id);
        assert(routable(q) == routable(b.providers[n - 1]));
    }
}

proof fn lemma_weight_sum_same(ps: Seq<ProviderView>, qs: Seq<ProviderView>, n: int)
    requires
        0 <= n <= ps.len(),
        ps.len() == qs.len(),
        forall|j: int|
            0 <= j < ps.len() ==> (#[trigger] ps[j]).weight == qs[j].weight && ps[j].draining
                == qs[j].draining,
    ensures
        weight_sum(ps, n) == weight_sum(qs, n),
    decreases n,
{
    if n > 0 {
        lemma_weight_sum_same(ps, qs, n - 1);
        assert(ps[n - 1].weight == qs[n - 1].weight);
    }
}

/// Credits and weights cannot sum to more than nothing where no provider is
/// above nothing.
proof fn lemma_bumps_not_positive(b: BrokerView, n: int)
    requires
        0 <= n <= b.providers.len(),
        forall|j: int|
            0 <= j < b.providers.len() && routable(#[trigger] b.providers[j]) ==> credit(
                b.credits,
                b.providers[j].id,
            ) + b.providers[j].weight <= 0,
    ensures
        credit_sum(b, n) + weight_sum(b.providers, n) <= 0,
    decreases n,
{
    if n > 0 {
        lemma_bumps_not_positive(b, n - 1);
        assert(routable(b.providers[n - 1]) ==> credit(b.credits, b.providers[n - 1].id)
            + b.providers[n - 1].weight <= 0);
    }
}

/// The sum of some numbers.
pub open spec fn sum_of(s: Seq<int>) -> int
    decreases s.len(),
{
    if s.len() == 0 {
        0
    } else {
        sum_of(s.drop_last()) + s.last()
    }
}

/// The weights of all providers but the one at `t`, in order.
pub open spec fn weights_but(ps: Seq<ProviderView>, t: int) -> Seq<int> {
    Seq::new(
        ps.len(),
        |i: int|
            if i == t {
                0
            } else {
                ps[i].weight as int
            },
    )
}

/// The weights of all providers, in order.
pub open spec fn weights_in(ps: Seq<ProviderView>) -> Seq<int> {
    Seq::new(ps.len(), |i: int| ps[i].weight as int)
}

proof fn lemma_sum_but(ps: Seq<ProviderView>, t: int, n: int)
    requires
        0 <= n <= ps.len(),
    ensures
        sum_of(weights_but(ps, t).take(n)) == other_weight(ps, t, n),
        sum_of(weights_in(ps).take(n)) == other_weight(ps, t, n) + (if 0 <= t < n {
            ps[t].weight as int
        } else {
            0
        }),
    decreases n,
{
    let a = weights_but(ps, t).take(n);
    let b = weights_in(ps).take(n);
    if n > 0 {
        lemma_sum_but(ps, t, n - 1);
        assert(a.drop_last() =~= weights_but(ps, t).take(n - 1));
        assert(b.drop_last() =~= weights_in(ps).take(n - 1));
        assert(a.last() == weights_but(ps, t)[n - 1]);
        assert(b.last() == weights_in(ps)[n - 1]);
    }
}

/// What the first `n` of the others weigh after they bore their shares.
proof fn lemma_thinned_weight(ps: Seq<ProviderView>, t: int, step: int, n: int)
    requires
        0 <= t < ps.len(),
        0 <= n <= ps.len(),
        0 <= step,
        reduction(ps, t, step) > 0,
        forall|i: int| 0 <= i < ps.len() ==> (#[trigger] ps[i]).weight <= 100,
    ensures
        ({
            let cut = reduction(ps, t, step);
            other_weight(shifted(ps, t, step), t, n) == other_weight(ps, t, n) - (cut - left_after(
                ps,
                t,
                cut,
                n,
            ))
        }),
    decreases n,
{
    let cut = reduction(ps, t, step);
    if n > 0 {
        lemma_thinned_weight(ps, t, step, n - 1);
        lemma_left(ps, t, cut, n - 1);
        lemma_share(ps, t, cut, n - 1, left_after(ps, t, cut, n - 1));
        assert(ps[n - 1].weight <= 100);
        assert(shifted(ps, t, step)[n - 1] == shifted(ps, t, step)[n - 1]);
    }
}

/// What a step of a shift moves, weight by weight. The step counts up to one
/// hundred and up to what the other providers have together; the target gains
/// just that, up to one hundred in all. The others together give up no more,
/// and just as much where one of them stands alone, where all of their weight
/// goes, or where the last of them keeps any: then the weights add up to what
/// they did before, unless the target would pass one hundred.
pub proof fn law_shift_moves_the_step(ps: Seq<ProviderView>, t: int, step: int)
    requires
        0 <= t < ps.len(),
        0 <= step,
        forall|i: int| 0 <= i < ps.len() ==> (#[trigger] ps[i]).weight <= 100,
    ensures
        ({
            let q = shifted(ps, t, step);
            let had = sum_of(weights_but(ps, t));
            let have = sum_of(weights_but(q, t));
            let capped = if step <= 100 {
                step
            } else {
                100
            };
            let moved = if capped <= had {
                capped
            } else {
                had
            };
            let last = if t == ps.len() - 1 {
                ps.len() - 2
            } else {
                ps.len() - 1
            };
            &&& q.len() == ps.len()
            &&& ps[t].weight + moved <= 100 ==> q[t].weight == ps[t].weight + moved
            &&& ps[t].weight + moved > 100 ==> q[t].weight == 100
            &&& !q[t].draining
            &&& 0 <= had - have <= moved
            &&& (ps.len() == 2 || moved == had || (last >= 0 && q[last].weight > 0)) ==> {
                &&& had - have == moved
                &&& ps[t].weight + moved <= 100 ==> sum_of(weights_in(q)) == sum_of(weights_in(ps))
            }
        }),
{
    let n = ps.len() as int;
    let q = shifted(ps, t, step);
    let cut = reduction(ps, t, step);
    lemma_sum_but(ps, t, n);
    lemma_sum_but(q, t, n);
    assert(weights_but(ps, t).take(n) =~= weights_but(ps, t));
    assert(weights_but(q, t).take(n) =~= weights_but(q, t));
    assert(weights_in(ps).take(n) =~= weights_in(ps));
    assert(weights_in(q).take(n) =~= weights_in(q));
    assert(ps[t].weight <= 100);
    if cut > 0 {
        lemma_thinned_weight(ps, t, step, n);
        lemma_left(ps, t, cut, n);
        let last = last_other(n, t);
        assert(last >= 0) by {
            if n == 1 {
                assert(other_weight(ps, t, 1) == other_weight(ps, t, 0));
            }
        }
        lemma_left(ps, t, cut, last);
        let left = left_after(ps, t, cut, last);
        lemma_share(ps, t, cut, last, left);
        assert(left_after(ps, t, cut, last + 1) == left - share_of(ps, t, cut, last, left));
        if last + 1 < n {
            assert(last + 1 == t);
            assert(left_after(ps, t, cut, n) == left_after(ps, t, cut, last + 1));
        }
        assert(q[last] == thinned(ps, t, cut, last));
        if q[last].weight > 0 {
            assert(share_of(ps, t, cut, last, left) == left);
        }
        if cut == other_weight(ps, t, n) {
            lemma_all_taken(ps, t, last);
            lemma_other_weight_parts(ps, t, last, n);
        }
        if n == 2 {
            assert(last == 1 - t);
            assert(other_weight(ps, t, 0) == 0);
            assert(other_weight(ps, t, 1) == if t == 0 {
                0nat
            } else {
                ps[0].weight as nat
            });
            assert(left_after(ps, t, cut, 0) == cut);
            assert(left_after(ps, t, cut, last) == cut);
        }
    } else {
        assert forall|i: int| 0 <= i < n implies weights_but(q, t)[i] == #[trigger] weights_but(
            ps,
            t,
        )[i] by {}
        assert(weights_but(q, t) =~= weights_but(ps, t));
    }
}

/// The others give up weight by their part of it: each but the last loses the
/// step times its weight over the weight of all of them, rounded down.
pub proof fn law_shift_is_by_weight(ps: Seq<ProviderView>, t: int, step: int, i: int)
    requires
        0 <= t < ps.len(),
        0 <= step <= sum_of(weights_but(ps, t)),
        step <= 100,
        forall|k: int| 0 <= k < ps.len() ==> (#[trigger] ps[k]).weight <= 100,
        0 <= i < ps.len() && i != t,
        i < ps.len() - 2 || (i == ps.len() - 2 && t != ps.len() - 1),
    ensures
        sum_of(weights_but(ps, t)) > 0 ==> shifted(ps, t, step)[i].weight == ps[i].weight - (step
            * ps[i].weight as int) / sum_of(weights_but(ps, t)),
        shifted(ps, t, step)[i].weight == 0 && step > 0 ==> shifted(ps, t, step)[i].draining,
{
    let n = ps.len() as int;
    lemma_sum_but(ps, t, n);
    assert(weights_but(ps, t).take(n) =~= weights_but(ps, t));
    let total = other_weight(ps, t, n) as int;
    assert(ps[i].weight <= 100);
    if step > 0 {
        lemma_floor_left(ps, t, step, i);
        let w = ps[i].weight as int;
        assert((step * w) / total <= w && (step * w) / total >= 0) by (nonlinear_arith)
            requires
                0 < step <= total,
                w >= 0,
        ;
    } else {
        let w = ps[i].weight as int;
        if total > 0 {
            assert((step * w) / total == 0) by (nonlinear_arith)
                requires
                    step == 0,
                    total > 0,
            ;
        }
    }
}

/// Before the last of the others, what is left covers each rounded part.
proof fn lemma_floor_left(ps: Seq<ProviderView>, t: int, cut: int, i: int)
    requires
        0 <= t < ps.len(),
        0 < cut <= other_weight(ps, t, ps.len() as int),
        0 <= i < ps.len(),
        i <= last_other(ps.len() as int, t),
    ensures
        ({
            let total = other_weight(ps, t, ps.len() as int) as int;
            left_after(ps, t, cut, i) * total >= cut * (total - other_weight(ps, t, i))
        }),
        i != t && i < last_other(ps.len() as int, t) ==> (cut * ps[i].weight as int) / (
        other_weight(ps, t, ps.len() as int) as int) <= left_after(ps, t, cut, i),
    decreases i,
{
    let n = ps.len() as int;
    let total = other_weight(ps, t, n) as int;
    let o = other_weight(ps, t, i) as int;
    if i == 0 {
        assert(left_after(ps, t, cut, 0) == cut);
        assert(cut * total >= cut * (total - o)) by (nonlinear_arith)
            requires
                o == 0,
        ;
    } else {
        lemma_floor_left(ps, t, cut, i - 1);
        let before = left_after(ps, t, cut, i - 1);
        let ob = other_weight(ps, t, i - 1) as int;
        let w = ps[i - 1].weight as int;
        if i - 1 != t {
            lemma_left(ps, t, cut, i - 1);
            lemma_share(ps, t, cut, i - 1, before);
            let s = share_of(ps, t, cut, i - 1, before);
            assert(i - 1 < last_other(n, t));
            assert(s <= (cut * w) / total);
            let left = left_after(ps, t, cut, i);
            assert(left == before - s);
            assert(left * total >= cut * (total - (ob + w))) by (nonlinear_arith)
                requires
                    left == before - s,
                    s <= (cut * w) / total,
                    before * total >= cut * (total - ob),
                    total > 0,
            {
                assert(s * total <= cut * w) by (nonlinear_arith)
                    requires
                        s <= (cut * w) / total,
                        total > 0,
                ;
                assert((before - s) * total == before * total - s * total) by (nonlinear_arith);
                assert(cut * (total - (ob + w)) == cut * (total - ob) - cut * w) by (nonlinear_arith);
            }
        }
    }
    if i != t && i < last_other(n, t) {
        let w = ps[i].weight as int;
        let left = left_after(ps, t, cut, i);
        lemma_other_weight_parts(ps, t, i, n);
        assert((cut * w) / total <= left) by (nonlinear_arith)
            requires
                left * total >= cut * (total - o),
                total - o >= w,
                w >= 0,
                cut > 0,
                total > 0,
        {
            assert(cut * (total - o) >= cut * w) by (nonlinear_arith)
                requires
                    total - o >= w,
                    cut > 0,
            ;
            assert(left * total >= cut * w);
            assert((cut * w) / total <= left) by (nonlinear_arith)
                requires
                    left * total >= cut * w,
                    total > 0,
            ;
        }
    }
}

/// A call goes to a provider that takes calls: one that carries weight and does
/// not drain. Where the least loaded one is wanted, none that takes calls has
/// fewer running.
pub proof fn law_calls_go_where_they_are_taken(b: BrokerView, i: int, j: int)
    requires
        selects(b, i),
        0 <= j < b.providers.len(),
        !b.providers[j].draining,
        b.providers[j].weight > 0,
    ensures
        0 <= i < b.providers.len(),
        !b.providers[i].draining,
        b.providers[i].weight > 0,
        b.policy == LoadBalancePolicy::LeastLoaded ==> b.providers[i].in_flight <= b.providers[j].in_flight,
        b.policy == LoadBalancePolicy::LeastLoaded && b.providers[i].in_flight == b.providers[j].in_flight
            ==> i <= j,
{
    assert(routable(b.providers[j]));
}

/// A call counts at the provider that gets it, as one that runs and one that
/// was given; the others are as they were.
pub proof fn law_call_counts_where_it_goes(b: BrokerView, i: int, j: int)
    requires
        0 <= i < b.providers.len(),
        0 <= j < b.providers.len(),
        b.providers[i].in_flight < u64::MAX,
        b.providers[i].total_dispatched < u64::MAX,
    ensures
        routed(b, i).providers.len() == b.providers.len(),
        routed(b, i).providers[i].in_flight == b.providers[i].in_flight + 1,
        routed(b, i).providers[i].total_dispatched == b.providers[i].total_dispatched + 1,
        routed(b, i).providers[i].id == b.providers[i].id,
        routed(b, i).providers[i].weight == b.providers[i].weight,
        routed(b, i).providers[i].draining == b.providers[i].draining,
        j != i ==> routed(b, i).providers[j] == b.providers[j],
        routed(b, i).policy == b.policy,
{
}

/// A provider is added at the end, with its weight up to a hundred, taking calls
/// and without any; one that is known is left as it is.
pub proof fn law_providers_are_added_once(b: BrokerView, id: Seq<char>, weight: u32)
    ensures
        (forall|i: int| 0 <= i < b.providers.len() ==> (#[trigger] b.providers[i]).id != id) ==> {
            let p = with_provider(b, id, weight).providers.last();
            &&& with_provider(b, id, weight).providers.len() == b.providers.len() + 1
            &&& with_provider(b, id, weight).providers.drop_last() == b.providers
            &&& p.id == id
            &&& weight <= 100 ==> p.weight == weight
            &&& weight > 100 ==> p.weight == 100
            &&& !p.draining
            &&& p.in_flight == 0
            &&& p.total_dispatched == 0
        },
        (exists|i: int| 0 <= i < b.providers.len() && (#[trigger] b.providers[i]).id == id) ==> with_provider(
            b,
            id,
            weight,
        ) == b,
        with_provider(b, id, weight).policy == b.policy,
{
    if forall|i: int| 0 <= i < b.providers.len() ==> (#[trigger] b.providers[i]).id != id {
        assert(with_provider(b, id, weight).providers.drop_last() =~= b.providers);
    }
}

/// A provider that leaves takes nothing else along; the last one takes its
/// service.
pub proof fn law_one_provider_leaves(m: Map<Seq<char>, BrokerView>, key: Seq<char>, i: int, j: int, other: Seq<char>)
    requires
        m.dom().contains(key),
        valid_broker(m[key]),
        0 <= i < m[key].providers.len(),
        0 <= j < m[key].providers.len(),
        j != i,
        other != key,
    ensures
        ({
            let after = without_provider(m, key, m[key].providers[i].id);
            &&& after.dom().contains(key)
            &&& after[key].providers.len() == m[key].providers.len() - 1
            &&& has_provider(after[key].providers, m[key].providers[j].id)
            &&& !has_provider(after[key].providers, m[key].providers[i].id)
            &&& after.dom().contains(other) == m.dom().contains(other)
            &&& m.dom().contains(other) ==> after[other] == m[other]
        }),
{
    let ps = m[key].providers;
    let id = ps[i].id;
    assert(has_provider(ps, id));
    let at = provider_index(ps, id);
    assert(at == i) by {
        if at < i {
            assert(ps[at].id != ps[i].id);
        }
        if i < at {
            assert(ps[i].id != ps[at].id);
        }
    }
    let rest = ps.remove(i);
    let k = if j < i {
        j
    } else {
        j - 1
    };
    assert(rest[k] == ps[j]);
    assert(rest.len() > 0);
    if has_provider(rest, id) {
        let a = choose|a: int| 0 <= a < rest.len() && (#[trigger] rest[a]).id == id;
        if a < i {
            assert(rest[a] == ps[a]);
        } else {
            assert(rest[a] == ps[a + 1]);
        }
    }
}

/// A provider is busy while it has calls that run.
pub proof fn law_busy_providers_have_calls(m: Map<Seq<char>, BrokerView>, key: Seq<char>, i: int)
    requires
        m.dom().contains(key),
        valid_broker(m[key]),
        0 <= i < m[key].providers.len(),
    ensures
        busy_provider(m, key, m[key].providers[i].id) <==> m[key].providers[i].in_flight > 0,
{
    let ps = m[key].providers;
    let at = provider_index(ps, ps[i].id);
    assert(has_provider(ps, ps[i].id));
    assert(at == i) by {
        if at < i {
            assert(ps[at].id != ps[i].id);
        }
        if i < at {
            assert(ps[i].id != ps[at].id);
        }
    }
}

/// Reaping takes the providers that drain, carry nothing and run nothing, and
/// only those; their names are told.
pub proof fn law_reaping_takes_the_drained(ps: Seq<ProviderView>, i: int)
    requires
        0 <= i < ps.len(),
    ensures
        ps[i].draining && ps[i].weight == 0 && ps[i].in_flight == 0 ==> drained_ids(ps).contains(ps[i].id),
        !(ps[i].draining && ps[i].weight == 0 && ps[i].in_flight == 0) ==> undrained(ps).contains(ps[i]),
        undrained(ps).len() + drained_ids(ps).len() == ps.len(),
        forall|k: int|
            0 <= k < undrained(ps).len() ==> !((#[trigger] undrained(ps)[k]).draining && undrained(
                ps,
            )[k].weight == 0 && undrained(ps)[k].in_flight == 0),
    decreases ps.len(),
{
    let t = ps.drop_last();
    let stay = undrained(ps);
    let gone = drained_ids(ps);
    if t.len() > 0 {
        law_reaping_takes_the_drained(t, if i < t.len() {
            i
        } else {
            0
        });
    } else {
        assert(undrained(t).len() == 0 && drained_ids(t).len() == 0);
    }
    assert forall|k: int| 0 <= k < stay.len() implies !((#[trigger] stay[k]).draining && stay[k].weight
        == 0 && stay[k].in_flight == 0) by {
        if k < undrained(t).len() {
            assert(stay[k] == undrained(t)[k]);
        }
    }
    if i < t.len() {
        assert(t[i] == ps[i]);
        if drained(ps[i]) {
            let k = choose|k: int| 0 <= k < drained_ids(t).len() && drained_ids(t)[k] == ps[i].id;
            assert(gone[k] == ps[i].id);
        } else {
            let k = choose|k: int| 0 <= k < undrained(t).len() && undrained(t)[k] == ps[i];
            assert(stay[k] == ps[i]);
        }
    } else {
        if drained(ps[i]) {
            assert(gone[drained_ids(t).len() as int] == ps[i].id);
        } else {
            assert(stay[undrained(t).len() as int] == ps[i]);
        }
    }
}

/// A shift is complete where the target carries everything and the others
/// carry nothing.
pub proof fn law_complete_shift_leaves_nothing(ps: Seq<ProviderView>, target: int, i: int)
    requires
        0 <= target < ps.len(),
        0 <= i < ps.len(),
        i != target,
        ps[target].weight <= 100,
    ensures
        fully_shifted(ps, target) ==> ps[target].weight == 100 && ps[i].weight == 0,
        ps.len() == 2 && ps[target].weight == 100 && ps[i].weight == 0 ==> fully_shifted(ps, target),
        ps[target].weight < 100 || ps[i].weight > 0 ==> !fully_shifted(ps, target),
{
}

/// Shifting touches the named service alone, and nothing where the provider is
/// not known.
pub proof fn law_shifting_touches_one_service(
    m: Map<Seq<char>, BrokerView>,
    key: Seq<char>,
    id: Seq<char>,
    step: int,
    other: Seq<char>,
)
    ensures
        other != key ==> traffic_shifted(m, key, id, step).dom().contains(other) == m.dom().contains(other),
        other != key && m.dom().contains(other) ==> traffic_shifted(m, key, id, step)[other] == m[other],
        !m.dom().contains(key) ==> traffic_shifted(m, key, id, step) == m,
        m.dom().contains(key) && (forall|i: int|
            0 <= i < m[key].providers.len() ==> (#[trigger] m[key].providers[i]).id != id)
            ==> traffic_shifted(m, key, id, step) == m,
        m.dom().contains(key) ==> traffic_shifted(m, key, id, step)[key].policy == m[key].policy,
{
}

/// A service has a provider for a call where one takes calls; a new one has no
/// provider.
pub proof fn law_service_is_served_where_one_takes_calls(b: BrokerView, i: int, policy: LoadBalancePolicy)
    ensures
        b.policy == LoadBalancePolicy::LeastLoaded && 0 <= i < b.providers.len()
            && !b.providers[i].draining && b.providers[i].weight > 0 ==> can_select(b),
        (forall|j: int|
            0 <= j < b.providers.len() ==> (#[trigger] b.providers[j]).draining || b.providers[j].weight
                == 0) ==> !can_select(b),
        new_broker(policy).providers.len() == 0,
        new_broker(policy).policy == policy,
{
    if b.policy == LoadBalancePolicy::LeastLoaded && 0 <= i < b.providers.len()
        && !b.providers[i].draining && b.providers[i].weight > 0 {
        assert(routable(b.providers[i]));
    }
}

} // verus!

//! What holds of a pool over any sequence of steps of the dispatches in it.
use crate::pool;
use crate::pool::{DispatchCostClass, PoolView, SlotView};
use vstd::prelude::*;

verus! {

// ---------------------------------------------------------------------------
// Dispatches and their steps
// ---------------------------------------------------------------------------
/// How far a dispatch has come.
pub enum Stage {
    /// It was admitted.
    Admitted,
    /// It drew a ticket and waits for a slot.
    Waiting,
    /// It holds a slot.
    Holding(int),
    /// It gave its slot back.
    Released,
    /// Its admission has ended.
    Gone,
}

/// A dispatch in a pool: its class, whether its admission counts against the
/// heavy limit, the ticket that it drew, and how far it has come.
pub struct DispatchView {
    pub class: DispatchCostClass,
    pub counted: bool,
    pub ticket: Option<u64>,
    pub stage: Stage,
}

/// A pool and all dispatches that were ever admitted to it.
pub struct PoolRun {
    pub pool: PoolView,
    pub dispatches: Seq<DispatchView>,
}

/// A step in a pool. Dispatches are named by the order of their admission. What
/// the slots hold and what is to leave them may change at any time.
pub enum PoolStep {
    Admit { class: DispatchCostClass },
    Draw { d: int },
    Take { d: int, slot: int },
    End { d: int, succeeded: bool },
    Leave { d: int },
    Contents { slots: Seq<SlotView>, pending: Set<Seq<char>> },
}

/// A dispatch that has come further.
pub open spec fn moved_on(ds: Seq<DispatchView>, d: int, stage: Stage) -> Seq<DispatchView> {
    ds.update(d, DispatchView { stage, ..ds[d] })
}

/// Whether slots have the same holders.
pub open spec fn same_holders(a: Seq<SlotView>, b: Seq<SlotView>) -> bool {
    a.len() == b.len() && forall|i: int|
        0 <= i < a.len() ==> (#[trigger] a[i]).holder == b[i].holder
}

/// Whether a step can come: an admission where the pool admits, a slot for the
/// dispatch whose turn it is, and an end for what has begun.
pub open spec fn can_step(r: PoolRun, s: PoolStep) -> bool {
    match s {
        PoolStep::Admit { class } => pool::can_admit(r.pool, class),
        PoolStep::Draw { d } => 0 <= d < r.dispatches.len() && r.dispatches[d].stage is Admitted,
        PoolStep::Take { d, slot } => 0 <= d < r.dispatches.len() && r.dispatches[d].stage is Waiting
            && r.dispatches[d].ticket == Some(
            pool::class_queue(r.pool.queue, r.dispatches[d].class).now_serving,
        ) && pool::first_free(r.pool.slots, slot),
        PoolStep::End { d, .. } => 0 <= d < r.dispatches.len() && r.dispatches[d].stage is Holding,
        PoolStep::Leave { d } => 0 <= d < r.dispatches.len() && (r.dispatches[d].stage is Admitted
            || r.dispatches[d].stage is Released),
        PoolStep::Contents { slots, .. } => same_holders(r.pool.slots, slots),
    }
}

/// The pool and its dispatches after a step, as the functions that make it say.
pub open spec fn stepped(r: PoolRun, s: PoolStep) -> PoolRun {
    match s {
        PoolStep::Admit { class } => PoolRun {
            pool: pool::admitted(r.pool, class),
            dispatches: r.dispatches.push(
                DispatchView {
                    class,
                    counted: pool::is_counted(r.pool, class),
                    ticket: None,
                    stage: Stage::Admitted,
                },
            ),
        },
        PoolStep::Draw { d } => PoolRun {
            pool: pool::ticket_drawn(r.pool, r.dispatches[d].class),
            dispatches: r.dispatches.update(
                d,
                DispatchView {
                    ticket: Some(
                        pool::class_queue(r.pool.queue, r.dispatches[d].class).next_ticket,
                    ),
                    stage: Stage::Waiting,
                    ..r.dispatches[d]
                },
            ),
        },
        PoolStep::Take { d, slot } => PoolRun {
            pool: pool::slot_taken(r.pool, r.dispatches[d].class, slot),
            dispatches: moved_on(r.dispatches, d, Stage::Holding(slot)),
        },
        PoolStep::End { d, succeeded } => PoolRun {
            pool: pool::dispatch_ended(r.pool, r.dispatches[d].stage->Holding_0, succeeded),
            dispatches: moved_on(r.dispatches, d, Stage::Released),
        },
        PoolStep::Leave { d } => PoolRun {
            pool: pool::admission_ended(r.pool, r.dispatches[d].counted),
            dispatches: moved_on(r.dispatches, d, Stage::Gone),
        },
        PoolStep::Contents { slots, pending } => PoolRun {
            pool: PoolView { slots, pending, ..r.pool },
            dispatches: r.dispatches,
        },
    }
}

/// A pool of `size` slots after a sequence of steps.
pub open spec fn run_of(name: Seq<char>, size: nat, steps: Seq<PoolStep>) -> PoolRun
    decreases steps.len(),
{
    if steps.len() == 0 {
        PoolRun { pool: pool::new_pool(name, size), dispatches: Seq::empty() }
    } else {
        stepped(run_of(name, size, steps.drop_last()), steps.last())
    }
}

/// Whether steps can come like this.
pub open spec fn can_run(name: Seq<char>, size: nat, steps: Seq<PoolStep>) -> bool
    decreases steps.len(),
{
    steps.len() > 0 ==> can_run(name, size, steps.drop_last()) && can_step(
        run_of(name, size, steps.drop_last()),
        steps.last(),
    )
}

/// Every change of contents leaves the holders and the waiting lines alone, so
/// that it may come at any time.
pub proof fn law_contents_change_no_holder(
    p: PoolView,
    i: int,
    hash: Seq<char>,
    content: Option<Seq<char>>,
    replaced: Seq<(int, Option<Seq<char>>)>,
)
    requires
        0 <= i < p.slots.len(),
    ensures
        same_holders(p.slots, pool::evicted_of(p.slots, hash)),
        same_holders(p.slots, pool::all_free_evicted(p.slots)),
        same_holders(p.slots, pool::with_content(p, i, content).slots),
        same_holders(p.slots, pool::pending_evicted(p, i).slots),
        same_holders(p.slots, pool::put_back(p.slots, replaced)),
        pool::with_content(p, i, content).queue == p.queue,
        pool::pending_evicted(p, i).queue == p.queue,
{
    lemma_put_back_holders(p.slots, replaced);
}

proof fn lemma_put_back_holders(slots: Seq<SlotView>, replaced: Seq<(int, Option<Seq<char>>)>)
    ensures
        same_holders(slots, pool::put_back(slots, replaced)),
    decreases replaced.len(),
{
    if replaced.len() > 0 {
        let (i, prior) = replaced.last();
        let s = if 0 <= i < slots.len() && slots[i].holder is None {
            slots.update(i, SlotView { content: prior, holder: None })
        } else {
            slots
        };
        lemma_put_back_holders(s, replaced.drop_last());
        assert forall|k: int| 0 <= k < slots.len() implies (#[trigger] slots[k]).holder
            == pool::put_back(slots, replaced)[k].holder by {
            assert(slots[k].holder == s[k].holder);
        }
    }
}

// ---------------------------------------------------------------------------
// Counting
// ---------------------------------------------------------------------------
/// How many of the dispatches are such.
pub open spec fn how_many(ds: Seq<DispatchView>, such: spec_fn(DispatchView) -> bool) -> nat
    decreases ds.len(),
{
    if ds.len() == 0 {
        0
    } else {
        how_many(ds.drop_last(), such) + if such(ds.last()) {
            1nat
        } else {
            0nat
        }
    }
}

/// A dispatch whose admission counts and has not ended.
pub open spec fn is_admitted_heavy() -> spec_fn(DispatchView) -> bool {
    |d: DispatchView| d.counted && !(d.stage is Gone)
}

/// A heavy dispatch that holds a slot.
pub open spec fn holds_heavy() -> spec_fn(DispatchView) -> bool {
    |d: DispatchView| d.class == DispatchCostClass::Heavy && d.stage is Holding
}

/// A dispatch of a class that drew a ticket.
pub open spec fn has_drawn(class: DispatchCostClass) -> spec_fn(DispatchView) -> bool {
    |d: DispatchView| d.class == class && d.ticket is Some
}

proof fn lemma_one_changed(
    ds: Seq<DispatchView>,
    i: int,
    d: DispatchView,
    such: spec_fn(DispatchView) -> bool,
)
    requires
        0 <= i < ds.len(),
    ensures
        how_many(ds.update(i, d), such) + (if such(ds[i]) {
            1int
        } else {
            0
        }) == how_many(ds, such) + (if such(d) {
            1int
        } else {
            0
        }),
    decreases ds.len(),
{
    let t = ds.drop_last();
    if i < t.len() {
        lemma_one_changed(t, i, d, such);
        assert(ds.update(i, d).drop_last() =~= t.update(i, d));
    } else {
        assert(ds.update(i, d).drop_last() =~= t);
    }
}

proof fn lemma_one_more(
    ds: Seq<DispatchView>,
    d: DispatchView,
    such: spec_fn(DispatchView) -> bool,
)
    ensures
        how_many(ds.push(d), such) == how_many(ds, such) + (if such(d) {
            1int
        } else {
            0
        }),
{
    assert(ds.push(d).drop_last() =~= ds);
}

/// What is so of fewer dispatches is so of no more.
proof fn lemma_fewer(
    ds: Seq<DispatchView>,
    few: spec_fn(DispatchView) -> bool,
    many: spec_fn(DispatchView) -> bool,
)
    requires
        forall|i: int| 0 <= i < ds.len() && few(#[trigger] ds[i]) ==> many(ds[i]),
    ensures
        how_many(ds, few) <= how_many(ds, many) <= ds.len(),
    decreases ds.len(),
{
    if ds.len() > 0 {
        let t = ds.drop_last();
        assert forall|i: int| 0 <= i < t.len() && few(#[trigger] t[i]) implies many(t[i]) by {
            assert(t[i] == ds[i]);
        }
        lemma_fewer(t, few, many);
        assert(ds[ds.len() - 1] == ds.last());
    }
}

/// Where one of them is not such, not all are.
proof fn lemma_not_all(ds: Seq<DispatchView>, such: spec_fn(DispatchView) -> bool, i: int)
    requires
        0 <= i < ds.len(),
        !such(ds[i]),
    ensures
        how_many(ds, such) < ds.len(),
    decreases ds.len(),
{
    let t = ds.drop_last();
    if i < t.len() {
        lemma_not_all(t, such, i);
    } else {
        lemma_fewer(t, such, such);
    }
}

proof fn lemma_holder_changed(slots: Seq<SlotView>, i: int, s: SlotView, n: int)
    requires
        0 <= i < slots.len(),
        0 <= n <= slots.len(),
    ensures
        pool::count_heavy(slots.update(i, s), n) + (if i < n && slots[i].holder == Some(
            DispatchCostClass::Heavy,
        ) {
            1int
        } else {
            0
        }) == pool::count_heavy(slots, n) + (if i < n && s.holder == Some(
            DispatchCostClass::Heavy,
        ) {
            1int
        } else {
            0
        }),
    decreases n,
{
    if n > 0 {
        lemma_holder_changed(slots, i, s, n - 1);
    }
}

proof fn lemma_same_holders_count(a: Seq<SlotView>, b: Seq<SlotView>, n: int)
    requires
        same_holders(a, b),
        0 <= n <= a.len(),
    ensures
        pool::count_heavy(a, n) == pool::count_heavy(b, n),
    decreases n,
{
    if n > 0 {
        lemma_same_holders_count(a, b, n - 1);
        assert(a[n - 1].holder == b[n - 1].holder);
    }
}

// ---------------------------------------------------------------------------
// What every run keeps
// ---------------------------------------------------------------------------
/// Whether a dispatch is of the class and waits with the ticket.
pub open spec fn waits_with(d: DispatchView, class: DispatchCostClass, ticket: int) -> bool {
    d.stage is Waiting && d.class == class && d.ticket is Some && d.ticket->0 == ticket
}

/// Whether a dispatch of the class waits with the ticket.
pub open spec fn someone_waits(ds: Seq<DispatchView>, class: DispatchCostClass, ticket: int) -> bool {
    exists|i: int|
        0 <= i < ds.len() && waits_with(#[trigger] ds[i], class, ticket)
}

/// The admissions: the pool counts those that have not ended.
spec fn admissions_kept(r: PoolRun) -> bool {
    &&& pool::valid_pool(r.pool)
    &&& r.pool.slots.len() <= usize::MAX
    &&& r.pool.queue.heavy_inflight == how_many(r.dispatches, is_admitted_heavy())
    &&& forall|i: int|
        0 <= i < r.dispatches.len() ==> (#[trigger] r.dispatches[i]).counted == pool::is_counted(
            r.pool,
            r.dispatches[i].class,
        )
}

/// The slots: each dispatch that holds one is noted there, and no two hold the
/// same.
spec fn slots_kept(r: PoolRun) -> bool {
    &&& pool::count_heavy(r.pool.slots, r.pool.slots.len() as int) == how_many(
        r.dispatches,
        holds_heavy(),
    )
    &&& forall|i: int|
        0 <= i < r.dispatches.len() ==> ((#[trigger] r.dispatches[i]).stage matches Stage::Holding(
            s,
        ) ==> 0 <= s < r.pool.slots.len() && r.pool.slots[s].holder == Some(
            r.dispatches[i].class,
        ))
    &&& forall|i: int, j: int|
        0 <= i < j < r.dispatches.len() && (#[trigger] r.dispatches[i]).stage is Holding && (
        #[trigger] r.dispatches[j]).stage is Holding ==> r.dispatches[i].stage->Holding_0
            != r.dispatches[j].stage->Holding_0
}

/// The waiting line of a class.
spec fn line_kept(r: PoolRun, class: DispatchCostClass) -> bool {
    let q = pool::class_queue(r.pool.queue, class);
    &&& q.now_serving <= q.next_ticket
    &&& q.next_ticket == how_many(r.dispatches, has_drawn(class))
    &&& forall|t: int|
        q.now_serving <= t < q.next_ticket ==> #[trigger] someone_waits(r.dispatches, class, t)
    &&& forall|i: int|
        0 <= i < r.dispatches.len() && (#[trigger] r.dispatches[i]).class == class
            ==> (r.dispatches[i].ticket matches Some(t) ==> t < q.next_ticket && (
        r.dispatches[i].stage is Waiting <==> t >= q.now_serving))
    &&& forall|i: int, j: int|
        0 <= i < j < r.dispatches.len() && (#[trigger] r.dispatches[i]).class == class && (
        #[trigger] r.dispatches[j]).class == class && r.dispatches[i].ticket is Some
            ==> r.dispatches[i].ticket != r.dispatches[j].ticket
}

/// A dispatch has a ticket from when it waits until it has given its slot back,
/// and none before.
spec fn tickets_kept(r: PoolRun) -> bool {
    forall|i: int|
        0 <= i < r.dispatches.len() ==> {
            let d = #[trigger] r.dispatches[i];
            &&& d.stage is Admitted ==> d.ticket is None
            &&& d.stage is Waiting || d.stage is Holding || d.stage is Released ==> d.ticket is Some
        }
}

spec fn all_kept(r: PoolRun) -> bool {
    &&& admissions_kept(r)
    &&& slots_kept(r)
    &&& line_kept(r, DispatchCostClass::Cheap)
    &&& line_kept(r, DispatchCostClass::Heavy)
    &&& tickets_kept(r)
}

proof fn lemma_begins(name: Seq<char>, size: nat)
    requires
        size <= usize::MAX,
    ensures
        all_kept(PoolRun { pool: pool::new_pool(name, size), dispatches: Seq::empty() }),
{
    let p = pool::new_pool(name, size);
    lemma_no_holders(p.slots, p.slots.len() as int);
}

proof fn lemma_no_holders(slots: Seq<SlotView>, n: int)
    requires
        0 <= n <= slots.len(),
        forall|i: int| 0 <= i < slots.len() ==> (#[trigger] slots[i]).holder is None,
    ensures
        pool::count_heavy(slots, n) == 0,
    decreases n,
{
    if n > 0 {
        lemma_no_holders(slots, n - 1);
        assert(slots[n - 1].holder is None);
    }
}

proof fn lemma_admissions_step(r: PoolRun, s: PoolStep)
    requires
        all_kept(r),
        can_step(r, s),
    ensures
        admissions_kept(stepped(r, s)),
{
    let after = stepped(r, s);
    let such = is_admitted_heavy();
    match s {
        PoolStep::Admit { class } => {
            lemma_one_more(r.dispatches, after.dispatches.last(), such);
        },
        PoolStep::Draw { d } => {
            lemma_one_changed(r.dispatches, d, after.dispatches[d], such);
        },
        PoolStep::Take { d, slot } => {
            lemma_one_changed(r.dispatches, d, after.dispatches[d], such);
        },
        PoolStep::End { d, .. } => {
            lemma_one_changed(r.dispatches, d, after.dispatches[d], such);
        },
        PoolStep::Leave { d } => {
            lemma_one_changed(r.dispatches, d, after.dispatches[d], such);
        },
        PoolStep::Contents { .. } => {},
    }
    assert forall|i: int| 0 <= i < after.dispatches.len() implies (
    #[trigger] after.dispatches[i]).counted == pool::is_counted(
        after.pool,
        after.dispatches[i].class,
    ) by {
        if i < r.dispatches.len() {
            assert(r.dispatches[i].counted == pool::is_counted(r.pool, r.dispatches[i].class));
        }
    }
}

proof fn lemma_slots_step(r: PoolRun, s: PoolStep)
    requires
        all_kept(r),
        can_step(r, s),
    ensures
        slots_kept(stepped(r, s)),
{
    let after = stepped(r, s);
    let such = holds_heavy();
    let n = r.pool.slots.len() as int;
    match s {
        PoolStep::Admit { class } => {
            lemma_one_more(r.dispatches, after.dispatches.last(), such);
        },
        PoolStep::Draw { d } => {
            lemma_one_changed(r.dispatches, d, after.dispatches[d], such);
        },
        PoolStep::Take { d, slot } => {
            lemma_one_changed(r.dispatches, d, after.dispatches[d], such);
            lemma_holder_changed(r.pool.slots, slot, after.pool.slots[slot], n);
        },
        PoolStep::End { d, succeeded } => {
            let i = r.dispatches[d].stage->Holding_0;
            assert(r.pool.slots[i].holder == Some(r.dispatches[d].class));
            lemma_one_changed(r.dispatches, d, after.dispatches[d], such);
            assert(after.pool.slots =~= r.pool.slots.update(i, after.pool.slots[i]));
            lemma_holder_changed(r.pool.slots, i, after.pool.slots[i], n);
        },
        PoolStep::Leave { d } => {
            lemma_one_changed(r.dispatches, d, after.dispatches[d], such);
        },
        PoolStep::Contents { slots, .. } => {
            lemma_same_holders_count(r.pool.slots, slots, n);
        },
    }
    assert forall|i: int| 0 <= i < after.dispatches.len() implies ((
    #[trigger] after.dispatches[i]).stage matches Stage::Holding(x) ==> 0 <= x
        < after.pool.slots.len() && after.pool.slots[x].holder == Some(
        after.dispatches[i].class,
    )) by {
        if after.dispatches[i].stage is Holding {
            let x = after.dispatches[i].stage->Holding_0;
            if i < r.dispatches.len() {
                let before = r.dispatches[i];
                if before.stage is Holding {
                    assert(r.pool.slots[x].holder == Some(before.class));
                    if s is End {
                        let d = s->End_d;
                        let gone = r.dispatches[d];
                        assert(gone.stage is Holding);
                        if i < d {
                            assert(before.stage->Holding_0 != gone.stage->Holding_0);
                        } else {
                            assert(gone.stage->Holding_0 != before.stage->Holding_0);
                        }
                    }
                    if s is Contents {
                        assert(r.pool.slots[x].holder == after.pool.slots[x].holder);
                    }
                }
            }
        }
    }
    assert forall|i: int, j: int| 0 <= i < j < after.dispatches.len() && (
    #[trigger] after.dispatches[i]).stage is Holding && (
    #[trigger] after.dispatches[j]).stage is Holding implies after.dispatches[i].stage->Holding_0
        != after.dispatches[j].stage->Holding_0 by {
        if j < r.dispatches.len() {
            if r.dispatches[i].stage is Holding {
                assert(r.pool.slots[r.dispatches[i].stage->Holding_0].holder is Some);
            }
            if r.dispatches[j].stage is Holding {
                assert(r.pool.slots[r.dispatches[j].stage->Holding_0].holder is Some);
            }
        }
    }
}

proof fn lemma_tickets_step(r: PoolRun, s: PoolStep)
    requires
        all_kept(r),
        can_step(r, s),
    ensures
        tickets_kept(stepped(r, s)),
{
    let after = stepped(r, s);
    assert forall|i: int| 0 <= i < after.dispatches.len() implies {
        let d = #[trigger] after.dispatches[i];
        &&& d.stage is Admitted ==> d.ticket is None
        &&& d.stage is Waiting || d.stage is Holding || d.stage is Released ==> d.ticket is Some
    } by {
        if i < r.dispatches.len() {
            let before = r.dispatches[i];
            assert(before.stage is Admitted ==> before.ticket is None);
        }
    }
}

proof fn lemma_line_step(r: PoolRun, s: PoolStep, class: DispatchCostClass)
    requires
        all_kept(r),
        line_kept(r, class),
        can_step(r, s),
        r.dispatches.len() <= u64::MAX,
    ensures
        line_kept(stepped(r, s), class),
{
    let after = stepped(r, s);
    let such = has_drawn(class);
    let q = pool::class_queue(r.pool.queue, class);
    let k = pool::class_queue(after.pool.queue, class);
    match s {
        PoolStep::Admit { class: c } => {
            lemma_one_more(r.dispatches, after.dispatches.last(), such);
        },
        PoolStep::Draw { d } => {
            assert(r.dispatches[d].ticket is None);
            lemma_one_changed(r.dispatches, d, after.dispatches[d], such);
            lemma_not_all(r.dispatches, such, d);
        },
        PoolStep::Take { d, slot } => {
            lemma_one_changed(r.dispatches, d, after.dispatches[d], such);
        },
        PoolStep::End { d, .. } => {
            lemma_one_changed(r.dispatches, d, after.dispatches[d], such);
        },
        PoolStep::Leave { d } => {
            lemma_one_changed(r.dispatches, d, after.dispatches[d], such);
        },
        PoolStep::Contents { .. } => {},
    }
    assert forall|i: int| 0 <= i < after.dispatches.len() && (#[trigger] after.dispatches[i]).class
        == class implies (after.dispatches[i].ticket matches Some(t) ==> t < k.next_ticket && (
    after.dispatches[i].stage is Waiting <==> t >= k.now_serving)) by {
        if i < r.dispatches.len() {
            let before = r.dispatches[i];
            assert(before.class == class);
            assert(before.stage is Admitted ==> before.ticket is None);
            if s is Take {
                let d = s->Take_d;
                let taken = r.dispatches[d];
                if taken.class == class && i != d && before.ticket is Some {
                    if i < d {
                        assert(r.dispatches[i].ticket != r.dispatches[d].ticket);
                    } else {
                        assert(r.dispatches[d].ticket != r.dispatches[i].ticket);
                    }
                }
            }
        }
    }
    assert forall|i: int, j: int| 0 <= i < j < after.dispatches.len() && (
    #[trigger] after.dispatches[i]).class == class && (#[trigger] after.dispatches[j]).class == class
        && after.dispatches[i].ticket is Some implies after.dispatches[i].ticket
        != after.dispatches[j].ticket by {
        if j < r.dispatches.len() {
            assert(r.dispatches[i].class == class && r.dispatches[j].class == class);
            if s is Draw {
                let d = s->Draw_d;
                assert(r.dispatches[d].ticket is None);
            }
        }
    }
    assert forall|t: int| k.now_serving <= t < k.next_ticket implies #[trigger] someone_waits(
        after.dispatches,
        class,
        t,
    ) by {
        if t < q.next_ticket && t >= q.now_serving {
            assert(someone_waits(r.dispatches, class, t));
            let i = choose|i: int|
                0 <= i < r.dispatches.len() && waits_with(#[trigger] r.dispatches[i], class, t);
            assert(after.dispatches[i] == r.dispatches[i]);
        } else {
            let d = s->Draw_d;
            assert(after.dispatches[d].stage is Waiting);
        }
    }
}

proof fn lemma_run(name: Seq<char>, size: nat, steps: Seq<PoolStep>)
    requires
        size <= usize::MAX,
        can_run(name, size, steps),
        run_of(name, size, steps).dispatches.len() <= u64::MAX,
    ensures
        all_kept(run_of(name, size, steps)),
        run_of(name, size, steps).pool.slots.len() == pool::new_pool(name, size).slots.len(),
    decreases steps.len(),
{
    if steps.len() == 0 {
        lemma_begins(name, size);
    } else {
        let r = run_of(name, size, steps.drop_last());
        let s = steps.last();
        assert(stepped(r, s).dispatches.len() >= r.dispatches.len());
        lemma_run(name, size, steps.drop_last());
        lemma_admissions_step(r, s);
        lemma_slots_step(r, s);
        lemma_tickets_step(r, s);
        lemma_line_step(r, s, DispatchCostClass::Cheap);
        lemma_line_step(r, s, DispatchCostClass::Heavy);
    }
}

// ---------------------------------------------------------------------------
// Laws
// ---------------------------------------------------------------------------
/// However dispatches are admitted and leave, the pool counts the heavy
/// admissions that have not ended; in a pool of two slots or more there are
/// fewer of them than slots, and they are all the heavy dispatches that have
/// not left. In a pool of one slot none is counted.
pub proof fn law_heavy_admissions_are_counted(name: Seq<char>, size: nat, steps: Seq<PoolStep>)
    requires
        size <= usize::MAX,
        can_run(name, size, steps),
        run_of(name, size, steps).dispatches.len() <= u64::MAX,
    ensures
        ({
            let r = run_of(name, size, steps);
            let live = how_many(r.dispatches, is_admitted_heavy());
            &&& r.pool.queue.heavy_inflight == live
            &&& r.pool.slots.len() >= 2 ==> live <= r.pool.slots.len() - 1
            &&& forall|i: int|
                0 <= i < r.dispatches.len() ==> (#[trigger] r.dispatches[i]).counted == (
                r.dispatches[i].class == DispatchCostClass::Heavy && r.pool.slots.len() >= 2)
        }),
{
    lemma_run(name, size, steps);
}

/// In a pool of two slots or more, however dispatches come and go, heavy ones
/// hold no more slots than are admitted, and so some slot is not held by a
/// heavy one.
pub proof fn law_heavy_dispatches_leave_a_slot(name: Seq<char>, size: nat, steps: Seq<PoolStep>)
    requires
        size <= usize::MAX,
        can_run(name, size, steps),
        run_of(name, size, steps).dispatches.len() <= u64::MAX,
        2 <= size,
    ensures
        ({
            let p = run_of(name, size, steps).pool;
            &&& pool::count_heavy(p.slots, p.slots.len() as int) <= p.queue.heavy_inflight
            &&& exists|i: int|
                0 <= i < p.slots.len() && (#[trigger] p.slots[i]).holder != Some(
                    DispatchCostClass::Heavy,
                )
        }),
{
    let r = run_of(name, size, steps);
    lemma_run(name, size, steps);
    assert forall|i: int| 0 <= i < r.dispatches.len() && holds_heavy()(
        #[trigger] r.dispatches[i],
    ) implies is_admitted_heavy()(r.dispatches[i]) by {
        assert(r.dispatches[i].counted == pool::is_counted(r.pool, r.dispatches[i].class));
    }
    lemma_fewer(r.dispatches, holds_heavy(), is_admitted_heavy());
    pool::lemma_heavy_dispatches_leave_a_slot(r.pool);
}

/// In a pool of two slots or more, a slot is free wherever no cheap dispatch
/// holds one: a cheap dispatch waits for cheap ones alone.
pub proof fn law_cheap_dispatches_wait_for_cheap_ones(
    name: Seq<char>,
    size: nat,
    steps: Seq<PoolStep>,
)
    requires
        size <= usize::MAX,
        can_run(name, size, steps),
        run_of(name, size, steps).dispatches.len() <= u64::MAX,
        2 <= size,
        forall|i: int|
            0 <= i < run_of(name, size, steps).pool.slots.len() ==> (#[trigger] run_of(
                name,
                size,
                steps,
            ).pool.slots[i]).holder != Some(DispatchCostClass::Cheap),
    ensures
        pool::any_free(run_of(name, size, steps).pool.slots),
{
    law_heavy_dispatches_leave_a_slot(name, size, steps);
    let p = run_of(name, size, steps).pool;
    let i = choose|i: int|
        0 <= i < p.slots.len() && (#[trigger] p.slots[i]).holder != Some(DispatchCostClass::Heavy);
    assert(p.slots[i].holder != Some(DispatchCostClass::Cheap));
    match p.slots[i].holder {
        Some(DispatchCostClass::Cheap) => {},
        Some(DispatchCostClass::Heavy) => {},
        None => {},
    }
}

/// Who calls first has the lower ticket: a ticket that is drawn is above every
/// ticket of its class that was drawn before.
pub proof fn law_tickets_follow_the_calls(
    name: Seq<char>,
    size: nat,
    steps: Seq<PoolStep>,
    d: int,
    earlier: int,
)
    requires
        size <= usize::MAX,
        can_run(name, size, steps),
        run_of(name, size, steps).dispatches.len() <= u64::MAX,
        can_step(run_of(name, size, steps), PoolStep::Draw { d }),
        0 <= earlier < run_of(name, size, steps).dispatches.len(),
        run_of(name, size, steps).dispatches[earlier].class == run_of(
            name,
            size,
            steps,
        ).dispatches[d].class,
        run_of(name, size, steps).dispatches[earlier].ticket is Some,
    ensures
        ({
            let after = stepped(run_of(name, size, steps), PoolStep::Draw { d }).dispatches;
            after[d].ticket is Some && after[earlier].ticket is Some && after[earlier].ticket->0
                < after[d].ticket->0
        }),
{
    lemma_run(name, size, steps);
    let r = run_of(name, size, steps);
    assert(r.dispatches[d].ticket is None);
    assert(r.dispatches[earlier].ticket->0 < pool::class_queue(
        r.pool.queue,
        r.dispatches[earlier].class,
    ).next_ticket);
}

/// Callers of one class get slots in the order in which they called: where one
/// has had its slot, so has each that drew its ticket before.
pub proof fn law_callers_are_served_in_order(
    name: Seq<char>,
    size: nat,
    steps: Seq<PoolStep>,
    first: int,
    second: int,
)
    requires
        size <= usize::MAX,
        can_run(name, size, steps),
        run_of(name, size, steps).dispatches.len() <= u64::MAX,
        ({
            let ds = run_of(name, size, steps).dispatches;
            &&& 0 <= first < ds.len() && 0 <= second < ds.len()
            &&& ds[first].class == ds[second].class
            &&& ds[first].ticket is Some && ds[second].ticket is Some
            &&& ds[first].ticket->0 < ds[second].ticket->0
            &&& !(ds[second].stage is Waiting)
        }),
    ensures
        !(run_of(name, size, steps).dispatches[first].stage is Waiting),
{
    lemma_run(name, size, steps);
    let r = run_of(name, size, steps);
    assert(r.dispatches[second].class == r.dispatches[first].class);
    let q = pool::class_queue(r.pool.queue, r.dispatches[first].class);
    assert(r.dispatches[second].ticket->0 < q.now_serving);
}

/// No wait is refused or stuck: wherever a caller waits and a slot is free,
/// there is a caller of its class, itself or one before it, whose turn it is,
/// and that one gets a slot.
pub proof fn law_a_free_slot_is_taken(
    name: Seq<char>,
    size: nat,
    steps: Seq<PoolStep>,
    d: int,
    slot: int,
)
    requires
        size <= usize::MAX,
        can_run(name, size, steps),
        run_of(name, size, steps).dispatches.len() <= u64::MAX,
        0 <= d < run_of(name, size, steps).dispatches.len(),
        run_of(name, size, steps).dispatches[d].stage is Waiting,
        pool::first_free(run_of(name, size, steps).pool.slots, slot),
    ensures
        ({
            let r = run_of(name, size, steps);
            exists|e: int|
                0 <= e < r.dispatches.len() && (#[trigger] r.dispatches[e]).class
                    == r.dispatches[d].class && can_step(r, PoolStep::Take { d: e, slot })
                    && r.dispatches[e].ticket->0 <= r.dispatches[d].ticket->0
        }),
{
    lemma_run(name, size, steps);
    let r = run_of(name, size, steps);
    let class = r.dispatches[d].class;
    let q = pool::class_queue(r.pool.queue, class);
    assert(r.dispatches[d].ticket is Some);
    assert(q.now_serving <= r.dispatches[d].ticket->0 < q.next_ticket);
    assert(someone_waits(r.dispatches, class, q.now_serving as int));
    let e = choose|e: int|
        0 <= e < r.dispatches.len() && waits_with(
            #[trigger] r.dispatches[e],
            class,
            q.now_serving as int,
        );
    assert(can_step(r, PoolStep::Take { d: e, slot }));
}

/// How many callers of its class a waiting dispatch has before it.
pub open spec fn callers_before(r: PoolRun, d: int) -> int {
    r.dispatches[d].ticket->0 - pool::class_queue(r.pool.queue, r.dispatches[d].class).now_serving
}

/// How many of the steps from `from` to `to` gave a slot to a dispatch of the
/// class.
pub open spec fn slots_given(
    name: Seq<char>,
    size: nat,
    steps: Seq<PoolStep>,
    class: DispatchCostClass,
    from: int,
    to: int,
) -> int
    decreases to - from,
{
    if to <= from {
        0
    } else {
        slots_given(name, size, steps, class, from, to - 1) + (match steps[to - 1] {
            PoolStep::Take { d, .. } => if run_of(name, size, steps.take(to - 1)).dispatches[d].class
                == class {
                1int
            } else {
                0
            },
            _ => 0,
        })
    }
}

/// A waiting caller comes nearer with each slot that a caller of its class gets,
/// and with nothing else, whatever the other class does: as long as it waits,
/// those before it were served one by one. So it is served once as many of its
/// class have been as were before it.
pub proof fn law_waiting_callers_come_nearer(
    name: Seq<char>,
    size: nat,
    steps: Seq<PoolStep>,
    from: int,
    d: int,
)
    requires
        size <= usize::MAX,
        can_run(name, size, steps),
        run_of(name, size, steps).dispatches.len() <= u64::MAX,
        0 <= from <= steps.len(),
        ({
            let before = run_of(name, size, steps.take(from));
            0 <= d < before.dispatches.len() && before.dispatches[d].stage is Waiting
        }),
        run_of(name, size, steps).dispatches[d].stage is Waiting,
    ensures
        ({
            let before = run_of(name, size, steps.take(from));
            let now = run_of(name, size, steps);
            let class = before.dispatches[d].class;
            &&& callers_before(before, d) == callers_before(now, d) + slots_given(
                name,
                size,
                steps,
                class,
                from,
                steps.len() as int,
            )
            &&& callers_before(now, d) >= 0
        }),
{
    lemma_nearer(name, size, steps, from, steps.len() as int, d);
    assert(steps.take(steps.len() as int) =~= steps);
    lemma_run(name, size, steps);
}

/// A part of a run is a run.
proof fn lemma_part(name: Seq<char>, size: nat, steps: Seq<PoolStep>, n: int)
    requires
        can_run(name, size, steps),
        0 <= n <= steps.len(),
    ensures
        can_run(name, size, steps.take(n)),
        run_of(name, size, steps.take(n)).dispatches.len() <= run_of(
            name,
            size,
            steps,
        ).dispatches.len(),
    decreases steps.len(),
{
    if n == steps.len() {
        assert(steps.take(n) =~= steps);
    } else {
        assert(steps.drop_last().take(n) =~= steps.take(n));
        lemma_part(name, size, steps.drop_last(), n);
    }
}

proof fn lemma_nearer(
    name: Seq<char>,
    size: nat,
    steps: Seq<PoolStep>,
    from: int,
    to: int,
    d: int,
)
    requires
        size <= usize::MAX,
        can_run(name, size, steps),
        run_of(name, size, steps).dispatches.len() <= u64::MAX,
        0 <= from <= to <= steps.len(),
        ({
            let before = run_of(name, size, steps.take(from));
            0 <= d < before.dispatches.len() && before.dispatches[d].stage is Waiting
        }),
    ensures
        ({
            let before = run_of(name, size, steps.take(from));
            let now = run_of(name, size, steps.take(to));
            &&& d < now.dispatches.len()
            &&& !(now.dispatches[d].stage is Admitted)
            &&& now.dispatches[d].class == before.dispatches[d].class
            &&& now.dispatches[d].ticket == before.dispatches[d].ticket
            &&& now.dispatches[d].stage is Waiting ==> callers_before(before, d) == callers_before(
                now,
                d,
            ) + slots_given(name, size, steps, before.dispatches[d].class, from, to)
        }),
    decreases to - from,
{
    if from < to {
        lemma_nearer(name, size, steps, from, to - 1, d);
        let r = run_of(name, size, steps.take(to - 1));
        let s = steps[to - 1];
        lemma_part(name, size, steps, to);
        lemma_part(name, size, steps, to - 1);
        assert(steps.take(to).drop_last() =~= steps.take(to - 1));
        assert(steps.take(to).last() == s);
        lemma_run(name, size, steps.take(to - 1));
        if s is Take {
            let e = s->Take_d;
            assert(r.dispatches[e].ticket->0 < pool::class_queue(
                r.pool.queue,
                r.dispatches[e].class,
            ).next_ticket);
        }
    }
}

} // verus!

//! The pool of instances that serve one plugin: which slot holds what, who
//! waits for a slot, and which contents leave once nothing runs on them.
use crate::strmap::StrMap;
use crate::text;
use vstd::prelude::*;
use vstd::string::*;

verus! {

/// Whether a dispatch is expected to hold its slot shortly or for long. Heavy
/// dispatches are admitted so that one slot always stays open to cheap ones.
#[derive(Debug, Clone, Copy, PartialEq, Eq, Structural)]
pub enum DispatchCostClass {
    Cheap,
    Heavy,
}

/// Whether `verb` is one that holds its slot for long.
pub open spec fn is_heavy_verb(verb: Seq<char>) -> bool {
    verb == "code_index"@ || verb == "embed"@ || verb == "health"@ || verb == "index"@ || verb
        == "memorize"@ || verb == "memorize-fire"@ || verb == "memorize-prune"@ || verb == "recall"@
        || verb == "scan_deps"@ || verb == "background-convert"@ || verb == "bert"@ || verb
        == "libsql"@
}

/// The cost class of a verb.
pub fn cost_class_for_verb(verb: &str) -> (r: DispatchCostClass)
    ensures
        r == (if is_heavy_verb(verb@) {
            DispatchCostClass::Heavy
        } else {
            DispatchCostClass::Cheap
        }),
{
    if text::str_eq(verb, "code_index") || text::str_eq(verb, "embed") || text::str_eq(
        verb,
        "health",
    ) || text::str_eq(verb, "index") || text::str_eq(verb, "memorize") || text::str_eq(
        verb,
        "memorize-fire",
    ) || text::str_eq(verb, "memorize-prune") || text::str_eq(verb, "recall") || text::str_eq(
        verb,
        "scan_deps",
    ) || text::str_eq(verb, "background-convert") || text::str_eq(verb, "bert") || text::str_eq(
        verb,
        "libsql",
    ) {
        DispatchCostClass::Heavy
    } else {
        DispatchCostClass::Cheap
    }
}

/// Whether all projects share the instances of a plugin.
pub open spec fn is_shared_name(name: Seq<char>) -> bool {
    name == "bert"@ || name == "treesitter"@ || name == "gm"@
}

/// Whether all projects share the instances of a plugin.
pub fn is_stateless_shared_plugin(plugin_name: &str) -> (r: bool)
    ensures
        r == is_shared_name(plugin_name@),
{
    text::str_eq(plugin_name, "bert") || text::str_eq(plugin_name, "treesitter") || text::str_eq(
        plugin_name,
        "gm",
    )
}

// ---------------------------------------------------------------------------
// State
// ---------------------------------------------------------------------------
/// The waiting line of one cost class: the ticket that is drawn next, and the
/// ticket whose turn it is.
#[derive(Debug, Clone, Copy)]
pub struct ClassTicketQueue {
    pub next_ticket: u64,
    pub now_serving: u64,
}

/// The waiting lines of a pool, and how many heavy dispatches are admitted.
#[derive(Debug, Clone, Copy)]
pub struct TicketQueue {
    pub cheap: ClassTicketQueue,
    pub heavy: ClassTicketQueue,
    pub heavy_inflight: usize,
}

/// One place of a pool: the hash of the plugin content instantiated there, and
/// the class of the dispatch that holds it.
pub struct Slot {
    pub content_hash: Option<String>,
    pub holder: Option<DispatchCostClass>,
}

/// What one slot holds, seen without waiting for a dispatch to release it.
#[derive(Debug)]
pub enum SlotContentSnapshot {
    Empty,
    Loaded { content_hash: String },
    BusyWithDispatchInFlight,
}

/// The pool of one plugin.
pub struct SharedPluginPool {
    state: PoolState,
}

struct PoolState {
    plugin_name: String,
    slots: Vec<Slot>,
    hashes_to_evict: Vec<String>,
    ticket_queue: TicketQueue,
}

/// A slot as its pool knows it.
#[verifier::ext_equal]
pub struct SlotView {
    pub content: Option<Seq<char>>,
    pub holder: Option<DispatchCostClass>,
}

/// A pool: its plugin, its slots, the contents that leave once nothing runs on
/// them, and its waiting lines.
#[verifier::ext_equal]
pub struct PoolView {
    pub plugin_name: Seq<char>,
    pub slots: Seq<SlotView>,
    pub pending: Set<Seq<char>>,
    pub queue: TicketQueue,
}

impl View for Slot {
    type V = SlotView;

    open spec fn view(&self) -> SlotView {
        SlotView { content: text::opt_string_view(self.content_hash), holder: self.holder }
    }
}

spec fn slot_views(s: Seq<Slot>) -> Seq<SlotView> {
    Seq::new(s.len(), |i: int| s[i]@)
}

/// The texts of a list, as a set.
pub open spec fn text_set(list: Seq<String>) -> Set<Seq<char>> {
    Set::new(|t: Seq<char>| text::lists(list, t))
}

impl View for PoolState {
    type V = PoolView;

    closed spec fn view(&self) -> PoolView {
        PoolView {
            plugin_name: self.plugin_name@,
            slots: slot_views(self.slots@),
            pending: text_set(self.hashes_to_evict@),
            queue: self.ticket_queue,
        }
    }
}

impl View for SharedPluginPool {
    type V = PoolView;

    closed spec fn view(&self) -> PoolView {
        self.state@
    }
}

/// A slot that holds nothing and is free.
pub open spec fn empty_slot() -> SlotView {
    SlotView { content: None, holder: None }
}

/// No ticket drawn, none served.
pub open spec fn fresh_queue() -> TicketQueue {
    TicketQueue {
        cheap: ClassTicketQueue { next_ticket: 0, now_serving: 0 },
        heavy: ClassTicketQueue { next_ticket: 0, now_serving: 0 },
        heavy_inflight: 0,
    }
}

/// A pool of `size` empty slots, and of one where `size` is nothing.
pub open spec fn new_pool(name: Seq<char>, size: nat) -> PoolView {
    PoolView {
        plugin_name: name,
        slots: Seq::new(
            if size == 0 {
                1
            } else {
                size
            },
            |i: int| empty_slot(),
        ),
        pending: Set::empty(),
        queue: fresh_queue(),
    }
}

/// How many heavy dispatches may be admitted at once: all slots but one, and
/// one where there is a single slot.
pub open spec fn heavy_limit(p: PoolView) -> nat {
    if p.slots.len() <= 2 {
        1
    } else {
        (p.slots.len() - 1) as nat
    }
}

/// What every pool keeps.
pub open spec fn valid_pool(p: PoolView) -> bool {
    &&& p.slots.len() >= 1
    &&& p.queue.heavy_inflight <= heavy_limit(p)
}

/// The waiting line of a class.
pub open spec fn class_queue(q: TicketQueue, class: DispatchCostClass) -> ClassTicketQueue {
    match class {
        DispatchCostClass::Cheap => q.cheap,
        DispatchCostClass::Heavy => q.heavy,
    }
}

/// The waiting lines with that of a class replaced.
pub open spec fn with_class_queue(
    q: TicketQueue,
    class: DispatchCostClass,
    c: ClassTicketQueue,
) -> TicketQueue {
    match class {
        DispatchCostClass::Cheap => TicketQueue { cheap: c, ..q },
        DispatchCostClass::Heavy => TicketQueue { heavy: c, ..q },
    }
}

/// Whether the admission of a dispatch counts against the heavy limit: it does
/// for a heavy one, in a pool that has a slot to withhold from it.
pub open spec fn is_counted(p: PoolView, class: DispatchCostClass) -> bool {
    class == DispatchCostClass::Heavy && p.slots.len() >= 2
}

/// Whether a dispatch is admitted at once.
pub open spec fn can_admit(p: PoolView, class: DispatchCostClass) -> bool {
    is_counted(p, class) ==> p.queue.heavy_inflight < heavy_limit(p)
}

/// The pool after a dispatch was admitted.
pub open spec fn admitted(p: PoolView, class: DispatchCostClass) -> PoolView {
    if is_counted(p, class) {
        PoolView {
            queue: TicketQueue {
                heavy_inflight: (p.queue.heavy_inflight + 1) as usize,
                ..p.queue
            },
            ..p
        }
    } else {
        p
    }
}

/// The pool after an admission ended.
pub open spec fn admission_ended(p: PoolView, counted: bool) -> PoolView {
    if counted {
        PoolView {
            queue: TicketQueue {
                heavy_inflight: (if p.queue.heavy_inflight == 0 {
                    0usize
                } else {
                    (p.queue.heavy_inflight - 1) as usize
                }),
                ..p.queue
            },
            ..p
        }
    } else {
        p
    }
}

/// The pool after a ticket of a class was drawn.
pub open spec fn ticket_drawn(p: PoolView, class: DispatchCostClass) -> PoolView {
    PoolView {
        queue: with_class_queue(
            p.queue,
            class,
            ClassTicketQueue {
                next_ticket: class_queue(p.queue, class).next_ticket.wrapping_add(1),
                ..class_queue(p.queue, class)
            },
        ),
        ..p
    }
}

/// Whether slot `i` is free and no earlier one is.
pub open spec fn first_free(slots: Seq<SlotView>, i: int) -> bool {
    &&& 0 <= i < slots.len()
    &&& slots[i].holder is None
    &&& forall|j: int| 0 <= j < i ==> (#[trigger] slots[j]).holder is Some
}

/// Whether some slot is free.
pub open spec fn any_free(slots: Seq<SlotView>) -> bool {
    exists|i: int| 0 <= i < slots.len() && (#[trigger] slots[i]).holder is None
}

impl ClassTicketQueue {
    /// How many tickets wait.
    pub fn waiting(&self) -> (r: u64)
        ensures
            r == (if self.next_ticket >= self.now_serving {
                self.next_ticket - self.now_serving
            } else {
                0
            }),
    {
        self.next_ticket.saturating_sub(self.now_serving)
    }
}

fn copy_hash(h: &Option<String>) -> (r: Option<String>)
    ensures
        text::opt_string_view(r) == text::opt_string_view(*h),
{
    match h {
        Some(s) => Some(s.clone()),
        None => None,
    }
}

fn has_hash(h: &Option<String>, hash: &str) -> (r: bool)
    ensures
        r == (text::opt_string_view(*h) == Some(hash@)),
{
    match h {
        Some(s) => text::str_eq(s.as_str(), hash),
        None => false,
    }
}

impl PoolState {
    fn new(plugin_name: &str, size: usize) -> (r: Self)
        ensures
            r@ == new_pool(plugin_name@, size as nat),
            valid_pool(r@),
    {
        let n: usize = if size == 0 {
            1
        } else {
            size
        };
        let mut slots: Vec<Slot> = Vec::new();
        for i in 0..n
            invariant
                slots@.len() == i,
                forall|k: int| 0 <= k < i ==> (#[trigger] slots@[k])@ == empty_slot(),
        {
            slots.push(Slot { content_hash: None, holder: None });
        }
        let r = PoolState {
            plugin_name: plugin_name.to_owned(),
            slots,
            hashes_to_evict: Vec::new(),
            ticket_queue: TicketQueue {
                cheap: ClassTicketQueue { next_ticket: 0, now_serving: 0 },
                heavy: ClassTicketQueue { next_ticket: 0, now_serving: 0 },
                heavy_inflight: 0,
            },
        };
        assert(r@.slots =~= new_pool(plugin_name@, size as nat).slots);
        assert(r@.pending =~= Set::<Seq<char>>::empty());
        r
    }

    /// Gives slot `i` another content and holder.
    fn set_slot(&mut self, i: usize, content_hash: Option<String>, holder: Option<
        DispatchCostClass,
    >)
        requires
            i < old(self)@.slots.len(),
        ensures
            final(self)@ == (PoolView {
                slots: old(self)@.slots.update(
                    i as int,
                    (SlotView { content: text::opt_string_view(content_hash), holder }),
                ),
                ..old(self)@
            }),
    {
        let ghost before = self@;
        let slot = Slot { content_hash, holder };
        let ghost sv = slot@;
        self.slots.set(i, slot);
        assert(self@.slots =~= before.slots.update(i as int, sv));
    }

    /// The first free slot.
    fn free_slot(&self) -> (r: Option<usize>)
        ensures
            match r {
                Some(i) => first_free(self@.slots, i as int),
                None => !any_free(self@.slots),
            },
    {
        for i in 0..self.slots.len()
            invariant
                self@.slots.len() == self.slots@.len(),
                forall|j: int| 0 <= j < i ==> (#[trigger] self@.slots[j]).holder is Some,
        {
            assert(self@.slots[i as int] == self.slots@[i as int]@);
            if self.slots[i].holder.is_none() {
                return Some(i);
            }
        }
        None
    }
}

/// The slots after every free one that holds `hash` was emptied.
pub open spec fn evicted_of(slots: Seq<SlotView>, hash: Seq<char>) -> Seq<SlotView> {
    Seq::new(
        slots.len(),
        |i: int|
            if slots[i].holder is None && slots[i].content == Some(hash) {
                empty_slot()
            } else {
                slots[i]
            },
    )
}

/// The slots after every free one was emptied.
pub open spec fn all_free_evicted(slots: Seq<SlotView>) -> Seq<SlotView> {
    Seq::new(
        slots.len(),
        |i: int|
            if slots[i].holder is None {
                empty_slot()
            } else {
                slots[i]
            },
    )
}

/// How many of the first `n` slots are free and hold `hash`.
pub open spec fn count_free_holding(slots: Seq<SlotView>, hash: Seq<char>, n: int) -> nat
    decreases n,
{
    if n <= 0 {
        0
    } else {
        count_free_holding(slots, hash, n - 1) + (if slots[n - 1].holder is None && slots[n
            - 1].content == Some(hash) {
            1nat
        } else {
            0
        })
    }
}

/// How many of the first `n` slots a dispatch holds.
pub open spec fn count_busy(slots: Seq<SlotView>, n: int) -> nat
    decreases n,
{
    if n <= 0 {
        0
    } else {
        count_busy(slots, n - 1) + (if slots[n - 1].holder is Some {
            1nat
        } else {
            0
        })
    }
}

/// What a slot looks like without waiting for it.
pub open spec fn snapshot_matches(s: SlotContentSnapshot, v: SlotView) -> bool {
    match s {
        SlotContentSnapshot::Empty => v.holder is None && v.content is None,
        SlotContentSnapshot::Loaded { content_hash } => v.holder is None && v.content == Some(
            content_hash@,
        ),
        SlotContentSnapshot::BusyWithDispatchInFlight => v.holder is Some,
    }
}

impl SharedPluginPool {
    #[verifier::type_invariant]
    spec fn is_valid(self) -> bool {
        valid_pool(self.state@)
    }

    /// A pool of `size` empty slots, at least one.
    pub fn new(plugin_name: &str, size: usize) -> (r: Self)
        ensures
            r@ == new_pool(plugin_name@, size as nat),
            valid_pool(r@),
    {
        SharedPluginPool { state: PoolState::new(plugin_name, size) }
    }

    fn take_state(&mut self) -> (r: PoolState)
        ensures
            r@ == old(self)@,
            valid_pool(old(self)@),
    {
        proof {
            use_type_invariant(&*self);
        }
        let mut state = PoolState::new("", 1);
        std::mem::swap(&mut state, &mut self.state);
        state
    }

    /// How many slots heavy dispatches may occupy at once. One slot is
    /// withheld from them; a pool of one slot is left unrestricted.
    pub fn heavy_admission_limit(&self) -> (r: usize)
        ensures
            r == heavy_limit(self@),
    {
        let n: usize = self.state.slots.len();
        if n <= 2 {
            1
        } else {
            n - 1
        }
    }

    /// Tries to admit a dispatch. `None` tells the caller to wait and try
    /// again: every place for heavy dispatches is taken. A cheap dispatch, and
    /// any dispatch on a pool of one slot, is admitted without being counted.
    pub fn admit_dispatch(&mut self, class: DispatchCostClass) -> (r: Option<HeavyDispatchAdmission>)
        ensures
            valid_pool(final(self)@),
            match r {
                Some(a) => can_admit(old(self)@, class) && a.counted == is_counted(
                    old(self)@,
                    class,
                ) && final(self)@ == admitted(old(self)@, class),
                None => !can_admit(old(self)@, class) && final(self)@ == old(self)@,
            },
    {
        proof {
            use_type_invariant(&*self);
        }
        if class != DispatchCostClass::Heavy || self.state.slots.len() < 2 {
            return Some(HeavyDispatchAdmission { counted: false });
        }
        let limit: usize = self.heavy_admission_limit();
        let mut state = self.take_state();
        if state.ticket_queue.heavy_inflight < limit {
            state.ticket_queue.heavy_inflight = state.ticket_queue.heavy_inflight + 1;
            self.state = state;
            Some(HeavyDispatchAdmission { counted: true })
        } else {
            self.state = state;
            None
        }
    }

    /// Ends an admission.
    pub fn end_admission(&mut self, admission: HeavyDispatchAdmission)
        ensures
            valid_pool(final(self)@),
            final(self)@ == admission_ended(old(self)@, admission.counted),
    {
        let mut state = self.take_state();
        if admission.counted {
            state.ticket_queue.heavy_inflight = state.ticket_queue.heavy_inflight.saturating_sub(1);
        }
        self.state = state;
    }

    /// Draws the next ticket of a class.
    pub fn draw_ticket(&mut self, class: DispatchCostClass) -> (r: u64)
        ensures
            valid_pool(final(self)@),
            r == class_queue(old(self)@.queue, class).next_ticket,
            final(self)@ == ticket_drawn(old(self)@, class),
    {
        let mut state = self.take_state();
        let t: u64 = match class {
            DispatchCostClass::Cheap => {
                let t: u64 = state.ticket_queue.cheap.next_ticket;
                state.ticket_queue.cheap.next_ticket = t.wrapping_add(1);
                t
            },
            DispatchCostClass::Heavy => {
                let t: u64 = state.ticket_queue.heavy.next_ticket;
                state.ticket_queue.heavy.next_ticket = t.wrapping_add(1);
                t
            },
        };
        self.state = state;
        t
    }

    /// Tries to take a slot for a ticket. A ticket is served when its turn in
    /// its class has come and a slot is free, and gets the first free slot;
    /// `None` tells the caller to wait and try again.
    pub fn acquire_within_for_class(&mut self, class: DispatchCostClass, ticket: u64) -> (r: Option<
        usize,
    >)
        ensures
            valid_pool(final(self)@),
            r is Some <==> class_queue(old(self)@.queue, class).now_serving == ticket && any_free(
                old(self)@.slots,
            ),
            match r {
                Some(i) => first_free(old(self)@.slots, i as int) && final(self)@ == slot_taken(
                    old(self)@,
                    class,
                    i as int,
                ),
                None => final(self)@ == old(self)@,
            },
    {
        let mut state = self.take_state();
        let ghost before = state@;
        let serving: u64 = match class {
            DispatchCostClass::Cheap => state.ticket_queue.cheap.now_serving,
            DispatchCostClass::Heavy => state.ticket_queue.heavy.now_serving,
        };
        let free = if serving == ticket {
            state.free_slot()
        } else {
            None
        };
        match free {
            Some(i) => {
                assert(before.slots[i as int] == state.slots@[i as int]@);
                let content = copy_hash(&state.slots[i].content_hash);
                state.set_slot(i, content, Some(class));
                match class {
                    DispatchCostClass::Cheap => {
                        state.ticket_queue.cheap.now_serving = serving.wrapping_add(1);
                    },
                    DispatchCostClass::Heavy => {
                        state.ticket_queue.heavy.now_serving = serving.wrapping_add(1);
                    },
                }
            },
            None => {},
        }
        self.state = state;
        free
    }

    /// Tries to take a slot for a ticket of the cheap class.
    pub fn acquire_within(&mut self, ticket: u64) -> (r: Option<usize>)
        ensures
            valid_pool(final(self)@),
            r is Some <==> old(self)@.queue.cheap.now_serving == ticket && any_free(
                old(self)@.slots,
            ),
            match r {
                Some(i) => first_free(old(self)@.slots, i as int) && final(self)@ == slot_taken(
                    old(self)@,
                    DispatchCostClass::Cheap,
                    i as int,
                ),
                None => final(self)@ == old(self)@,
            },
    {
        self.acquire_within_for_class(DispatchCostClass::Cheap, ticket)
    }

    /// The number of slots.
    pub fn size(&self) -> (r: usize)
        ensures
            r == self@.slots.len(),
            r >= 1,
    {
        proof {
            use_type_invariant(self);
        }
        self.state.slots.len()
    }

    /// Whether every slot that no dispatch holds has content.
    pub fn all_instantiated(&self) -> (r: bool)
        ensures
            r == forall|i: int|
                0 <= i < self@.slots.len() ==> (#[trigger] self@.slots[i]).holder is Some
                    || self@.slots[i].content is Some,
    {
        for i in 0..self.state.slots.len()
            invariant
                self@.slots.len() == self.state.slots@.len(),
                forall|j: int|
                    0 <= j < i ==> (#[trigger] self@.slots[j]).holder is Some
                        || self@.slots[j].content is Some,
        {
            assert(self@.slots[i as int] == self.state.slots@[i as int]@);
            if self.state.slots[i].holder.is_none() && self.state.slots[i].content_hash.is_none() {
                return false;
            }
        }
        true
    }

    /// Whether some slot has content. Before the deadline only slots that no
    /// dispatch holds are looked at.
    pub fn any_instantiated_within(&self, deadline_passed: bool) -> (r: bool)
        ensures
            r == exists|i: int|
                0 <= i < self@.slots.len() && (#[trigger] self@.slots[i]).content is Some && (
                deadline_passed || self@.slots[i].holder is None),
    {
        for i in 0..self.state.slots.len()
            invariant
                self@.slots.len() == self.state.slots@.len(),
                forall|j: int|
                    0 <= j < i ==> !((#[trigger] self@.slots[j]).content is Some && (deadline_passed
                        || self@.slots[j].holder is None)),
        {
            assert(self@.slots[i as int] == self.state.slots@[i as int]@);
            if self.state.slots[i].content_hash.is_some() && (deadline_passed
                || self.state.slots[i].holder.is_none()) {
                return true;
            }
        }
        false
    }

    /// What each slot holds, without waiting for those that a dispatch holds.
    pub fn slot_snapshot_without_blocking(&self) -> (r: Vec<SlotContentSnapshot>)
        ensures
            r@.len() == self@.slots.len(),
            forall|i: int|
                0 <= i < r@.len() ==> snapshot_matches(#[trigger] r@[i], self@.slots[i]),
    {
        let mut out: Vec<SlotContentSnapshot> = Vec::new();
        for i in 0..self.state.slots.len()
            invariant
                self@.slots.len() == self.state.slots@.len(),
                out@.len() == i,
                forall|k: int|
                    0 <= k < i ==> snapshot_matches(#[trigger] out@[k], self@.slots[k]),
        {
            assert(self@.slots[i as int] == self.state.slots@[i as int]@);
            let slot = &self.state.slots[i];
            if slot.holder.is_some() {
                out.push(SlotContentSnapshot::BusyWithDispatchInFlight);
            } else {
                match &slot.content_hash {
                    Some(h) => {
                        out.push(SlotContentSnapshot::Loaded { content_hash: h.clone() });
                    },
                    None => {
                        out.push(SlotContentSnapshot::Empty);
                    },
                }
            }
        }
        out
    }

    /// The content of each slot.
    pub fn slot_content_hashes(&self) -> (r: Vec<Option<String>>)
        ensures
            r@.len() == self@.slots.len(),
            forall|i: int|
                0 <= i < r@.len() ==> text::opt_string_view(#[trigger] r@[i])
                    == self@.slots[i].content,
    {
        let mut out: Vec<Option<String>> = Vec::new();
        for i in 0..self.state.slots.len()
            invariant
                self@.slots.len() == self.state.slots@.len(),
                out@.len() == i,
                forall|k: int|
                    0 <= k < i ==> text::opt_string_view(#[trigger] out@[k])
                        == self@.slots[k].content,
        {
            assert(self@.slots[i as int] == self.state.slots@[i as int]@);
            out.push(copy_hash(&self.state.slots[i].content_hash));
        }
        out
    }

    /// Empties every slot that no dispatch holds. Gives whether any had
    /// content.
    pub fn evict_every_currently_free_slot_without_blocking_on_busy_ones(&mut self) -> (r: bool)
        ensures
            valid_pool(final(self)@),
            r == exists|i: int|
                0 <= i < old(self)@.slots.len() && (#[trigger] old(self)@.slots[i]).holder is None
                    && old(self)@.slots[i].content is Some,
            final(self)@ == (PoolView {
                slots: all_free_evicted(old(self)@.slots),
                ..old(self)@
            }),
    {
        let mut state = self.take_state();
        let ghost before = state@;
        let mut released = false;
        let n: usize = state.slots.len();
        for i in 0..n
            invariant
                n == before.slots.len(),
                state@ == (PoolView { slots: state@.slots, ..before }),
                state@.slots.len() == n,
                forall|k: int|
                    0 <= k < n ==> (#[trigger] state@.slots[k]) == (if k < i {
                        all_free_evicted(before.slots)[k]
                    } else {
                        before.slots[k]
                    }),
                released ==> exists|j: int|
                    0 <= j < i && (#[trigger] before.slots[j]).holder is None
                        && before.slots[j].content is Some,
                !released ==> forall|j: int|
                    0 <= j < i ==> !((#[trigger] before.slots[j]).holder is None
                        && before.slots[j].content is Some),
        {
            assert(state@.slots.len() == state.slots@.len());
            assert(state@.slots[i as int] == before.slots[i as int]);
            assert(state@.slots[i as int] == state.slots@[i as int]@);
            if state.slots[i].holder.is_none() && state.slots[i].content_hash.is_some() {
                state.set_slot(i, None, None);
                released = true;
            }
        }
        assert(state@.slots =~= all_free_evicted(before.slots));
        self.state = state;
        released
    }

    /// Asks that the content `old_hash` leave the pool. Free slots that hold it
    /// are emptied at once; where dispatches hold slots, the content is marked
    /// to leave when they end. Gives how many slots were emptied, and how many
    /// dispatches hold.
    pub fn request_store_swap(&mut self, old_hash: &str) -> (r: (usize, usize))
        ensures
            valid_pool(final(self)@),
            r.0 == count_free_holding(old(self)@.slots, old_hash@, old(self)@.slots.len() as int),
            r.1 == count_busy(old(self)@.slots, old(self)@.slots.len() as int),
            final(self)@ == (PoolView {
                slots: evicted_of(old(self)@.slots, old_hash@),
                pending: if r.1 > 0 {
                    old(self)@.pending.insert(old_hash@)
                } else {
                    old(self)@.pending
                },
                ..old(self)@
            }),
    {
        let mut state = self.take_state();
        let ghost before = state@;
        let mut evicted: usize = 0;
        let mut deferred: usize = 0;
        let n: usize = state.slots.len();
        for i in 0..n
            invariant
                n == before.slots.len(),
                state@ == (PoolView { slots: state@.slots, ..before }),
                state@.slots.len() == n,
                forall|k: int|
                    0 <= k < n ==> (#[trigger] state@.slots[k]) == (if k < i {
                        evicted_of(before.slots, old_hash@)[k]
                    } else {
                        before.slots[k]
                    }),
                evicted == count_free_holding(before.slots, old_hash@, i as int),
                deferred == count_busy(before.slots, i as int),
                evicted <= i,
                deferred <= i,
        {
            assert(state@.slots.len() == state.slots@.len());
            assert(state@.slots[i as int] == before.slots[i as int]);
            assert(state@.slots[i as int] == state.slots@[i as int]@);
            if state.slots[i].holder.is_some() {
                deferred = deferred + 1;
            } else if has_hash(&state.slots[i].content_hash, old_hash) {
                state.set_slot(i, None, None);
                evicted = evicted + 1;
            }
        }
        assert(state@.slots =~= evicted_of(before.slots, old_hash@));
        if deferred > 0 {
            add_text(&mut state.hashes_to_evict, old_hash);
        }
        self.state = state;
        (evicted, deferred)
    }

    /// Empties slot `i` if its content is marked to leave.
    pub fn evict_if_swap_pending(&mut self, i: usize)
        requires
            i < old(self)@.slots.len(),
        ensures
            valid_pool(final(self)@),
            final(self)@ == pending_evicted(old(self)@, i as int),
    {
        let mut state = self.take_state();
        let ghost before = state@;
        assert(before.slots[i as int] == state.slots@[i as int]@);
        let leaves = match &state.slots[i].content_hash {
            Some(h) => text::list_contains(&state.hashes_to_evict, h.as_str()),
            None => false,
        };
        if leaves {
            let holder = state.slots[i].holder;
            state.set_slot(i, None, holder);
        } else {
            assert(before.slots.update(i as int, before.slots[i as int]) =~= before.slots);
        }
        self.state = state;
    }

    /// Ends a dispatch that held slot `i`: one that failed leaves the slot
    /// empty; after one that succeeded, the content leaves if it is marked to.
    pub fn end_dispatch(&mut self, i: usize, succeeded: bool)
        requires
            i < old(self)@.slots.len(),
        ensures
            valid_pool(final(self)@),
            final(self)@ == dispatch_ended(old(self)@, i as int, succeeded),
    {
        if succeeded {
            self.evict_if_swap_pending(i);
        }
        let mut state = self.take_state();
        let ghost before = state@;
        assert(before.slots[i as int] == state.slots@[i as int]@);
        let content = if succeeded {
            copy_hash(&state.slots[i].content_hash)
        } else {
            None
        };
        state.set_slot(i, content, None);
        assert(state@ =~= dispatch_ended(old(self)@, i as int, succeeded));
        self.state = state;
    }

    /// Puts content into slot `i`, which a dispatch or a load holds.
    pub fn fill_slot(&mut self, i: usize, content_hash: Option<String>)
        requires
            i < old(self)@.slots.len(),
        ensures
            valid_pool(final(self)@),
            final(self)@ == with_content(
                old(self)@,
                i as int,
                text::opt_string_view(content_hash),
            ),
    {
        let mut state = self.take_state();
        assert(state@.slots[i as int] == state.slots@[i as int]@);
        let holder = state.slots[i].holder;
        state.set_slot(i, content_hash, holder);
        self.state = state;
    }

    /// Takes back that the content `hash` is to leave.
    pub fn note_bytes_current(&mut self, hash: &str)
        ensures
            valid_pool(final(self)@),
            final(self)@ == (PoolView {
                pending: old(self)@.pending.remove(hash@),
                ..old(self)@
            }),
    {
        let mut state = self.take_state();
        remove_text(&mut state.hashes_to_evict, hash);
        self.state = state;
    }

    /// The contents that are to leave, each once.
    pub fn swap_pending_hashes(&self) -> (r: Vec<String>)
        ensures
            text_set(r@) == self@.pending,
            text::distinct_texts(r@),
    {
        let all = &self.state.hashes_to_evict;
        let mut out: Vec<String> = Vec::new();
        assert(text_set(out@) =~= text_set(all@.take(0)));
        for i in 0..all.len()
            invariant
                all == &self.state.hashes_to_evict,
                text_set(out@) == text_set(all@.take(i as int)),
                text::distinct_texts(out@),
        {
            add_text(&mut out, all[i].as_str());
            proof {
                lemma_one_more_text(all@, i as int);
            }
        }
        assert(all@.take(all@.len() as int) =~= all@);
        out
    }
}

proof fn lemma_one_more_text(list: Seq<String>, n: int)
    requires
        0 <= n < list.len(),
    ensures
        text_set(list.take(n + 1)) == text_set(list.take(n)).insert(list[n]@),
{
    let head = list.take(n);
    let more = list.take(n + 1);
    assert forall|t: Seq<char>| text::lists(more, t) == (text::lists(head, t) || t == list[n]@) by {
        if text::lists(head, t) {
            let k = choose|k: int| 0 <= k < head.len() && (#[trigger] head[k])@ == t;
            assert(more[k]@ == t);
        }
        if t == list[n]@ {
            assert(more[n]@ == t);
        }
        if text::lists(more, t) {
            let k = choose|k: int| 0 <= k < more.len() && (#[trigger] more[k])@ == t;
            if k < n {
                assert(head[k]@ == t);
            }
        }
    }
    assert(text_set(more) =~= text_set(head).insert(list[n]@));
}

/// Adds a text to a list that holds each once.
pub(crate) fn add_text(list: &mut Vec<String>, t: &str)
    ensures
        text_set(final(list)@) == text_set(old(list)@).insert(t@),
        text::distinct_texts(old(list)@) ==> text::distinct_texts(final(list)@),
{
    let ghost before = list@;
    if !text::list_contains(list, t) {
        list.push(t.to_owned());
        proof {
            assert forall|u: Seq<char>| text::lists(list@, u) == (text::lists(before, u) || u
                == t@) by {
                if text::lists(before, u) {
                    let k = choose|k: int| 0 <= k < before.len() && (#[trigger] before[k])@ == u;
                    assert(list@[k]@ == u);
                }
                if u == t@ {
                    assert(list@[before.len() as int]@ == u);
                }
                if text::lists(list@, u) {
                    let k = choose|k: int| 0 <= k < list@.len() && (#[trigger] list@[k])@ == u;
                    if k < before.len() {
                        assert(before[k]@ == u);
                    }
                }
            }
            assert(text_set(list@) =~= text_set(before).insert(t@));
        }
    } else {
        assert(text_set(list@) =~= text_set(before).insert(t@));
    }
}

/// Takes a text out of a list.
fn remove_text(list: &mut Vec<String>, t: &str)
    ensures
        text_set(final(list)@) == text_set(old(list)@).remove(t@),
{
    let ghost before = list@;
    let mut out: Vec<String> = Vec::new();
    for i in 0..list.len()
        invariant
            before == list@,
            forall|u: Seq<char>| #[trigger]
                text::lists(out@, u) == (u != t@ && text::lists(before.take(i as int), u)),
    {
        let ghost old_out = out@;
        let ghost head = before.take(i as int);
        let ghost more = before.take(i + 1);
        if !text::str_eq(list[i].as_str(), t) {
            out.push(list[i].clone());
        }
        proof {
            assert forall|u: Seq<char>| #[trigger]
                text::lists(out@, u) == (u != t@ && text::lists(more, u)) by {
                assert(text::lists(old_out, u) == (u != t@ && text::lists(head, u)));
                if text::lists(head, u) {
                    let k = choose|k: int| 0 <= k < head.len() && (#[trigger] head[k])@ == u;
                    assert(more[k]@ == u);
                }
                if text::lists(more, u) {
                    let k = choose|k: int| 0 <= k < more.len() && (#[trigger] more[k])@ == u;
                    if k < i {
                        assert(head[k]@ == u);
                    }
                }
                if text::lists(old_out, u) {
                    let k = choose|k: int| 0 <= k < old_out.len() && (#[trigger] old_out[k])@ == u;
                    assert(out@[k]@ == u);
                }
                if text::lists(out@, u) {
                    let k = choose|k: int| 0 <= k < out@.len() && (#[trigger] out@[k])@ == u;
                    if k < old_out.len() {
                        assert(old_out[k]@ == u);
                    }
                }
                assert(more[i as int] == before[i as int]);
                if before[i as int]@ == u && u != t@ {
                    assert(out@[old_out.len() as int]@ == u);
                }
            }
        }
    }
    assert(before.take(before.len() as int) == before);
    assert(text_set(out@) =~= text_set(before).remove(t@));
    *list = out;
}

/// An admitted dispatch, and whether it counts against the heavy limit.
pub struct HeavyDispatchAdmission {
    pub counted: bool,
}

/// The pool after a dispatch of a class was served with slot `i`.
pub open spec fn slot_taken(p: PoolView, class: DispatchCostClass, i: int) -> PoolView {
    PoolView {
        slots: p.slots.update(i, SlotView { holder: Some(class), ..p.slots[i] }),
        queue: with_class_queue(
            p.queue,
            class,
            ClassTicketQueue {
                now_serving: class_queue(p.queue, class).now_serving.wrapping_add(1),
                ..class_queue(p.queue, class)
            },
        ),
        ..p
    }
}

/// The pool with other content in slot `i`.
pub open spec fn with_content(p: PoolView, i: int, content: Option<Seq<char>>) -> PoolView {
    PoolView { slots: p.slots.update(i, SlotView { content, ..p.slots[i] }), ..p }
}

/// The pool after slot `i` was emptied if its content is marked to leave.
pub open spec fn pending_evicted(p: PoolView, i: int) -> PoolView {
    match p.slots[i].content {
        Some(h) => if p.pending.contains(h) {
            with_content(p, i, None)
        } else {
            p
        },
        None => p,
    }
}

/// The pool after the dispatch that held slot `i` ended.
pub open spec fn dispatch_ended(p: PoolView, i: int, succeeded: bool) -> PoolView {
    let q = if succeeded {
        pending_evicted(p, i)
    } else {
        with_content(p, i, None)
    };
    PoolView { slots: q.slots.update(i, SlotView { holder: None, ..q.slots[i] }), ..q }
}

/// How long a wait may run, in milliseconds, before it is reported.
pub const ACQUIRE_TIMEOUT_MS: u64 = 60_000;

/// How long a waiting caller pauses before it tries again.
pub const ACQUIRE_POLL_MS: u64 = 25;

/// Whether a wait of `waited_ms` is reported: once it is past the threshold,
/// about every five seconds.
pub fn wait_is_reported(waited_ms: u64, threshold_ms: u64) -> (r: bool)
    ensures
        r == (waited_ms > threshold_ms && waited_ms % 5_000 < 30),
{
    waited_ms > threshold_ms && waited_ms % 5_000 < 30
}

// ---------------------------------------------------------------------------
// Filling a pool
// ---------------------------------------------------------------------------
/// A load in progress: what each slot held that the load has filled so far.
pub struct PoolFill {
    pub inverses: Vec<(usize, Option<String>)>,
}

/// What a load has replaced, in order.
pub open spec fn replaced_by(fill: PoolFill) -> Seq<(int, Option<Seq<char>>)> {
    Seq::new(
        fill.inverses@.len(),
        |k: int| (fill.inverses@[k].0 as int, text::opt_string_view(fill.inverses@[k].1)),
    )
}

/// The slots with everything put back that a load replaced, the last first; a
/// slot that a dispatch holds by now is left alone.
pub open spec fn put_back(
    slots: Seq<SlotView>,
    replaced: Seq<(int, Option<Seq<char>>)>,
) -> Seq<SlotView>
    decreases replaced.len(),
{
    if replaced.len() == 0 {
        slots
    } else {
        let (i, prior) = replaced.last();
        let s = if 0 <= i < slots.len() && slots[i].holder is None {
            slots.update(i, SlotView { content: prior, holder: None })
        } else {
            slots
        };
        put_back(s, replaced.drop_last())
    }
}

/// Whether a load of `hash` fills a slot: it is free and holds other content.
pub open spec fn needs_fill(s: SlotView, hash: Seq<char>) -> bool {
    s.holder is None && s.content != Some(hash)
}

impl PoolFill {
    /// A load that has filled nothing yet.
    pub fn new() -> (r: Self)
        ensures
            replaced_by(r).len() == 0,
    {
        PoolFill { inverses: Vec::new() }
    }
}

impl SharedPluginPool {
    /// The first slot from `from` on that a load of `content_hash` fills.
    pub fn next_slot_to_fill(&self, from: usize, content_hash: &str) -> (r: Option<usize>)
        ensures
            match r {
                Some(i) => from <= i < self@.slots.len() && needs_fill(
                    self@.slots[i as int],
                    content_hash@,
                ) && forall|j: int|
                    from <= j < i ==> !needs_fill(#[trigger] self@.slots[j], content_hash@),
                None => forall|j: int|
                    from <= j < self@.slots.len() ==> !needs_fill(
                        #[trigger] self@.slots[j],
                        content_hash@,
                    ),
            },
    {
        let n: usize = self.state.slots.len();
        let mut i: usize = from;
        while i < n
            invariant
                n == self@.slots.len(),
                n == self.state.slots@.len(),
                from <= i,
                forall|j: int|
                    from <= j < i && j < n ==> !needs_fill(#[trigger] self@.slots[j], content_hash@),
            decreases n - i,
        {
            assert(self@.slots[i as int] == self.state.slots@[i as int]@);
            if self.state.slots[i].holder.is_none() && !has_hash(
                &self.state.slots[i].content_hash,
                content_hash,
            ) {
                return Some(i);
            }
            i += 1;
        }
        None
    }

    /// Puts the content of a load into slot `i`, and notes what it replaced.
    pub fn slot_filled(&mut self, fill: &mut PoolFill, i: usize, content_hash: &str)
        requires
            i < old(self)@.slots.len(),
            old(self)@.slots[i as int].holder is None,
        ensures
            valid_pool(final(self)@),
            final(self)@ == with_content(old(self)@, i as int, Some(content_hash@)),
            replaced_by(*final(fill)) == replaced_by(*old(fill)).push(
                (i as int, old(self)@.slots[i as int].content),
            ),
            put_back(final(self)@.slots, replaced_by(*final(fill))) == put_back(
                old(self)@.slots,
                replaced_by(*old(fill)),
            ),
    {
        let ghost before = self@.slots;
        let ghost earlier = replaced_by(*fill);
        assert(before[i as int] == self.state.slots@[i as int]@);
        let prior = copy_hash(&self.state.slots[i].content_hash);
        let ghost pv = text::opt_string_view(prior);
        fill.inverses.push((i, prior));
        self.fill_slot(i, Some(content_hash.to_owned()));
        proof {
            assert(replaced_by(*fill) =~= earlier.push((i as int, pv)));
            assert(replaced_by(*fill).drop_last() =~= earlier);
            assert(self@.slots.update(i as int, SlotView { content: pv, holder: None })
                =~= before);
        }
    }

    /// Undoes a load that failed: each slot that it filled gets back what it
    /// held, the last first.
    pub fn revert_fill(&mut self, fill: PoolFill)
        ensures
            valid_pool(final(self)@),
            final(self)@ == (PoolView {
                slots: put_back(old(self)@.slots, replaced_by(fill)),
                ..old(self)@
            }),
    {
        let ghost goal = put_back(self@.slots, replaced_by(fill));
        let mut state = self.take_state();
        let ghost before = state@;
        let mut inverses = fill.inverses;
        assert(PoolFill { inverses } == fill);
        while inverses.len() > 0
            invariant
                valid_pool(before),
                state@ == (PoolView { slots: state@.slots, ..before }),
                state@.slots.len() == before.slots.len(),
                put_back(state@.slots, replaced_by(PoolFill { inverses })) == goal,
            decreases inverses@.len(),
        {
            let ghost all = replaced_by(PoolFill { inverses });
            match inverses.pop() {
                Some((i, prior)) => {
                    assert(replaced_by(PoolFill { inverses }) =~= all.drop_last());
                    assert(all.last() == (i as int, text::opt_string_view(prior)));
                    assert(state@.slots.len() == state.slots@.len());
                    if i < state.slots.len() {
                        assert(state@.slots[i as int] == state.slots@[i as int]@);
                        if state.slots[i].holder.is_none() {
                            state.set_slot(i, prior, None);
                        }
                    }
                },
                None => {},
            }
        }
        self.state = state;
    }
}

// ---------------------------------------------------------------------------
// The shared pools
// ---------------------------------------------------------------------------
/// The pools of the shared plugins, and the sizes with which pools are made. A
/// size is settled once: when it is first set, or first used.
pub struct SharedPlugins {
    pools: StrMap<SharedPluginPool>,
    gm_pool_size: Option<usize>,
    side_plugin_pool_size: Option<usize>,
}

/// The shared pools and the sizes that are settled.
#[verifier::ext_equal]
pub struct SharedView {
    pub pools: Map<Seq<char>, PoolView>,
    pub gm_pool_size: Option<usize>,
    pub side_plugin_pool_size: Option<usize>,
}

spec fn pool_views(m: Map<Seq<char>, SharedPluginPool>) -> Map<Seq<char>, PoolView> {
    m.map_values(|p: SharedPluginPool| p@)
}

impl View for SharedPlugins {
    type V = SharedView;

    closed spec fn view(&self) -> SharedView {
        SharedView {
            pools: pool_views(self.pools@),
            gm_pool_size: self.gm_pool_size,
            side_plugin_pool_size: self.side_plugin_pool_size,
        }
    }
}

/// The size that is settled, or the default.
pub open spec fn settled(size: Option<usize>, default: usize) -> usize {
    match size {
        Some(n) => n,
        None => default,
    }
}

/// The size with which the pool of a plugin is made: one, unless set otherwise
/// for `gm` or for the others.
pub open spec fn pool_size_for(s: SharedView, name: Seq<char>) -> usize {
    if name == "gm"@ {
        settled(s.gm_pool_size, 1)
    } else {
        settled(s.side_plugin_pool_size, 1)
    }
}

/// The shared state once the pool of a plugin has been asked for: its size is
/// settled, and the pool is there.
pub open spec fn with_pool(s: SharedView, name: Seq<char>) -> SharedView {
    SharedView {
        pools: if s.pools.dom().contains(name) {
            s.pools
        } else {
            s.pools.insert(name, new_pool(name, pool_size_for(s, name) as nat))
        },
        gm_pool_size: if name == "gm"@ {
            Some(settled(s.gm_pool_size, 1))
        } else {
            s.gm_pool_size
        },
        side_plugin_pool_size: if name == "gm"@ {
            s.side_plugin_pool_size
        } else {
            Some(settled(s.side_plugin_pool_size, 1))
        },
    }
}

/// The shared state with another pool for a plugin.
pub open spec fn pool_changed(s: SharedView, name: Seq<char>, p: PoolView) -> SharedView {
    SharedView { pools: s.pools.insert(name, p), ..s }
}

impl SharedPlugins {
    pub fn new() -> (r: Self)
        ensures
            r@ == (SharedView {
                pools: Map::empty(),
                gm_pool_size: None,
                side_plugin_pool_size: None,
            }),
    {
        let r = SharedPlugins {
            pools: StrMap::new(),
            gm_pool_size: None,
            side_plugin_pool_size: None,
        };
        assert(r@.pools =~= Map::<Seq<char>, PoolView>::empty());
        r
    }

    /// The pool of a plugin, if it was made.
    pub fn get(&self, plugin_name: &str) -> (r: Option<&SharedPluginPool>)
        ensures
            match r {
                Some(p) => self@.pools.dom().contains(plugin_name@) && p@
                    == self@.pools[plugin_name@],
                None => !self@.pools.dom().contains(plugin_name@),
            },
    {
        self.pools.get(plugin_name)
    }

    /// Takes the pool of a plugin out, made new where there was none. It goes
    /// back with `put`.
    pub fn take(&mut self, plugin_name: &str) -> (r: SharedPluginPool)
        ensures
            r@ == with_pool(old(self)@, plugin_name@).pools[plugin_name@],
            final(self)@ == (SharedView {
                pools: old(self)@.pools.remove(plugin_name@),
                ..with_pool(old(self)@, plugin_name@)
            }),
    {
        let ghost before = self@;
        let size: usize = if text::str_eq(plugin_name, "gm") {
            let n: usize = match self.gm_pool_size {
                Some(n) => n,
                None => 1,
            };
            self.gm_pool_size = Some(n);
            n
        } else {
            let n: usize = match self.side_plugin_pool_size {
                Some(n) => n,
                None => 1,
            };
            self.side_plugin_pool_size = Some(n);
            n
        };
        let ghost m = self.pools@;
        let taken = self.pools.remove(plugin_name);
        assert(pool_views(m.remove(plugin_name@)) =~= pool_views(m).remove(plugin_name@));
        match taken {
            Some(p) => p,
            None => SharedPluginPool::new(plugin_name, size),
        }
    }

    /// Puts the pool of a plugin back.
    pub fn put(&mut self, plugin_name: &str, pool: SharedPluginPool)
        ensures
            final(self)@ == pool_changed(old(self)@, plugin_name@, pool@),
    {
        let ghost m = self.pools@;
        self.pools.insert(plugin_name.to_owned(), pool);
        assert(pool_views(m.insert(plugin_name@, pool)) =~= pool_views(m).insert(
            plugin_name@,
            pool@,
        ));
    }
}

/// Settles the size of `gm` pools, at least one. Gives whether it was open.
pub fn set_gm_pool_size(shared: &mut SharedPlugins, n: usize) -> (r: bool)
    ensures
        r == (old(shared)@.gm_pool_size is None),
        final(shared)@ == (if r {
            SharedView {
                gm_pool_size: Some(
                    if n == 0 {
                        1
                    } else {
                        n
                    },
                ),
                ..old(shared)@
            }
        } else {
            old(shared)@
        }),
{
    if shared.gm_pool_size.is_some() {
        return false;
    }
    shared.gm_pool_size = Some(
        if n == 0 {
            1
        } else {
            n
        },
    );
    true
}

/// Settles the size of other pools, at least one. Gives whether it was open.
pub fn set_side_plugin_pool_size(shared: &mut SharedPlugins, n: usize) -> (r: bool)
    ensures
        r == (old(shared)@.side_plugin_pool_size is None),
        final(shared)@ == (if r {
            SharedView {
                side_plugin_pool_size: Some(
                    if n == 0 {
                        1
                    } else {
                        n
                    },
                ),
                ..old(shared)@
            }
        } else {
            old(shared)@
        }),
{
    if shared.side_plugin_pool_size.is_some() {
        return false;
    }
    shared.side_plugin_pool_size = Some(
        if n == 0 {
            1
        } else {
            n
        },
    );
    true
}

/// Whether some slot is free and has content.
pub open spec fn any_free_loaded(slots: Seq<SlotView>) -> bool {
    exists|i: int|
        0 <= i < slots.len() && (#[trigger] slots[i]).holder is None && slots[i].content is Some
}

/// Empties the free slots of a shared plugin. Gives whether any had content;
/// `false` for a plugin that is not shared.
pub fn release_shared_plugin(shared: &mut SharedPlugins, plugin_name: &str) -> (r: bool)
    ensures
        !is_shared_name(plugin_name@) ==> !r && final(shared)@ == old(shared)@,
        is_shared_name(plugin_name@) ==> ({
            let s = with_pool(old(shared)@, plugin_name@);
            let p = s.pools[plugin_name@];
            &&& r == any_free_loaded(p.slots)
            &&& final(shared)@ == pool_changed(
                s,
                plugin_name@,
                PoolView { slots: all_free_evicted(p.slots), ..p },
            )
        }),
{
    if !is_stateless_shared_plugin(plugin_name) {
        return false;
    }
    let ghost before = shared@;
    let mut pool = shared.take(plugin_name);
    let released = pool.evict_every_currently_free_slot_without_blocking_on_busy_ones();
    shared.put(plugin_name, pool);
    proof {
        assert(shared@.pools =~= with_pool(before, plugin_name@).pools.insert(
            plugin_name@,
            pool@,
        ));
    }
    released
}

/// Asks that some content leave the pool of a shared plugin. Gives how many
/// slots were emptied and how many dispatches hold; nothing for a plugin that
/// is not shared.
pub fn request_shared_store_swap(shared: &mut SharedPlugins, plugin_name: &str, old_hash: &str) -> (r: (
    usize,
    usize,
))
    ensures
        !is_shared_name(plugin_name@) ==> r == (0usize, 0usize) && final(shared)@ == old(shared)@,
        is_shared_name(plugin_name@) ==> ({
            let s = with_pool(old(shared)@, plugin_name@);
            let p = s.pools[plugin_name@];
            let n = p.slots.len() as int;
            &&& r.0 == count_free_holding(p.slots, old_hash@, n)
            &&& r.1 == count_busy(p.slots, n)
            &&& final(shared)@ == pool_changed(
                s,
                plugin_name@,
                PoolView {
                    slots: evicted_of(p.slots, old_hash@),
                    pending: if r.1 > 0 {
                        p.pending.insert(old_hash@)
                    } else {
                        p.pending
                    },
                    ..p
                },
            )
        }),
{
    if !is_stateless_shared_plugin(plugin_name) {
        return (0, 0);
    }
    let ghost before = shared@;
    let mut pool = shared.take(plugin_name);
    let counts = pool.request_store_swap(old_hash);
    shared.put(plugin_name, pool);
    proof {
        assert(shared@.pools =~= with_pool(before, plugin_name@).pools.insert(
            plugin_name@,
            pool@,
        ));
    }
    counts
}

/// Takes back that some content is to leave the pool of a shared plugin.
pub fn note_shared_plugin_bytes_current(shared: &mut SharedPlugins, plugin_name: &str, hash: &str)
    ensures
        !is_shared_name(plugin_name@) ==> final(shared)@ == old(shared)@,
        is_shared_name(plugin_name@) ==> ({
            let s = with_pool(old(shared)@, plugin_name@);
            let p = s.pools[plugin_name@];
            final(shared)@ == pool_changed(
                s,
                plugin_name@,
                PoolView { pending: p.pending.remove(hash@), ..p },
            )
        }),
{
    if !is_stateless_shared_plugin(plugin_name) {
        return;
    }
    let ghost before = shared@;
    let mut pool = shared.take(plugin_name);
    pool.note_bytes_current(hash);
    shared.put(plugin_name, pool);
    proof {
        assert(shared@.pools =~= with_pool(before, plugin_name@).pools.insert(
            plugin_name@,
            pool@,
        ));
    }
}

/// The contents that are to leave the pool of a plugin; none without a pool.
pub fn shared_plugin_swap_pending_hashes(shared: &SharedPlugins, plugin_name: &str) -> (r: Vec<
    String,
>)
    ensures
        text_set(r@) == (if shared@.pools.dom().contains(plugin_name@) {
            shared@.pools[plugin_name@].pending
        } else {
            Set::empty()
        }),
        text::distinct_texts(r@),
{
    match shared.get(plugin_name) {
        Some(pool) => pool.swap_pending_hashes(),
        None => {
            let out: Vec<String> = Vec::new();
            assert(text_set(out@) =~= Set::<Seq<char>>::empty());
            out
        },
    }
}

/// The slots of the pool of a plugin; none without a pool.
pub open spec fn slots_of(s: SharedView, name: Seq<char>) -> Seq<SlotView> {
    if s.pools.dom().contains(name) {
        s.pools[name].slots
    } else {
        Seq::empty()
    }
}

/// The content of each slot of the pool of a plugin; none without a pool.
pub fn shared_plugin_slot_content_hashes(shared: &SharedPlugins, plugin_name: &str) -> (r: Vec<
    Option<String>,
>)
    ensures
        r@.len() == slots_of(shared@, plugin_name@).len(),
        forall|i: int|
            0 <= i < r@.len() ==> text::opt_string_view(#[trigger] r@[i]) == slots_of(
                shared@,
                plugin_name@,
            )[i].content,
{
    match shared.get(plugin_name) {
        Some(pool) => pool.slot_content_hashes(),
        None => Vec::new(),
    }
}

/// What each slot of the pool of a plugin holds, without waiting; nothing
/// without a pool.
pub fn shared_plugin_slot_snapshot_without_blocking(
    shared: &SharedPlugins,
    plugin_name: &str,
) -> (r: Vec<SlotContentSnapshot>)
    ensures
        r@.len() == slots_of(shared@, plugin_name@).len(),
        forall|i: int|
            0 <= i < r@.len() ==> snapshot_matches(
                #[trigger] r@[i],
                slots_of(shared@, plugin_name@)[i],
            ),
{
    match shared.get(plugin_name) {
        Some(pool) => pool.slot_snapshot_without_blocking(),
        None => Vec::new(),
    }
}

/// The content of the first slot that has any.
pub open spec fn first_content(slots: Seq<SlotView>) -> Option<Seq<char>>
    decreases slots.len(),
{
    if slots.len() == 0 {
        None
    } else if slots[0].content is Some {
        slots[0].content
    } else {
        first_content(slots.skip(1))
    }
}

/// The content that answers dispatches for a plugin: that of the first filled
/// slot of its pool.
pub fn get_active_provider(shared: &SharedPlugins, plugin_name: &str) -> (r: Option<String>)
    ensures
        text::opt_string_view(r) == first_content(slots_of(shared@, plugin_name@)),
{
    let hashes = shared_plugin_slot_content_hashes(shared, plugin_name);
    let ghost slots = slots_of(shared@, plugin_name@);
    assert(slots.skip(0) == slots);
    for i in 0..hashes.len()
        invariant
            slots == slots_of(shared@, plugin_name@),
            hashes@.len() == slots.len(),
            forall|k: int|
                0 <= k < hashes@.len() ==> text::opt_string_view(#[trigger] hashes@[k])
                    == slots[k].content,
            first_content(slots) == first_content(slots.skip(i as int)),
    {
        assert(slots.skip(i as int)[0] == slots[i as int]);
        assert(slots.skip(i as int).skip(1) == slots.skip(i + 1));
        assert(text::opt_string_view(hashes@[i as int]) == slots[i as int].content);
        if hashes[i].is_some() {
            return copy_hash(&hashes[i]);
        }
    }
    None
}

// ---------------------------------------------------------------------------
// Laws
// ---------------------------------------------------------------------------
/// How many of the first `n` slots heavy dispatches hold.
pub open spec fn count_heavy(slots: Seq<SlotView>, n: int) -> nat
    decreases n,
{
    if n <= 0 {
        0
    } else {
        count_heavy(slots, n - 1) + (if slots[n - 1].holder == Some(DispatchCostClass::Heavy) {
            1nat
        } else {
            0
        })
    }
}

/// In a pool of two slots or more, where heavy dispatches hold no more slots
/// than are admitted, some slot is not held by a heavy dispatch.
pub proof fn lemma_heavy_dispatches_leave_a_slot(p: PoolView)
    requires
        valid_pool(p),
        p.slots.len() >= 2,
        count_heavy(p.slots, p.slots.len() as int) <= p.queue.heavy_inflight,
    ensures
        exists|i: int|
            0 <= i < p.slots.len() && (#[trigger] p.slots[i]).holder != Some(
                DispatchCostClass::Heavy,
            ),
{
    if forall|i: int|
        0 <= i < p.slots.len() ==> (#[trigger] p.slots[i]).holder == Some(DispatchCostClass::Heavy) {
        lemma_all_heavy(p.slots, p.slots.len() as int);
    }
}

proof fn lemma_all_heavy(slots: Seq<SlotView>, n: int)
    requires
        0 <= n <= slots.len(),
        forall|i: int|
            0 <= i < slots.len() ==> (#[trigger] slots[i]).holder == Some(DispatchCostClass::Heavy),
    ensures
        count_heavy(slots, n) == n,
    decreases n,
{
    if n > 0 {
        lemma_all_heavy(slots, n - 1);
        assert(slots[n - 1].holder == Some(DispatchCostClass::Heavy));
    }
}

/// Tickets of a class are served in the order in which they were drawn: being
/// served moves the turn to the next ticket of that class, and leaves the
/// turns of the other class alone.
pub proof fn law_tickets_are_served_in_order(p: PoolView, class: DispatchCostClass, i: int)
    requires
        class_queue(p.queue, class).now_serving < u64::MAX,
    ensures
        class_queue(slot_taken(p, class, i).queue, class).now_serving == class_queue(
            p.queue,
            class,
        ).now_serving + 1,
        class == DispatchCostClass::Cheap ==> slot_taken(p, class, i).queue.heavy
            == p.queue.heavy,
        class == DispatchCostClass::Heavy ==> slot_taken(p, class, i).queue.cheap
            == p.queue.cheap,
        slot_taken(p, class, i).queue.heavy_inflight == p.queue.heavy_inflight,
{
}

/// A dispatch that succeeds on content which stays leaves the slots as they
/// were before it was served.
pub proof fn law_successful_dispatch_keeps_the_slots(p: PoolView, class: DispatchCostClass, i: int)
    requires
        first_free(p.slots, i),
        p.slots[i].content matches Some(h) ==> !p.pending.contains(h),
    ensures
        dispatch_ended(slot_taken(p, class, i), i, true).slots == p.slots,
{
    assert(dispatch_ended(slot_taken(p, class, i), i, true).slots =~= p.slots);
}

/// After a swap was asked for, no slot serves the old content once the
/// dispatches that held slots have ended: it leaves free slots at once, and
/// any held slot when its dispatch ends.
pub proof fn law_swapped_content_leaves(p: PoolView, hash: Seq<char>, i: int, succeeded: bool)
    requires
        0 <= i < p.slots.len(),
    ensures
        ({
            let n = p.slots.len() as int;
            let q = PoolView {
                slots: evicted_of(p.slots, hash),
                pending: if count_busy(p.slots, n) > 0 {
                    p.pending.insert(hash)
                } else {
                    p.pending
                },
                ..p
            };
            &&& q.slots[i].holder is None ==> q.slots[i].content != Some(hash)
            &&& q.slots[i].holder is Some ==> dispatch_ended(q, i, succeeded).slots[i].content
                != Some(hash)
        }),
{
    if p.slots[i].holder is Some {
        lemma_busy_counted(p.slots, i, p.slots.len() as int);
    }
}

proof fn lemma_busy_counted(slots: Seq<SlotView>, i: int, n: int)
    requires
        0 <= i < n <= slots.len(),
        slots[i].holder is Some,
    ensures
        count_busy(slots, n) > 0,
    decreases n,
{
    if i < n - 1 {
        lemma_busy_counted(slots, i, n - 1);
    }
}

/// The slots after a load of `hash` filled some of them, one by one.
pub open spec fn filled_slots(slots: Seq<SlotView>, order: Seq<int>, hash: Seq<char>) -> Seq<
    SlotView,
>
    decreases order.len(),
{
    if order.len() == 0 {
        slots
    } else {
        let s = filled_slots(slots, order.drop_last(), hash);
        let i = order.last();
        s.update(i, SlotView { content: Some(hash), ..s[i] })
    }
}

/// What a load that filled some slots, one by one, replaced.
pub open spec fn replaced_in(slots: Seq<SlotView>, order: Seq<int>, hash: Seq<char>) -> Seq<
    (int, Option<Seq<char>>),
>
    decreases order.len(),
{
    if order.len() == 0 {
        Seq::empty()
    } else {
        let s = filled_slots(slots, order.drop_last(), hash);
        replaced_in(slots, order.drop_last(), hash).push((order.last(), s[order.last()].content))
    }
}

/// A load that fails leaves the slots as they were: what it filled is put
/// back, however many slots that are, and whether or not it filled one twice.
pub proof fn law_failed_load_leaves_the_slots(
    slots: Seq<SlotView>,
    order: Seq<int>,
    hash: Seq<char>,
)
    requires
        forall|k: int|
            0 <= k < order.len() ==> 0 <= #[trigger] order[k] < slots.len()
                && slots[order[k]].holder is None,
    ensures
        put_back(filled_slots(slots, order, hash), replaced_in(slots, order, hash)) == slots,
    decreases order.len(),
{
    if order.len() > 0 {
        let rest = order.drop_last();
        assert forall|k: int| 0 <= k < rest.len() implies 0 <= #[trigger] rest[k] < slots.len()
            && slots[rest[k]].holder is None by {
            assert(rest[k] == order[k]);
        }
        law_failed_load_leaves_the_slots(slots, rest, hash);
        lemma_filling_keeps_holders(slots, rest, hash);
        let s = filled_slots(slots, rest, hash);
        let i = order.last();
        assert(i == order[order.len() - 1]);
        let after = filled_slots(slots, order, hash);
        let all = replaced_in(slots, order, hash);
        assert(all.drop_last() =~= replaced_in(slots, rest, hash));
        assert(after.update(i, SlotView { content: s[i].content, holder: None }) =~= s);
    }
}

proof fn lemma_filling_keeps_holders(slots: Seq<SlotView>, order: Seq<int>, hash: Seq<char>)
    requires
        forall|k: int| 0 <= k < order.len() ==> 0 <= #[trigger] order[k] < slots.len(),
    ensures
        filled_slots(slots, order, hash).len() == slots.len(),
        forall|k: int|
            0 <= k < slots.len() ==> (#[trigger] filled_slots(slots, order, hash)[k]).holder
                == slots[k].holder,
    decreases order.len(),
{
    if order.len() > 0 {
        let rest = order.drop_last();
        assert forall|k: int| 0 <= k < rest.len() implies 0 <= #[trigger] rest[k] < slots.len() by {
            assert(rest[k] == order[k]);
        }
        lemma_filling_keeps_holders(slots, rest, hash);
        assert(order.last() == order[order.len() - 1]);
    }
}

/// The plugins whose instances are released when memory is short.
pub fn releasable_shared_plugins() -> (r: Vec<String>)
    ensures
        text::string_views(r@) == seq!["bert"@, "treesitter"@, "gm"@],
        forall|i: int| 0 <= i < r@.len() ==> is_shared_name((#[trigger] r@[i])@),
{
    let mut out: Vec<String> = Vec::new();
    out.push("bert".to_owned());
    out.push("treesitter".to_owned());
    out.push("gm".to_owned());
    assert(text::string_views(out@) =~= seq!["bert"@, "treesitter"@, "gm"@]);
    out
}

/// A fresh pool has the places that are asked for, and one at least; all are
/// empty and free, and nobody waits.
pub proof fn law_fresh_pool_is_empty(name: Seq<char>, size: nat, i: int)
    requires
        0 <= i < new_pool(name, size).slots.len(),
    ensures
        size > 0 ==> new_pool(name, size).slots.len() == size,
        size == 0 ==> new_pool(name, size).slots.len() == 1,
        new_pool(name, size).slots[i].content is None,
        new_pool(name, size).slots[i].holder is None,
        new_pool(name, size).plugin_name == name,
        new_pool(name, size).pending == Set::<Seq<char>>::empty(),
        new_pool(name, size).queue.heavy_inflight == 0,
        new_pool(name, size).queue.cheap.next_ticket == new_pool(name, size).queue.cheap.now_serving,
        new_pool(name, size).queue.heavy.next_ticket == new_pool(name, size).queue.heavy.now_serving,
{
}

/// Heavy calls leave a place for the cheap ones, wherever there are two.
pub proof fn law_heavy_calls_leave_a_place(p: PoolView)
    ensures
        p.slots.len() >= 2 ==> heavy_limit(p) == p.slots.len() - 1,
        p.slots.len() <= 1 ==> heavy_limit(p) == 1,
        p.slots.len() >= 2 ==> (can_admit(p, DispatchCostClass::Heavy) <==> p.queue.heavy_inflight + 1
            < p.slots.len()),
        p.slots.len() <= 1 ==> can_admit(p, DispatchCostClass::Heavy),
        can_admit(p, DispatchCostClass::Cheap),
{
}

/// A heavy call that is admitted counts until it ends; a cheap one does not.
pub proof fn law_heavy_calls_count(p: PoolView)
    requires
        p.queue.heavy_inflight < usize::MAX,
    ensures
        p.slots.len() >= 2 ==> admitted(p, DispatchCostClass::Heavy).queue.heavy_inflight
            == p.queue.heavy_inflight + 1,
        p.slots.len() < 2 ==> admitted(p, DispatchCostClass::Heavy) == p,
        admitted(p, DispatchCostClass::Cheap) == p,
        p.slots.len() >= 2 ==> admission_ended(admitted(p, DispatchCostClass::Heavy), true) == p,
        admission_ended(p, false) == p,
        p.queue.heavy_inflight == 0 ==> admission_ended(p, true).queue.heavy_inflight == 0,
        admitted(p, DispatchCostClass::Heavy).slots == p.slots,
{
}

/// The verbs that take long are heavy: those that index, embed and remember, and
/// whatever `bert` and `libsql` do.
pub proof fn law_verbs_that_take_long(verb: Seq<char>)
    ensures
        is_heavy_verb(verb) <==> seq![
            "bert"@,
            "libsql"@,
            "embed"@,
            "index"@,
            "code_index"@,
            "scan_deps"@,
            "health"@,
            "recall"@,
            "memorize"@,
            "memorize-fire"@,
            "memorize-prune"@,
            "background-convert"@,
        ].contains(verb),
        is_shared_name(verb) <==> seq!["gm"@, "bert"@, "treesitter"@].contains(verb),
{
    let heavy = seq![
        "bert"@,
        "libsql"@,
        "embed"@,
        "index"@,
        "code_index"@,
        "scan_deps"@,
        "health"@,
        "recall"@,
        "memorize"@,
        "memorize-fire"@,
        "memorize-prune"@,
        "background-convert"@,
    ];
    assert(heavy[0] == "bert"@ && heavy[1] == "libsql"@ && heavy[2] == "embed"@ && heavy[3] == "index"@);
    assert(heavy[4] == "code_index"@ && heavy[5] == "scan_deps"@ && heavy[6] == "health"@ && heavy[7]
        == "recall"@);
    assert(heavy[8] == "memorize"@ && heavy[9] == "memorize-fire"@ && heavy[10] == "memorize-prune"@
        && heavy[11] == "background-convert"@);
    let shared = seq!["gm"@, "bert"@, "treesitter"@];
    assert(shared[0] == "gm"@ && shared[1] == "bert"@ && shared[2] == "treesitter"@);
}

/// A content is evicted from the free slots that hold it and from no other;
/// emptying a pool evicts every free slot and leaves the held ones.
pub proof fn law_free_slots_are_evicted(slots: Seq<SlotView>, hash: Seq<char>, i: int)
    requires
        0 <= i < slots.len(),
    ensures
        evicted_of(slots, hash).len() == slots.len(),
        all_free_evicted(slots).len() == slots.len(),
        slots[i].holder is None && slots[i].content == Some(hash) ==> evicted_of(slots, hash)[i].content
            is None && evicted_of(slots, hash)[i].holder is None,
        slots[i].content != Some(hash) ==> evicted_of(slots, hash)[i] == slots[i],
        slots[i].holder is Some ==> evicted_of(slots, hash)[i] == slots[i] && all_free_evicted(slots)[i]
            == slots[i],
        slots[i].holder is None ==> all_free_evicted(slots)[i].content is None && all_free_evicted(
            slots,
        )[i].holder is None,
{
}

/// A slot counts as busy where somebody holds it, as heavy where a heavy call
/// does, and as holding a content where it is free and has it.
pub proof fn law_slots_are_counted(slots: Seq<SlotView>, hash: Seq<char>, n: int)
    requires
        0 <= n < slots.len(),
    ensures
        count_busy(slots, 0) == 0,
        count_busy(slots, n + 1) == count_busy(slots, n) + (if slots[n].holder is Some {
            1int
        } else {
            0
        }),
        count_heavy(slots, 0) == 0,
        count_heavy(slots, n + 1) == count_heavy(slots, n) + (if slots[n].holder == Some(
            DispatchCostClass::Heavy,
        ) {
            1int
        } else {
            0
        }),
        count_free_holding(slots, hash, 0) == 0,
        count_free_holding(slots, hash, n + 1) == count_free_holding(slots, hash, n) + (if slots[n].holder
            is None && slots[n].content == Some(hash) {
            1int
        } else {
            0
        }),
{
}

/// When a call ends its slot is free; a failed call empties it, and one that
/// went well keeps its content unless that is to leave. Other slots are as they
/// were.
pub proof fn law_slot_is_free_after_its_call(p: PoolView, i: int, j: int)
    requires
        0 <= i < p.slots.len(),
        0 <= j < p.slots.len(),
    ensures
        dispatch_ended(p, i, true).slots[i].holder is None,
        dispatch_ended(p, i, false).slots[i].holder is None,
        dispatch_ended(p, i, false).slots[i].content is None,
        p.slots[i].content matches Some(h) ==> dispatch_ended(p, i, true).slots[i].content == (
        if p.pending.contains(h) {
            None
        } else {
            Some(h)
        }),
        p.slots[i].content is None ==> dispatch_ended(p, i, true).slots[i].content is None,
        j != i ==> dispatch_ended(p, i, true).slots[j] == p.slots[j] && dispatch_ended(
            p,
            i,
            false,
        ).slots[j] == p.slots[j],
        dispatch_ended(p, i, true).queue == p.queue,
        dispatch_ended(p, i, true).slots.len() == p.slots.len(),
{
}

/// A slot is filled where it is free and holds something else.
pub proof fn law_slots_are_filled_where_free(s: SlotView, hash: Seq<char>)
    ensures
        needs_fill(s, hash) <==> s.holder is None && s.content != Some(hash),
        s.content is None && s.holder is None ==> needs_fill(s, hash),
{
}

/// A shared pool is made once, with the places that its kind has: those of `gm`
/// for `gm` and those of the others for the rest, one where none are set.
pub proof fn law_shared_pool_is_made_once(s: SharedView, name: Seq<char>, n: usize)
    ensures
        s.pools.dom().contains(name) ==> with_pool(s, name).pools == s.pools,
        !s.pools.dom().contains(name) && n > 0 && name == "gm"@ && s.gm_pool_size == Some(n) ==> with_pool(
            s,
            name,
        ).pools[name].slots.len() == n,
        !s.pools.dom().contains(name) && n > 0 && name != "gm"@ && s.side_plugin_pool_size == Some(n)
            ==> with_pool(s, name).pools[name].slots.len() == n,
        !s.pools.dom().contains(name) && name == "gm"@ && s.gm_pool_size is None ==> with_pool(
            s,
            name,
        ).pools[name].slots.len() == 1,
        !s.pools.dom().contains(name) && name != "gm"@ && s.side_plugin_pool_size is None ==> with_pool(
            s,
            name,
        ).pools[name].slots.len() == 1,
        with_pool(s, name).pools.dom() == s.pools.dom().insert(name),
        forall|other: Seq<char>|
            other != name && s.pools.dom().contains(other) ==> #[trigger] with_pool(s, name).pools[other]
                == s.pools[other],
{
    assert(with_pool(s, name).pools.dom() =~= s.pools.dom().insert(name));
}

/// The content that a pool is known by is that of the first slot that has one.
pub proof fn law_pool_is_known_by_its_first_content(slots: Seq<SlotView>, i: int)
    ensures
        (forall|j: int| 0 <= j < slots.len() ==> (#[trigger] slots[j]).content is None) ==> first_content(
            slots,
        ) is None,
        0 <= i < slots.len() && slots[i].content is Some && (forall|j: int|
            0 <= j < i ==> (#[trigger] slots[j]).content is None) ==> first_content(slots)
            == slots[i].content,
    decreases slots.len(),
{
    if slots.len() > 0 && slots[0].content is None {
        let t = slots.skip(1);
        law_pool_is_known_by_its_first_content(t, i - 1);
        if forall|j: int| 0 <= j < slots.len() ==> (#[trigger] slots[j]).content is None {
            assert forall|j: int| 0 <= j < t.len() implies (#[trigger] t[j]).content is None by {
                assert(t[j] == slots[j + 1]);
            }
        }
        if 0 <= i < slots.len() && slots[i].content is Some && (forall|j: int|
            0 <= j < i ==> (#[trigger] slots[j]).content is None) {
            assert forall|j: int| 0 <= j < i - 1 implies (#[trigger] t[j]).content is None by {
                assert(t[j] == slots[j + 1]);
            }
            assert(t[i - 1] == slots[i]);
        }
    }
}

/// A slot is shown as it is: held, or free with its content, or empty.
pub proof fn law_slots_are_shown_as_they_are(v: SlotView, content_hash: String)
    ensures
        snapshot_matches(SlotContentSnapshot::BusyWithDispatchInFlight, v) <==> v.holder is Some,
        snapshot_matches(SlotContentSnapshot::Loaded { content_hash }, v) <==> v.holder is None && v.content
            == Some(content_hash@),
        snapshot_matches(SlotContentSnapshot::Empty, v) <==> v.holder is None && v.content is None,
{
}

/// A slot is waited for a minute, forty times a second.
pub proof fn law_slots_are_waited_for()
    ensures
        ACQUIRE_TIMEOUT_MS == 60 * 1000,
        40 * ACQUIRE_POLL_MS == 1000,
{
}

/// The slot that is taken is the first that nobody holds.
pub proof fn law_first_free_slot_is_taken(slots: Seq<SlotView>, i: int, j: int)
    requires
        first_free(slots, i),
        0 <= j < i,
    ensures
        i < slots.len(),
        slots[i].holder is None,
        slots[j].holder is Some,
        any_free(slots),
{
    assert(slots[i].holder is None);
}

} // verus!

//! On whose behalf a dispatch runs, and when each session was last active.
use crate::json;
use crate::json::{Json, JsonTree};
use crate::strmap::StrMap;
use crate::text;
use vstd::prelude::*;
use vstd::string::*;

verus! {

/// The session of a dispatch that names none.
pub const UNATTRIBUTED_DISPATCH_SESSION: &'static str = "default";

/// On whose behalf a dispatch runs: the session that sent it, and the page
/// session that it names.
pub struct DispatchOrigin {
    pub gm_session: Option<String>,
    pub named_page_session: Option<String>,
}

/// An origin as a value.
#[verifier::ext_equal]
pub struct OriginView {
    pub gm_session: Option<Seq<char>>,
    pub named_page_session: Option<Seq<char>>,
}

impl View for DispatchOrigin {
    type V = OriginView;

    open spec fn view(&self) -> OriginView {
        OriginView {
            gm_session: text::opt_string_view(self.gm_session),
            named_page_session: text::opt_string_view(self.named_page_session),
        }
    }
}

/// The view of an optional origin.
pub open spec fn opt_origin(o: Option<DispatchOrigin>) -> Option<OriginView> {
    match o {
        Some(d) => Some(d@),
        None => None,
    }
}

fn copy_text(o: &Option<String>) -> (r: Option<String>)
    ensures
        text::opt_string_view(r) == text::opt_string_view(*o),
{
    match o {
        Some(s) => Some(s.clone()),
        None => None,
    }
}

/// The page session of a dispatch that names none: that of the sender, that
/// of the guest, or the default.
pub open spec fn implicit_session(o: OriginView, guest: Seq<char>) -> Seq<char> {
    match o.gm_session {
        Some(s) => s,
        None => if text::is_blank(guest) {
            UNATTRIBUTED_DISPATCH_SESSION@
        } else {
            text::trimmed(guest)
        },
    }
}

/// The page session of a dispatch: the one in its text, the one it names, or
/// the implicit one.
pub open spec fn page_session_of(o: OriginView, explicit: Option<Seq<char>>, guest: Seq<char>) -> Seq<
    char,
> {
    match explicit {
        Some(s) => s,
        None => match o.named_page_session {
            Some(s) => s,
            None => implicit_session(o, guest),
        },
    }
}

impl DispatchOrigin {
    /// The page session of a dispatch that names none.
    pub fn implicit_page_session(&self, guest_resolved_session: &str) -> (r: String)
        ensures
            r@ == implicit_session(self@, guest_resolved_session@),
    {
        match &self.gm_session {
            Some(s) => s.clone(),
            None => {
                let t = text::trim(guest_resolved_session);
                if t.is_empty() {
                    UNATTRIBUTED_DISPATCH_SESSION.to_owned()
                } else {
                    t.to_owned()
                }
            },
        }
    }

    /// The page session of a dispatch.
    pub fn page_session(&self, explicit_session_line: Option<String>, guest_resolved_session: &str) -> (r:
        String)
        ensures
            r@ == page_session_of(
                self@,
                text::opt_string_view(explicit_session_line),
                guest_resolved_session@,
            ),
    {
        match explicit_session_line {
            Some(s) => s,
            None => match &self.named_page_session {
                Some(s) => s.clone(),
                None => self.implicit_page_session(guest_resolved_session),
            },
        }
    }
}

// ---------------------------------------------------------------------------
// Finding the origin
// ---------------------------------------------------------------------------
/// The trimmed text of a field, where it is not blank.
pub open spec fn envelope_field(parsed: Result<JsonTree, Seq<char>>, name: Seq<char>) -> Option<
    Seq<char>,
> {
    match parsed {
        Ok(t) => match json::field_str(t, name) {
            Some(s) => if text::is_blank(s) {
                None
            } else {
                Some(text::trimmed(s))
            },
            None => None,
        },
        Err(_) => None,
    }
}

/// Whether a segment of a task name is a counter.
pub open spec fn is_counter(segment: Seq<char>) -> bool {
    segment.len() > 0 && text::all_digits(segment)
}

/// How many digits a time in milliseconds has at least.
pub const GM_MCP_TASK_UNIX_MS_MIN_DIGITS: usize = 12;

/// How many leading segments of a task name are the session: all but the last
/// three where these are a process, a time and a counter; all but the last
/// where that is a counter; otherwise none.
pub open spec fn session_segments(segments: Seq<Seq<char>>) -> nat {
    let n = segments.len();
    if n >= 4 && is_counter(segments[n - 3]) && is_counter(segments[n - 2]) && segments[n - 2].len()
        >= GM_MCP_TASK_UNIX_MS_MIN_DIGITS && is_counter(segments[n - 1]) {
        (n - 3) as nat
    } else if n >= 2 && is_counter(segments[n - 1]) {
        (n - 1) as nat
    } else {
        0
    }
}

/// The session that a task name holds, if it holds one.
pub open spec fn session_in_task(task: Seq<char>) -> Option<Seq<char>> {
    let segments = text::pieces(task, '-');
    let k = session_segments(segments);
    let session = text::joined(segments.take(k as int), "-"@);
    if k == 0 || text::is_blank(session) {
        None
    } else {
        Some(session)
    }
}

/// The origin of a dispatch, given what its body reads as.
pub open spec fn origin_of(task: Seq<char>, parsed: Result<JsonTree, Seq<char>>) -> OriginView {
    OriginView {
        gm_session: match envelope_field(parsed, "session_id"@) {
            Some(s) => Some(s),
            None => match envelope_field(parsed, "SESSION_ID"@) {
                Some(s) => Some(s),
                None => session_in_task(task),
            },
        },
        named_page_session: envelope_field(parsed, "sessionId"@),
    }
}

fn is_counter_segment(segment: &str) -> (r: bool)
    ensures
        r == is_counter(segment@),
{
    let cs = text::chars_of(segment);
    for i in 0..cs.len()
        invariant
            cs@ == segment@,
            forall|j: int| 0 <= j < i ==> text::is_digit(#[trigger] segment@[j]),
    {
        if !text::char_is_digit(cs[i]) {
            assert(!text::is_digit(segment@[i as int]));
            return false;
        }
    }
    cs.len() > 0
}

/// The session that a task name holds.
pub fn gm_session_from_spool_task(spool_task: &str) -> (r: Option<String>)
    ensures
        text::opt_string_view(r) == session_in_task(spool_task@),
{
    let segments = text::split_on(spool_task, '-');
    let n: usize = segments.len();
    let ghost all = text::views(segments@);
    assert(forall|i: int| 0 <= i < n ==> all[i] == (#[trigger] segments@[i])@);
    let k: usize = if n >= 4 && is_counter_segment(segments[n - 3]) && is_counter_segment(
        segments[n - 2],
    ) && segments[n - 2].unicode_len() >= GM_MCP_TASK_UNIX_MS_MIN_DIGITS && is_counter_segment(
        segments[n - 1],
    ) {
        n - 3
    } else if n >= 2 && is_counter_segment(segments[n - 1]) {
        n - 1
    } else {
        return None;
    };
    let session = text::join_strs(&segments, k, "-");
    if text::blank(session.as_str()) {
        None
    } else {
        Some(session)
    }
}

fn field_text(v: &Option<Json>, name: &str) -> (r: Option<String>)
    ensures
        text::opt_string_view(r) == (match *v {
            Some(j) => envelope_field(json::read_ok(json::tree(j)), name@),
            None => None,
        }),
{
    match v {
        Some(j) => match j.str_field(name) {
            Some(s) => {
                let t = text::trim(s);
                if t.is_empty() {
                    None
                } else {
                    Some(t.to_owned())
                }
            },
            None => None,
        },
        None => None,
    }
}

/// The origin of a dispatch, from what its body holds.
pub fn origin_in(spool_task: &str, body: Option<Json>) -> (r: DispatchOrigin)
    ensures
        r@ == origin_of(
            spool_task@,
            match body {
                Some(j) => json::read_ok(json::tree(j)),
                None => json::read_err(Seq::empty()),
            },
        ),
{
    let gm_session = match field_text(&body, "session_id") {
        Some(s) => Some(s),
        None => match field_text(&body, "SESSION_ID") {
            Some(s) => Some(s),
            None => gm_session_from_spool_task(spool_task),
        },
    };
    DispatchOrigin { gm_session, named_page_session: field_text(&body, "sessionId") }
}

/// The origin of a dispatch.
pub fn dispatch_origin_of(spool_task: &str, body: &str) -> (r: DispatchOrigin)
    ensures
        r@ == origin_of(spool_task@, json::parsed_json(body@)),
{
    match json::parse(body) {
        Ok(v) => origin_in(spool_task, Some(v)),
        Err(_) => origin_in(spool_task, None),
    }
}

// ---------------------------------------------------------------------------
// Scopes
// ---------------------------------------------------------------------------
/// What was the current origin before a dispatch began.
pub struct DispatchOriginScope {
    pub previous: Option<DispatchOrigin>,
}

/// Begins a dispatch: its origin becomes the current one, and its session is
/// noted as active.
pub fn enter_dispatch_origin_scope(
    current: &mut Option<DispatchOrigin>,
    activity: &mut StrMap<u64>,
    spool_task: &str,
    body: &str,
    now_ms: u64,
) -> (r: DispatchOriginScope)
    ensures
        opt_origin(r.previous) == opt_origin(*old(current)),
        opt_origin(*final(current)) == Some(origin_of(spool_task@, json::parsed_json(body@))),
        match origin_of(spool_task@, json::parsed_json(body@)).gm_session {
            Some(s) => activity_noted(old(activity)@, final(activity)@, s, now_ms),
            None => final(activity)@ == old(activity)@,
        },
{
    let origin = dispatch_origin_of(spool_task, body);
    match &origin.gm_session {
        Some(s) => {
            note_session_activity(activity, s.as_str(), now_ms);
        },
        None => {},
    }
    let mut previous = Some(origin);
    std::mem::swap(&mut previous, current);
    DispatchOriginScope { previous }
}

/// Ends a dispatch: the origin before it becomes current again.
pub fn leave_dispatch_origin_scope(current: &mut Option<DispatchOrigin>, scope: DispatchOriginScope)
    ensures
        opt_origin(*final(current)) == opt_origin(scope.previous),
{
    *current = scope.previous;
}

/// The current origin; one that names nothing outside any dispatch.
pub fn current_dispatch_origin(current: &Option<DispatchOrigin>) -> (r: DispatchOrigin)
    ensures
        r@ == (match *current {
            Some(o) => o@,
            None => OriginView { gm_session: None, named_page_session: None },
        }),
{
    match current {
        Some(o) => DispatchOrigin {
            gm_session: copy_text(&o.gm_session),
            named_page_session: copy_text(&o.named_page_session),
        },
        None => DispatchOrigin { gm_session: None, named_page_session: None },
    }
}

// ---------------------------------------------------------------------------
// Activity
// ---------------------------------------------------------------------------
/// How many sessions are remembered.
pub const SESSION_ACTIVITY_MAX_ENTRIES: usize = 4096;

/// Whether `after` is `before` without its oldest entries.
pub open spec fn oldest_dropped(before: Map<Seq<char>, u64>, after: Map<Seq<char>, u64>) -> bool {
    &&& after.submap_of(before)
    &&& forall|gone: Seq<char>, kept: Seq<char>| #![trigger before[gone], after[kept]]
        before.dom().contains(gone) && !after.dom().contains(gone) && after.dom().contains(kept)
            ==> before[gone] <= after[kept]
}

/// Whether `after` remembers that a session was active now. Once more than the
/// limit are remembered, the oldest are dropped, down to half the limit; which
/// of those of equal age go is open.
pub open spec fn activity_noted(
    before: Map<Seq<char>, u64>,
    after: Map<Seq<char>, u64>,
    session: Seq<char>,
    now_ms: u64,
) -> bool {
    let noted = before.insert(session, now_ms);
    &&& oldest_dropped(noted, after)
    &&& noted.dom().len() <= SESSION_ACTIVITY_MAX_ENTRIES ==> after == noted
    &&& noted.dom().len() > SESSION_ACTIVITY_MAX_ENTRIES ==> after.dom().len()
        == SESSION_ACTIVITY_MAX_ENTRIES / 2
}

/// A table has as many keys as its order of keys is long.
proof fn lemma_key_count(keys: Seq<Seq<char>>, dom: Set<Seq<char>>)
    requires
        keys.no_duplicates(),
        forall|k: Seq<char>| dom.contains(k) <==> keys.contains(k),
    ensures
        dom.finite(),
        dom.len() == keys.len(),
{
    keys.unique_seq_to_set();
    assert(dom =~= keys.to_set());
}

/// The position of the entry that was active longest ago.
fn oldest_position(activity: &StrMap<u64>, n: usize) -> (r: usize)
    requires
        0 < n == activity.keys().len(),
    ensures
        r < n,
        forall|j: int|
            0 <= j < n ==> activity@[activity.keys()[r as int]] <= activity@[#[trigger] activity.keys()[j]],
{
    let mut best: usize = 0;
    let mut best_t: u64 = *activity.value_at(0);
    for i in 1..n
        invariant
            0 < n == activity.keys().len(),
            best < i <= n,
            best_t == activity@[activity.keys()[best as int]],
            forall|j: int| 0 <= j < i ==> best_t <= activity@[#[trigger] activity.keys()[j]],
    {
        let t: u64 = *activity.value_at(i);
        if t < best_t {
            best = i;
            best_t = t;
        }
    }
    best
}

/// Notes that a session is active now.
pub fn note_session_activity(activity: &mut StrMap<u64>, session_id: &str, now_ms: u64)
    ensures
        activity_noted(old(activity)@, final(activity)@, session_id@, now_ms),
{
    activity.insert(session_id.to_owned(), now_ms);
    let ghost noted = activity@;
    let n: usize = activity.len();
    proof {
        lemma_key_count(activity.keys(), noted.dom());
    }
    if n > SESSION_ACTIVITY_MAX_ENTRIES {
        let keep: usize = SESSION_ACTIVITY_MAX_ENTRIES / 2;
        let mut left: usize = n;
        while left > keep
            invariant
                keep == SESSION_ACTIVITY_MAX_ENTRIES / 2,
                keep <= left,
                left == activity.keys().len(),
                oldest_dropped(noted, activity@),
            decreases left,
        {
            let _ = activity.len();
            let at: usize = oldest_position(activity, left);
            let key = activity.key_at(at).clone();
            let ghost before = activity@;
            let ghost keys = activity.keys();
            let _ = activity.remove(key.as_str());
            proof {
                assert forall|gone: Seq<char>, kept: Seq<char>|
                    #![trigger noted[gone], activity@[kept]]
                    noted.dom().contains(gone) && !activity@.dom().contains(gone)
                        && activity@.dom().contains(kept) implies noted[gone] <= activity@[kept] by {
                    assert(before.dom().contains(kept));
                    assert(before[kept] == activity@[kept]);
                    if gone == key@ {
                        assert(keys.contains(kept));
                        let j = choose|j: int| 0 <= j < keys.len() && keys[j] == kept;
                        assert(before[keys[at as int]] <= before[keys[j]]);
                    } else {
                        assert(!before.dom().contains(gone));
                    }
                }
            }
            left = left - 1;
        }
        let _ = activity.len();
        proof {
            lemma_key_count(activity.keys(), activity@.dom());
        }
    }
}

/// How long ago a session was active, if it is remembered.
pub fn session_activity_elapsed(activity: &StrMap<u64>, session_id: &str, now_ms: u64) -> (r: Option<
    u64,
>)
    ensures
        r == (if activity@.dom().contains(session_id@) {
            Some(
                (if now_ms >= activity@[session_id@] {
                    (now_ms - activity@[session_id@]) as u64
                } else {
                    0u64
                }),
            )
        } else {
            None
        }),
{
    match activity.get(session_id) {
        Some(t) => Some(now_ms.saturating_sub(*t)),
        None => None,
    }
}

/// The session that was just noted is never among those that are dropped,
/// unless others were noted at the same time or later.
pub proof fn law_newest_session_is_remembered(
    before: Map<Seq<char>, u64>,
    after: Map<Seq<char>, u64>,
    session: Seq<char>,
    now_ms: u64,
)
    requires
        activity_noted(before, after, session, now_ms),
        forall|k: Seq<char>| #[trigger] before.dom().contains(k) ==> before[k] < now_ms,
        after.dom().len() > 0,
        after.dom().finite(),
    ensures
        after.dom().contains(session),
{
    let noted = before.insert(session, now_ms);
    if !after.dom().contains(session) {
        let k = after.dom().choose();
        assert(after.dom().contains(k));
        assert(oldest_dropped(noted, after));
        assert(after.submap_of(noted));
        assert(noted.dom().contains(k));
        assert(noted[k] == after[k]);
        assert(noted[session] <= after[k]);
        assert(before.dom().contains(k));
    }
}

/// The session of a dispatch is the one it names, else the page session of its
/// request, else that of its origin, else that of the guest, else the default.
pub proof fn law_named_sessions_go_first(
    o: OriginView,
    explicit: Seq<char>,
    page: Seq<char>,
    gm: Seq<char>,
    guest: Seq<char>,
)
    ensures
        page_session_of(o, Some(explicit), guest) == explicit,
        o.named_page_session == Some(page) ==> page_session_of(o, None, guest) == page,
        o.named_page_session is None && o.gm_session == Some(gm) ==> page_session_of(o, None, guest) == gm,
        o.named_page_session is None && o.gm_session is None && !text::is_blank(guest)
            ==> page_session_of(o, None, guest) == text::trimmed(guest),
        o.named_page_session is None && o.gm_session is None && text::is_blank(guest) ==> page_session_of(
            o,
            None,
            guest,
        ) == "default"@,
        o.gm_session == Some(gm) ==> implicit_session(o, guest) == gm,
        o.gm_session is None && text::is_blank(guest) ==> implicit_session(o, guest) == "default"@,
        o.gm_session is None && !text::is_blank(guest) ==> implicit_session(o, guest) == text::trimmed(
            guest,
        ),
{
}

/// A task is named after its session and a counter, or after its session, a
/// counter, the time in milliseconds and another counter.
pub proof fn law_task_names_its_session(session: Seq<char>, a: nat, at: Seq<char>, b: nat)
    requires
        !text::has_char(session, '-'),
        !text::is_blank(session),
        text::all_digits(at),
        at.len() >= 12,
    ensures
        session_in_task(session.push('-') + text::decimal(b)) == Some(session),
        session_in_task(
            session.push('-') + (text::decimal(a).push('-') + (at.push('-') + text::decimal(b))),
        ) == Some(session),
        session_in_task(session) is None,
{
    let x = text::decimal(a);
    let y = text::decimal(b);
    text::lemma_decimal(a);
    text::lemma_decimal(b);
    text::lemma_cut_at(session, '-');
    lemma_no_hyphens(x);
    lemma_no_hyphens(y);
    lemma_no_hyphens(at);
    text::law_text_splits_at_each_mark(session, '-', y);
    text::law_text_splits_at_each_mark(y, '-', y);
    let short = session.push('-') + y;
    assert(text::pieces(short, '-') =~= seq![session, y]);
    assert(seq![session, y].take(1) =~= seq![session]);
    assert(text::joined(seq![session], "-"@) == session);
    let tail = at.push('-') + y;
    let mid = x.push('-') + tail;
    text::law_text_splits_at_each_mark(at, '-', y);
    text::law_text_splits_at_each_mark(x, '-', tail);
    text::law_text_splits_at_each_mark(session, '-', mid);
    let long = session.push('-') + mid;
    assert(text::pieces(long, '-') =~= seq![session, x, at, y]);
    assert(seq![session, x, at, y].take(1) =~= seq![session]);
    assert(text::pieces(session, '-') =~= seq![session]);
}

proof fn lemma_no_hyphens(s: Seq<char>)
    requires
        text::all_digits(s),
    ensures
        forall|i: int| 0 <= i < s.len() ==> #[trigger] s[i] != '-',
{
    assert forall|i: int| 0 <= i < s.len() implies #[trigger] s[i] != '-' by {
        assert(text::is_digit(s[i]));
    }
}

/// The origin of a request is the session its envelope names, else the one its
/// task is named after; the page session is that of the envelope.
pub proof fn law_envelope_goes_before_the_task(task: Seq<char>, t: JsonTree, s: Seq<char>, e: Seq<char>)
    requires
        !text::is_blank(s),
        text::trimmed(s) == s,
    ensures
        json::field(t, "session_id"@) == Some(JsonTree::Str(s)) ==> origin_of(task, Ok(t)).gm_session
            == Some(s),
        json::field(t, "session_id"@) is None && json::field(t, "SESSION_ID"@) == Some(JsonTree::Str(s))
            ==> origin_of(task, Ok(t)).gm_session == Some(s),
        json::field(t, "session_id"@) is None && json::field(t, "SESSION_ID"@) is None ==> origin_of(
            task,
            Ok(t),
        ).gm_session == session_in_task(task),
        json::field(t, "sessionId"@) == Some(JsonTree::Str(s)) ==> origin_of(task, Ok(t)).named_page_session
            == Some(s),
        json::field(t, "sessionId"@) is None ==> origin_of(task, Ok(t)).named_page_session is None,
        origin_of(task, Err(e)).gm_session == session_in_task(task),
        origin_of(task, Err(e)).named_page_session is None,
{
}

/// Up to 4096 sessions are remembered; with one more, the 2048 latest are kept.
pub proof fn law_latest_sessions_are_remembered(
    before: Map<Seq<char>, u64>,
    after: Map<Seq<char>, u64>,
    session: Seq<char>,
    now_ms: u64,
)
    requires
        activity_noted(before, after, session, now_ms),
    ensures
        before.insert(session, now_ms).dom().len() <= 4096 ==> after == before.insert(session, now_ms),
        before.insert(session, now_ms).dom().len() > 4096 ==> after.dom().len() == 2048,
        forall|gone: Seq<char>, kept: Seq<char>| #![trigger before.dom().contains(gone), after[kept]]
            gone != session && before.dom().contains(gone) && !after.dom().contains(gone)
                && after.dom().contains(kept) ==> before[gone] <= after[kept],
{
    let noted = before.insert(session, now_ms);
    assert forall|gone: Seq<char>, kept: Seq<char>| #![trigger before.dom().contains(gone), after[kept]]
        gone != session && before.dom().contains(gone) && !after.dom().contains(gone)
            && after.dom().contains(kept) implies before[gone] <= after[kept] by {
        assert(noted[gone] == before[gone]);
    }
}

/// A session whose name holds a hyphen is named whole by its tasks.
pub proof fn law_hyphens_stay_in_a_session(a: Seq<char>, b: Seq<char>, n: nat)
    requires
        !text::has_char(a, '-'),
        !text::has_char(b, '-'),
        a.len() > 0,
        !text::is_space(a[0]),
    ensures
        session_in_task((a.push('-') + b).push('-') + text::decimal(n)) == Some(a.push('-') + b),
{
    reveal_strlit("-");
    let d = text::decimal(n);
    text::lemma_decimal(n);
    text::lemma_cut_at(a, '-');
    text::lemma_cut_at(b, '-');
    lemma_no_hyphens(d);
    let s = a.push('-') + b;
    text::law_text_splits_at_each_mark(s, '-', d);
    text::law_text_splits_at_each_mark(a, '-', b);
    text::law_text_splits_at_each_mark(b, '-', b);
    text::law_text_splits_at_each_mark(d, '-', d);
    assert(text::pieces(s.push('-') + d, '-') =~= seq![a, b, d]);
    assert(seq![a, b, d].take(2) =~= seq![a].push(b));
    text::law_joining_puts_the_separator_between(seq![a], b, "-"@);
    assert(text::joined(seq![a].push(b), "-"@) =~= s);
    assert(s[0] == a[0]);
    assert(text::trimmed_start(s) == s);
    lemma_not_blank(s);
}

proof fn lemma_not_blank(s: Seq<char>)
    requires
        s.len() > 0,
        !text::is_space(s[0]),
    ensures
        text::trimmed_end(s).len() > 0,
    decreases s.len(),
{
    if text::is_space(s.last()) {
        assert(s.len() > 1);
        assert(s.drop_last()[0] == s[0]);
        lemma_not_blank(s.drop_last());
    }
}

} // verus!

//! The claims of a daemon: what is in flight, what a successor inherits, and
//! what becomes of claims whose daemon is gone.
use crate::exec_js;
use crate::imports;
use crate::json;
use crate::json::{Json, JsonTree};
use crate::path;
use crate::path::PathView;
use crate::spool;
use crate::text;
use vstd::prelude::*;
use vstd::string::*;

verus! {

/// A request that is claimed: its project, its verb and its task.
pub struct Claim {
    pub root: String,
    pub verb: String,
    pub task: String,
}

/// A claim, as a value.
#[verifier::ext_equal]
pub struct ClaimView {
    pub root: Seq<char>,
    pub verb: Seq<char>,
    pub task: Seq<char>,
}

impl View for Claim {
    type V = ClaimView;

    open spec fn view(&self) -> ClaimView {
        ClaimView { root: self.root@, verb: self.verb@, task: self.task@ }
    }
}

/// Claims, as values.
pub open spec fn claim_views(s: Seq<Claim>) -> Seq<ClaimView> {
    Seq::new(s.len(), |i: int| s[i]@)
}

/// What tells claims apart: the project, whichever way its path is written, the
/// verb and the task.
#[verifier::ext_equal]
pub struct ClaimKey {
    pub root: PathView,
    pub verb: Seq<char>,
    pub task: Seq<char>,
}

/// What tells a claim apart.
pub open spec fn key_of(c: ClaimView) -> ClaimKey {
    ClaimKey { root: path::components(c.root), verb: c.verb, task: c.task }
}

/// What tells a claim apart that is given by its parts.
pub open spec fn key(root: Seq<char>, verb: Seq<char>, task: Seq<char>) -> ClaimKey {
    key_of(ClaimView { root, verb, task })
}

/// Whether a claim is among some.
pub open spec fn holds(s: Seq<Claim>, c: ClaimKey) -> bool {
    exists|i: int| 0 <= i < s.len() && key_of((#[trigger] s[i])@) == c
}

fn is_claim(c: &Claim, root: &str, verb: &str, task: &str) -> (r: bool)
    ensures
        r == (key_of(c@) == key(root@, verb@, task@)),
{
    path::same(c.root.as_str(), root) && text::str_eq(c.verb.as_str(), verb) && text::str_eq(
        c.task.as_str(),
        task,
    )
}

/// Whether a claim is among some.
pub fn contains_claim(list: &Vec<Claim>, root: &str, verb: &str, task: &str) -> (r: bool)
    ensures
        r == holds(list@, key(root@, verb@, task@)),
{
    let ghost c = key(root@, verb@, task@);
    for i in 0..list.len()
        invariant
            c == key(root@, verb@, task@),
            forall|j: int| 0 <= j < i ==> key_of((#[trigger] list@[j])@) != c,
    {
        if is_claim(&list[i], root, verb, task) {
            assert(key_of(list@[i as int]@) == c);
            return true;
        }
    }
    false
}

fn copy_claim(c: &Claim) -> (r: Claim)
    ensures
        r@ == c@,
{
    Claim { root: c.root.clone(), verb: c.verb.clone(), task: c.task.clone() }
}

// ---------------------------------------------------------------------------
// In flight
// ---------------------------------------------------------------------------
/// The dispatches that run, each once.
pub struct InFlight {
    entries: Vec<Claim>,
}

/// Whether no claim stands twice.
pub open spec fn distinct(s: Seq<Claim>) -> bool {
    forall|i: int, j: int|
        0 <= i < j < s.len() ==> key_of((#[trigger] s[i])@) != key_of((#[trigger] s[j])@)
}

/// Whether a claim is among some, to the letter.
pub open spec fn among(s: Seq<Claim>, c: ClaimView) -> bool {
    exists|i: int| 0 <= i < s.len() && (#[trigger] s[i])@ == c
}

/// Whether a dispatch is among those that run.
pub open spec fn runs(running: Set<ClaimView>, k: ClaimKey) -> bool {
    exists|c: ClaimView| #[trigger] running.contains(c) && key_of(c) == k
}

/// The dispatches that run once another does. One that runs already stays as
/// it was written first.
pub open spec fn with_dispatch(running: Set<ClaimView>, c: ClaimView) -> Set<ClaimView> {
    if runs(running, key_of(c)) {
        running
    } else {
        running.insert(c)
    }
}

/// The dispatches that run once one of them does no more.
pub open spec fn without_dispatch(running: Set<ClaimView>, k: ClaimKey) -> Set<ClaimView> {
    running.filter(|c: ClaimView| key_of(c) != k)
}

/// A claim of a list is held by what tells it apart, and the other way round.
proof fn lemma_among(s: Seq<Claim>, k: ClaimKey)
    ensures
        holds(s, k) <==> exists|c: ClaimView| #[trigger] among(s, c) && key_of(c) == k,
{
    if holds(s, k) {
        let i = choose|i: int| 0 <= i < s.len() && key_of((#[trigger] s[i])@) == k;
        assert(among(s, s[i]@));
    }
}

impl View for InFlight {
    type V = Set<ClaimView>;

    closed spec fn view(&self) -> Set<ClaimView> {
        Set::new(|c: ClaimView| among(self.entries@, c))
    }
}

impl InFlight {
    #[verifier::type_invariant]
    spec fn each_once(self) -> bool {
        distinct(self.entries@)
    }

    /// Nothing runs.
    pub fn new() -> (r: Self)
        ensures
            r@ == Set::<ClaimView>::empty(),
    {
        let r = InFlight { entries: Vec::new() };
        assert(r@ =~= Set::<ClaimView>::empty());
        r
    }

    /// Whether nothing runs.
    pub fn is_empty(&self) -> (r: bool)
        ensures
            r == (self@ == Set::<ClaimView>::empty()),
    {
        proof {
            if self.entries@.len() == 0 {
                assert(self@ =~= Set::<ClaimView>::empty());
            } else {
                assert(among(self.entries@, self.entries@[0]@));
                assert(self@.contains(self.entries@[0]@));
            }
        }
        self.entries.len() == 0
    }

    proof fn lemma_runs(&self, k: ClaimKey)
        ensures
            runs(self@, k) == holds(self.entries@, k),
    {
        lemma_among(self.entries@, k);
        if holds(self.entries@, k) {
            let c = choose|c: ClaimView| #[trigger] among(self.entries@, c) && key_of(c) == k;
            assert(self@.contains(c));
        }
        if runs(self@, k) {
            let c = choose|c: ClaimView| #[trigger] self@.contains(c) && key_of(c) == k;
            assert(among(self.entries@, c));
        }
    }

    /// Notes that a dispatch runs.
    pub fn insert(&mut self, root: &str, verb: &str, task: &str)
        ensures
            final(self)@ == with_dispatch(
                old(self)@,
                (ClaimView { root: root@, verb: verb@, task: task@ }),
            ),
    {
        proof {
            use_type_invariant(&*self);
        }
        let ghost before = self.entries@;
        let ghost c = ClaimView { root: root@, verb: verb@, task: task@ };
        proof {
            self.lemma_runs(key_of(c));
        }
        if contains_claim(&self.entries, root, verb, task) {
            return;
        }
        let mut entries: Vec<Claim> = Vec::new();
        std::mem::swap(&mut entries, &mut self.entries);
        entries.push(
            Claim { root: root.to_owned(), verb: verb.to_owned(), task: task.to_owned() },
        );
        proof {
            assert forall|i: int, j: int| 0 <= i < j < entries@.len() implies key_of(
                (#[trigger] entries@[i])@,
            ) != key_of((#[trigger] entries@[j])@) by {
                if j == before.len() {
                    assert(key_of(before[i]@) != key_of(c));
                }
            }
            assert forall|d: ClaimView| #[trigger]
                among(entries@, d) == (among(before, d) || d == c) by {
                if among(entries@, d) {
                    let i = choose|i: int| 0 <= i < entries@.len() && (#[trigger] entries@[i])@ == d;
                    if i < before.len() {
                        assert(before[i]@ == d);
                    }
                }
                if among(before, d) {
                    let i = choose|i: int| 0 <= i < before.len() && (#[trigger] before[i])@ == d;
                    assert(entries@[i]@ == d);
                }
                assert(entries@[before.len() as int]@ == c);
            }
        }
        self.entries = entries;
        assert forall|d: ClaimView| self@.contains(d) == old(self)@.insert(c).contains(d) by {
            assert(among(self.entries@, d) == (among(before, d) || d == c));
        }
        assert(self@ =~= old(self)@.insert(c));
    }

    /// Notes that a dispatch runs no more. Gives whether it ran.
    pub fn remove(&mut self, root: &str, verb: &str, task: &str) -> (r: bool)
        ensures
            r == runs(old(self)@, key(root@, verb@, task@)),
            final(self)@ == without_dispatch(old(self)@, key(root@, verb@, task@)),
    {
        proof {
            use_type_invariant(&*self);
        }
        let ghost before = self.entries@;
        let ghost k = key(root@, verb@, task@);
        proof {
            self.lemma_runs(k);
        }
        let mut entries: Vec<Claim> = Vec::new();
        std::mem::swap(&mut entries, &mut self.entries);
        let n: usize = entries.len();
        for i in 0..n
            invariant
                n == before.len(),
                entries@ == before,
                distinct(before),
                old(self)@ == Set::new(|d: ClaimView| among(before, d)),
                runs(old(self)@, k) == holds(before, k),
                k == key(root@, verb@, task@),
                forall|j: int| 0 <= j < i ==> key_of((#[trigger] before[j])@) != k,
        {
            if is_claim(&entries[i], root, verb, task) {
                let _ = entries.remove(i);
                proof {
                    let after = entries@;
                    assert(key_of(before[i as int]@) == k);
                    assert forall|a: int, b: int| 0 <= a < b < after.len() implies key_of(
                        (#[trigger] after[a])@,
                    ) != key_of((#[trigger] after[b])@) by {
                        let x = if a < i {
                            a
                        } else {
                            a + 1
                        };
                        let y = if b < i {
                            b
                        } else {
                            b + 1
                        };
                        assert(after[a] == before[x]);
                        assert(after[b] == before[y]);
                    }
                    assert forall|d: ClaimView|
                        among(after, d) == (among(before, d) && key_of(d) != k) by {
                        if among(after, d) {
                            let a = choose|a: int| 0 <= a < after.len() && (#[trigger] after[a])@ == d;
                            let x = if a < i {
                                a
                            } else {
                                a + 1
                            };
                            assert(after[a] == before[x]);
                            assert(before[x]@ == d);
                            assert(key_of(before[x]@) != key_of(before[i as int]@));
                        }
                        if among(before, d) && key_of(d) != k {
                            let x = choose|x: int| 0 <= x < before.len() && (#[trigger] before[x])@ == d;
                            let a = if x < i {
                                x
                            } else {
                                x - 1
                            };
                            assert(after[a] == before[x]);
                        }
                    }
                }
                self.entries = entries;
                assert(self@ =~= without_dispatch(old(self)@, k));
                return true;
            }
        }
        self.entries = entries;
        proof {
            assert(!holds(before, k));
            assert forall|d: ClaimView| among(before, d) implies key_of(d) != k by {
                lemma_among(before, k);
            }
        }
        assert(self@ =~= without_dispatch(old(self)@, k));
        false
    }

    /// Whether a dispatch of a project runs.
    pub fn project_has_in_flight_step(&self, root: &str) -> (r: bool)
        ensures
            r == exists|c: ClaimView| #[trigger] self@.contains(c) && path::same_path(c.root, root@),
    {
        for i in 0..self.entries.len()
            invariant
                forall|j: int|
                    0 <= j < i ==> !path::same_path((#[trigger] self.entries@[j])@.root, root@),
        {
            if path::same(self.entries[i].root.as_str(), root) {
                assert(among(self.entries@, self.entries@[i as int]@));
                assert(self@.contains(self.entries@[i as int]@));
                return true;
            }
        }
        assert forall|c: ClaimView| #[trigger] self@.contains(c) implies !path::same_path(
            c.root,
            root@,
        ) by {
            let j = choose|j: int|
                0 <= j < self.entries@.len() && (#[trigger] self.entries@[j])@ == c;
            assert(self.entries@[j]@ == c);
        }
        false
    }

    /// The claims of the dispatches that run, each once.
    pub fn snapshot_in_flight_claims(&self) -> (r: Vec<Claim>)
        ensures
            distinct(r@),
            forall|c: ClaimView| #[trigger] among(r@, c) <==> self@.contains(c),
    {
        proof {
            use_type_invariant(self);
        }
        let mut out: Vec<Claim> = Vec::new();
        for i in 0..self.entries.len()
            invariant
                out@.len() == i,
                forall|j: int| 0 <= j < i ==> (#[trigger] out@[j])@ == self.entries@[j]@,
        {
            out.push(copy_claim(&self.entries[i]));
        }
        proof {
            assert forall|c: ClaimView| #[trigger] among(out@, c) <==> self@.contains(c) by {
                if among(out@, c) {
                    let j = choose|j: int| 0 <= j < out@.len() && (#[trigger] out@[j])@ == c;
                    assert(self.entries@[j]@ == c);
                }
                if among(self.entries@, c) {
                    let j = choose|j: int|
                        0 <= j < self.entries@.len() && (#[trigger] self.entries@[j])@ == c;
                    assert(out@[j]@ == c);
                }
            }
            assert forall|i: int, j: int| 0 <= i < j < out@.len() implies key_of(
                (#[trigger] out@[i])@,
            ) != key_of((#[trigger] out@[j])@) by {
                assert(key_of(self.entries@[i]@) != key_of(self.entries@[j]@));
            }
        }
        out
    }
}

/// What is answered to a request to take a running dispatch out of the daemon's
/// hands.
pub open spec fn convert_answer(
    verb: Seq<char>,
    task: Seq<char>,
    running: bool,
    answered: bool,
) -> JsonTree {
    let told = |t: JsonTree|
        json::with_field(
            json::with_field(t, "verb"@, JsonTree::Str(verb)),
            "task"@,
            JsonTree::Str(task),
        );
    if running {
        told(json::obj2("ok"@, JsonTree::Bool(true), "converted"@, JsonTree::Bool(true)))
    } else if answered {
        told(
            json::obj2("ok"@, JsonTree::Bool(false), "error"@, JsonTree::Str("already_completed"@)),
        )
    } else {
        told(
            json::obj3(
                "ok"@,
                JsonTree::Bool(false),
                "error"@,
                JsonTree::Str("unknown_task"@),
                "reason"@,
                JsonTree::Str(
                    "no in-flight dispatch and no out/ file found for this verb+task -- that task id was never dispatched, or its verb never matched"@,
                ),
            ),
        )
    }
}

/// Takes a running dispatch out of the daemon's hands. Gives whether it ran,
/// so that it is then detached, and the answer.
pub fn handle_background_convert(
    running: &mut InFlight,
    root: &str,
    verb: &str,
    task: &str,
    answer_exists: bool,
) -> (r: (bool, Json))
    ensures
        ({
            let k = key(root@, verb@, task@);
            &&& r.0 == runs(old(running)@, k)
            &&& final(running)@ == without_dispatch(old(running)@, k)
            &&& json::tree(r.1) == convert_answer(verb@, task@, r.0, answer_exists)
        }),
{
    let ran = running.remove(root, verb, task);
    let base = if ran {
        json::object2("ok", json::boolean(true), "converted", json::boolean(true))
    } else if answer_exists {
        json::object2("ok", json::boolean(false), "error", json::str("already_completed"))
    } else {
        json::object3(
            "ok",
            json::boolean(false),
            "error",
            json::str("unknown_task"),
            "reason",
            json::str(
                "no in-flight dispatch and no out/ file found for this verb+task -- that task id was never dispatched, or its verb never matched",
            ),
        )
    };
    (ran, base.with("verb", json::str(verb)).with("task", json::str(task)))
}

/// What is answered to a request that does not say which dispatch it means.
pub fn convert_refusal(error: &str) -> (r: Json)
    ensures
        json::tree(r) == spool::failure(
            "background-convert body must be {verb, task}: "@ + error@,
            None,
        ),
{
    spool::failed_answer(
        text::add2("background-convert body must be {verb, task}: ", error).as_str(),
        None,
    )
}

/// A dispatch that was taken out of the daemon's hands is not taken out again.
pub proof fn law_converted_once(running: Set<ClaimView>, k: ClaimKey)
    ensures
        !runs(without_dispatch(running, k), k),
{
}

// ---------------------------------------------------------------------------
// Handing over
// ---------------------------------------------------------------------------
/// For how long a successor inherits claims, in milliseconds.
pub const HANDOFF_INHERITED_CLAIMS_MAX_AGE_MS: u64 = 900_000;

/// Where the claims are noted that a successor inherits.
pub fn handoff_inherited_claims_path(install_dir: &str) -> (r: String)
    ensures
        r@ == path::joined_path(install_dir@, "handoff-inherited-claims.json"@),
{
    path::join(install_dir, "handoff-inherited-claims.json")
}

/// A claim in JSON.
pub open spec fn claim_tree(c: ClaimView) -> JsonTree {
    json::obj3(
        "root"@,
        JsonTree::Str(c.root),
        "verb"@,
        JsonTree::Str(c.verb),
        "task"@,
        JsonTree::Str(c.task),
    )
}

/// The note of the claims that a successor inherits.
pub open spec fn handoff_tree(version: Seq<char>, pid: nat, now_ms: nat, claims: Seq<ClaimView>) -> JsonTree {
    json::obj4(
        "version"@,
        JsonTree::Str(version),
        "pid"@,
        json::uint_tree(pid),
        "ts"@,
        json::uint_tree(now_ms),
        "claims"@,
        JsonTree::Array(Seq::new(claims.len(), |i: int| claim_tree(claims[i]))),
    )
}

/// The note of the claims that a successor inherits; nothing where there are
/// none, so that an older note is removed.
pub fn write_handoff_inherited_claims(version: &str, pid: u32, now_ms: u64, claims: &Vec<Claim>) -> (r:
    Option<Json>)
    ensures
        r is None <==> claims@.len() == 0,
        r matches Some(j) ==> json::tree(j) == handoff_tree(
            version@,
            pid as nat,
            now_ms as nat,
            claim_views(claims@),
        ),
{
    if claims.len() == 0 {
        return None;
    }
    let mut rows: Vec<Json> = Vec::new();
    for i in 0..claims.len()
        invariant
            rows@.len() == i,
            forall|k: int|
                0 <= k < i ==> json::tree(#[trigger] rows@[k]) == claim_tree(claims@[k]@),
    {
        rows.push(
            json::object3(
                "root",
                json::str(claims[i].root.as_str()),
                "verb",
                json::str(claims[i].verb.as_str()),
                "task",
                json::str(claims[i].task.as_str()),
            ),
        );
    }
    proof {
        json::lemma_trees(rows@);
        let views = claim_views(claims@);
        let want = Seq::new(views.len(), |i: int| claim_tree(views[i]));
        assert forall|i: int| 0 <= i < rows@.len() implies json::trees(rows@)[i] == want[i] by {
            assert(json::trees(rows@)[i] == json::tree(rows@[i]));
        }
        assert(json::trees(rows@) =~= want);
    }
    Some(
        json::object4(
            "version",
            json::str(version),
            "pid",
            json::uint(pid as u64),
            "ts",
            json::uint(now_ms),
            "claims",
            Json::Array(rows),
        ),
    )
}

/// The claim in a row of a note, if it is one.
pub open spec fn row_claim(t: JsonTree) -> Option<ClaimView> {
    match (json::field_str(t, "root"@), json::field_str(t, "verb"@), json::field_str(t, "task"@)) {
        (Some(root), Some(verb), Some(task)) => Some(ClaimView { root, verb, task }),
        _ => None,
    }
}

/// The claims in the first `n` rows of a note.
pub open spec fn rows_claims(rows: Seq<JsonTree>, n: int) -> Seq<ClaimView>
    decreases n,
{
    if n <= 0 {
        Seq::empty()
    } else {
        match row_claim(rows[n - 1]) {
            Some(c) => rows_claims(rows, n - 1).push(c),
            None => rows_claims(rows, n - 1),
        }
    }
}

/// The claims that are inherited by a note: none where it is too old.
pub open spec fn inherited(marker: Option<JsonTree>, now_ms: u64) -> Seq<ClaimView> {
    match marker {
        Some(t) => match json::field_u64(t, "ts"@) {
            Some(ts) => if now_ms - ts <= HANDOFF_INHERITED_CLAIMS_MAX_AGE_MS {
                match json::field(t, "claims"@) {
                    Some(JsonTree::Array(rows)) => rows_claims(rows, rows.len() as int),
                    _ => Seq::empty(),
                }
            } else {
                Seq::empty()
            },
            None => Seq::empty(),
        },
        None => Seq::empty(),
    }
}

fn claim_in_row(row: &Json) -> (r: Option<Claim>)
    ensures
        match r {
            Some(c) => row_claim(json::tree(*row)) == Some(c@),
            None => row_claim(json::tree(*row)) is None,
        },
{
    match (row.str_field("root"), row.str_field("verb"), row.str_field("task")) {
        (Some(root), Some(verb), Some(task)) => Some(
            Claim { root: root.to_owned(), verb: verb.to_owned(), task: task.to_owned() },
        ),
        _ => None,
    }
}

/// The claims that are inherited by a note.
pub fn inherited_claims(marker: &Option<Json>, now_ms: u64) -> (r: Vec<Claim>)
    ensures
        claim_views(r@) == inherited(imports::opt_tree(*marker), now_ms),
{
    let mut out: Vec<Claim> = Vec::new();
    assert(claim_views(out@) =~= Seq::<ClaimView>::empty());
    match marker {
        Some(v) => {
            let ts: u64 = match v.u64_field("ts") {
                Some(ts) => ts,
                None => {
                    return out;
                },
            };
            if now_ms.saturating_sub(ts) > HANDOFF_INHERITED_CLAIMS_MAX_AGE_MS {
                return out;
            }
            match v.get("claims") {
                Some(Json::Array(rows)) => {
                    proof {
                        json::lemma_trees(rows@);
                    }
                    let ghost all = json::trees(rows@);
                    for i in 0..rows.len()
                        invariant
                            all == json::trees(rows@),
                            all.len() == rows@.len(),
                            forall|k: int|
                                0 <= k < rows@.len() ==> all[k] == #[trigger] json::tree(rows@[k]),
                            claim_views(out@) == rows_claims(all, i as int),
                    {
                        let ghost before = out@;
                        assert(all[i as int] == json::tree(rows@[i as int]));
                        match claim_in_row(&rows[i]) {
                            Some(c) => {
                                let ghost cv = c@;
                                out.push(c);
                                assert(claim_views(out@) =~= claim_views(before).push(cv));
                            },
                            None => {},
                        }
                    }
                },
                Some(_) => {},
                None => {},
            }
        },
        None => {},
    }
    out
}

/// The claims that are inherited, from the file that notes them.
pub fn read_handoff_inherited_claims(content: Option<&str>, now_ms: u64) -> (r: Vec<Claim>)
    ensures
        claim_views(r@) == inherited(exec_js::read_of(text::opt_view(content)), now_ms),
{
    let marker = match content {
        Some(s) => match json::parse(s) {
            Ok(j) => Some(j),
            Err(_) => None,
        },
        None => None,
    };
    inherited_claims(&marker, now_ms)
}

/// A successor inherits what was noted for it, as long as the note is not too
/// old.
pub proof fn law_successor_inherits_what_was_noted(
    version: Seq<char>,
    pid: nat,
    noted_ms: u64,
    claims: Seq<ClaimView>,
    now_ms: u64,
)
    requires
        now_ms - noted_ms <= HANDOFF_INHERITED_CLAIMS_MAX_AGE_MS,
    ensures
        inherited(Some(handoff_tree(version, pid, noted_ms as nat, claims)), now_ms) == claims,
{
    reveal_strlit("version");
    reveal_strlit("pid");
    reveal_strlit("ts");
    reveal_strlit("claims");
    let t = handoff_tree(version, pid, noted_ms as nat, claims);
    let rows = Seq::new(claims.len(), |i: int| claim_tree(claims[i]));
    assert("ts"@.len() == 2 && "pid"@.len() == 3 && "claims"@.len() == 6 && "version"@.len() == 7);
    assert(json::field(t, "ts"@) == Some(json::uint_tree(noted_ms as nat)));
    assert(json::field(t, "claims"@) == Some(JsonTree::Array(rows)));
    text::law_decimal_reads_back(noted_ms as nat, u64::MAX as nat);
    lemma_uint_reads(noted_ms);
    lemma_rows(claims, claims.len() as int);
    assert(claims.take(claims.len() as int) =~= claims);
}

proof fn lemma_uint_reads(n: u64)
    ensures
        json::tree_u64(json::uint_tree(n as nat)) == Some(n as nat),
{
    text::lemma_decimal(n as nat);
    text::law_decimal_reads_back(n as nat, u64::MAX as nat);
}

proof fn lemma_rows(claims: Seq<ClaimView>, n: int)
    requires
        0 <= n <= claims.len(),
    ensures
        rows_claims(Seq::new(claims.len(), |i: int| claim_tree(claims[i])), n) == claims.take(n),
    decreases n,
{
    let rows = Seq::new(claims.len(), |i: int| claim_tree(claims[i]));
    if n > 0 {
        lemma_rows(claims, n - 1);
        reveal_strlit("root");
        reveal_strlit("verb");
        reveal_strlit("task");
        assert("root"@[0] == 'r' && "verb"@[0] == 'v' && "task"@[0] == 't');
        assert(row_claim(rows[n - 1]) == Some(claims[n - 1]));
        assert(claims.take(n - 1).push(claims[n - 1]) =~= claims.take(n));
    } else {
        assert(claims.take(0) =~= Seq::<ClaimView>::empty());
    }
}

/// What is done to put a claim back among the requests.
#[derive(Debug, Clone, Copy, PartialEq, Eq, Structural)]
pub enum Requeue {
    /// The request is there already: the claim is removed.
    RemoveClaim,
    /// The claim takes the place of the request.
    RenameClaim,
}

/// What is done to put a claim back among the requests.
pub fn requeue_claim(queued_exists: bool) -> (r: Requeue)
    ensures
        r == (if queued_exists {
            Requeue::RemoveClaim
        } else {
            Requeue::RenameClaim
        }),
{
    if queued_exists {
        Requeue::RemoveClaim
    } else {
        Requeue::RenameClaim
    }
}

/// The files after a claim was put back among the requests.
pub open spec fn requeued(files: Map<Seq<char>, Seq<u8>>, in_dir: Seq<char>, verb: Seq<char>, task: Seq<char>) -> Map<
    Seq<char>,
    Seq<u8>,
> {
    let claim = spool::claim_file(in_dir, verb, task);
    let queued = spool::request_file(in_dir, verb, task);
    if files.dom().contains(queued) {
        files.remove(claim)
    } else if files.dom().contains(claim) {
        files.remove(claim).insert(queued, files[claim])
    } else {
        files
    }
}

/// A claim that is put back is a request again and a claim no more, and
/// putting it back once more changes nothing.
pub proof fn law_requeued_claim_is_a_request(
    files: Map<Seq<char>, Seq<u8>>,
    in_dir: Seq<char>,
    verb: Seq<char>,
    task: Seq<char>,
)
    requires
        files.dom().contains(spool::claim_file(in_dir, verb, task)),
    ensures
        ({
            let after = requeued(files, in_dir, verb, task);
            &&& after.dom().contains(spool::request_file(in_dir, verb, task))
            &&& !after.dom().contains(spool::claim_file(in_dir, verb, task))
            &&& requeued(after, in_dir, verb, task) == after
        }),
{
    let claim = spool::claim_file(in_dir, verb, task);
    let queued = spool::request_file(in_dir, verb, task);
    lemma_claim_is_no_request(in_dir, verb, task);
    let after = requeued(files, in_dir, verb, task);
    assert(after.remove(claim) =~= after);
}

proof fn lemma_claim_is_no_request(in_dir: Seq<char>, verb: Seq<char>, task: Seq<char>)
    ensures
        spool::claim_file(in_dir, verb, task) != spool::request_file(in_dir, verb, task),
{
    reveal_strlit(".txt");
    reveal_strlit(".txt.inflight");
    let a = task + ".txt"@;
    let b = task + ".txt.inflight"@;
    assert(a[0] == b[0]);
    assert(a.len() + 9 == b.len());
    assert(path::is_absolute(a) == path::is_absolute(b));
    let base = path::joined_path(in_dir, verb);
    assert(path::joined_path(base, a).len() + 9 == path::joined_path(base, b).len());
}

// ---------------------------------------------------------------------------
// Claims whose daemon is gone
// ---------------------------------------------------------------------------
/// How old a claim must be before it counts as abandoned, in milliseconds.
pub const MIN_ORPHAN_CLAIM_AGE_MS: u64 = 600_000;

/// What is answered for a request whose daemon is gone.
pub open spec fn orphan_error(verb: Seq<char>, task: Seq<char>) -> Seq<char> {
    "verb "@ + verb + " (task "@ + task
        + ") was claimed by a daemon that stopped answering -- a wasm trap, an out-of-memory abort, or a shared-Store recycle during the call. A version handoff is NOT a cause of this error: a handoff re-queues its claims for the incoming daemon, which completes them. The outcome is UNVERIFIED, not known to be unperformed: a side-effecting verb (git_commit/git_finalize/git_push/fs_write/memorize-fire) may already have applied some or all of its work, so read the real state (git log, git status, the file, the store) before re-dispatching. Re-dispatch straight away only for a read-only verb."@
}

/// What is answered for a request whose daemon is gone.
pub open spec fn orphan_answer(verb: Seq<char>, task: Seq<char>, pid: nat) -> JsonTree {
    json::with_field(
        json::obj5(
            "ok"@,
            JsonTree::Bool(false),
            "error_code"@,
            JsonTree::Str("dispatch_orphaned"@),
            "error"@,
            JsonTree::Str(orphan_error(verb, task)),
            "verb"@,
            JsonTree::Str(verb),
            "task"@,
            JsonTree::Str(task),
        ),
        "sweeping_pid"@,
        json::uint_tree(pid),
    )
}

/// What is answered for a request whose daemon is gone.
pub fn orphan_reply(verb: &str, task: &str, pid: u32) -> (r: Json)
    ensures
        json::tree(r) == orphan_answer(verb@, task@, pid as nat),
{
    let error = text::add5(
        "verb ",
        verb,
        " (task ",
        task,
        ") was claimed by a daemon that stopped answering -- a wasm trap, an out-of-memory abort, or a shared-Store recycle during the call. A version handoff is NOT a cause of this error: a handoff re-queues its claims for the incoming daemon, which completes them. The outcome is UNVERIFIED, not known to be unperformed: a side-effecting verb (git_commit/git_finalize/git_push/fs_write/memorize-fire) may already have applied some or all of its work, so read the real state (git log, git status, the file, the store) before re-dispatching. Re-dispatch straight away only for a read-only verb.",
    );
    json::object5(
        "ok",
        json::boolean(false),
        "error_code",
        json::str("dispatch_orphaned"),
        "error",
        json::str(error.as_str()),
        "verb",
        json::str(verb),
        "task",
        json::str(task),
    ).with("sweeping_pid", json::uint(pid as u64))
}

/// A file among the requests of a project, with what is known of it.
pub struct SpoolEntry {
    pub verb: String,
    pub name: String,
    /// How long ago it was touched, if that is known.
    pub age_ms: Option<u64>,
    /// Whether the answer to its request is there.
    pub answered: bool,
}

/// What is done with a file among the requests of a project.
#[derive(Debug, Clone, Copy, PartialEq, Eq, Structural)]
pub enum SweepAction {
    /// It is left alone.
    Leave,
    /// It is removed.
    Remove,
    /// Its request is put back; where that fails, it is looked at again as one
    /// that is not inherited.
    Requeue,
    /// Its request is answered with an error, and it is removed.
    Orphan,
}

/// What is done with a claim that is not inherited: one that is old is
/// abandoned, and answered where no answer is there.
pub open spec fn abandoned(age_ms: Option<u64>, answered: bool) -> SweepAction {
    if age_ms matches Some(age) && age < MIN_ORPHAN_CLAIM_AGE_MS {
        SweepAction::Leave
    } else if answered {
        SweepAction::Remove
    } else {
        SweepAction::Orphan
    }
}

/// What is done with a claim that is not inherited.
pub fn sweep_abandoned(age_ms: Option<u64>, answered: bool) -> (r: SweepAction)
    ensures
        r == abandoned(age_ms, answered),
{
    match age_ms {
        Some(age) => if age < MIN_ORPHAN_CLAIM_AGE_MS {
            return SweepAction::Leave;
        },
        None => {},
    }
    if answered {
        SweepAction::Remove
    } else {
        SweepAction::Orphan
    }
}

/// What is done with a file among the requests of a project.
pub open spec fn sweep_of(root: Seq<char>, e: SpoolEntry, inherited: Seq<Claim>) -> SweepAction {
    let task = spool::claim_task(e.name@);
    if !spool::is_claim(e.name@) {
        SweepAction::Leave
    } else if task.len() == 0 {
        SweepAction::Remove
    } else if holds(inherited, key(root, e.verb@, task)) {
        SweepAction::Requeue
    } else {
        abandoned(e.age_ms, e.answered)
    }
}

/// What is done with a file among the requests of a project.
pub fn sweep_entry(root: &str, e: &SpoolEntry, inherited: &Vec<Claim>) -> (r: SweepAction)
    ensures
        r == sweep_of(root@, *e, inherited@),
{
    if !spool::is_claim_file(e.name.as_str()) {
        return SweepAction::Leave;
    }
    let task = spool::task_of_claim(e.name.as_str());
    if task.is_empty() {
        SweepAction::Remove
    } else if contains_claim(inherited, root, e.verb.as_str(), task) {
        SweepAction::Requeue
    } else {
        sweep_abandoned(e.age_ms, e.answered)
    }
}

/// Whether the claims of a project are gone through: not where another process
/// does so, unless there are claims to inherit.
pub open spec fn sweeps(foreign_sweeper: bool, inherited: nat) -> bool {
    !foreign_sweeper || inherited > 0
}

/// Goes through the files among the requests of a project: what is done with
/// each.
pub fn sweep_orphaned_claims(
    root: &str,
    entries: &Vec<SpoolEntry>,
    inherited: &Vec<Claim>,
    foreign_sweeper: bool,
) -> (r: Vec<SweepAction>)
    ensures
        r@.len() == entries@.len(),
        forall|i: int|
            0 <= i < entries@.len() ==> #[trigger] r@[i] == (if sweeps(
                foreign_sweeper,
                inherited@.len(),
            ) {
                sweep_of(root@, entries@[i], inherited@)
            } else {
                SweepAction::Leave
            }),
{
    let mut out: Vec<SweepAction> = Vec::new();
    let goes = !foreign_sweeper || inherited.len() > 0;
    for i in 0..entries.len()
        invariant
            goes == sweeps(foreign_sweeper, inherited@.len()),
            out@.len() == i,
            forall|j: int|
                0 <= j < i ==> #[trigger] out@[j] == (if goes {
                    sweep_of(root@, entries@[j], inherited@)
                } else {
                    SweepAction::Leave
                }),
    {
        if goes {
            out.push(sweep_entry(root, &entries[i], inherited));
        } else {
            out.push(SweepAction::Leave);
        }
    }
    out
}

/// The files among the requests of one project.
pub struct ProjectSpool {
    pub root: String,
    pub entries: Vec<SpoolEntry>,
    pub foreign_sweeper: bool,
}

/// Goes through the files among the requests of all projects, with the claims
/// that are inherited: what is done with each. The note of the claims is
/// removed then.
pub fn sweep_orphaned_claims_across_roots(
    projects: &Vec<ProjectSpool>,
    inherited: &Vec<Claim>,
) -> (r: Vec<Vec<SweepAction>>)
    ensures
        r@.len() == projects@.len(),
        forall|p: int|
            0 <= p < projects@.len() ==> (#[trigger] r@[p])@.len() == projects@[p].entries@.len(),
        forall|p: int, i: int|
            0 <= p < projects@.len() && 0 <= i < projects@[p].entries@.len() ==> #[trigger] r@[p]@[i]
                == (if sweeps(projects@[p].foreign_sweeper, inherited@.len()) {
                sweep_of(projects@[p].root@, projects@[p].entries@[i], inherited@)
            } else {
                SweepAction::Leave
            }),
{
    let mut out: Vec<Vec<SweepAction>> = Vec::new();
    for p in 0..projects.len()
        invariant
            out@.len() == p,
            forall|q: int|
                0 <= q < p ==> (#[trigger] out@[q])@.len() == projects@[q].entries@.len(),
            forall|q: int, i: int|
                0 <= q < p && 0 <= i < projects@[q].entries@.len() ==> #[trigger] out@[q]@[i] == (
                if sweeps(projects@[q].foreign_sweeper, inherited@.len()) {
                    sweep_of(projects@[q].root@, projects@[q].entries@[i], inherited@)
                } else {
                    SweepAction::Leave
                }),
    {
        let s = &projects[p];
        let swept = sweep_orphaned_claims(s.root.as_str(), &s.entries, inherited, s.foreign_sweeper);
        out.push(swept);
    }
    out
}

/// A claim that a successor inherits is put back, and not answered with an
/// error: the caller waits longer and sees its own answer.
pub proof fn law_inherited_claims_are_not_orphaned(
    root: Seq<char>,
    e: SpoolEntry,
    inherited: Seq<Claim>,
)
    requires
        spool::is_claim(e.name@),
        spool::claim_task(e.name@).len() > 0,
        holds(
            inherited,
            key(root, e.verb@, spool::claim_task(e.name@)),
        ),
    ensures
        sweep_of(root, e, inherited) == SweepAction::Requeue,
{
}

/// Requests that wait are left alone, whatever is inherited.
pub proof fn law_waiting_requests_are_left_alone(
    root: Seq<char>,
    e: SpoolEntry,
    inherited: Seq<Claim>,
)
    requires
        spool::is_request(e.name@),
    ensures
        sweep_of(root, e, inherited) == SweepAction::Leave,
{
    reveal_strlit("txt");
    reveal_strlit("inflight");
    assert("txt"@.len() != "inflight"@.len());
}

/// A request is answered with an error only where no answer is there, and only
/// where its claim is not fresh.
pub proof fn law_answers_are_not_replaced(root: Seq<char>, e: SpoolEntry, inherited: Seq<Claim>)
    requires
        sweep_of(root, e, inherited) == SweepAction::Orphan,
    ensures
        !e.answered,
        e.age_ms matches Some(age) ==> age >= MIN_ORPHAN_CLAIM_AGE_MS,
{
}

/// The names of the fields differ.
proof fn lemma_claim_names()
    ensures
        "ok"@.len() == 2,
        "error"@.len() == 5,
        "error_code"@.len() == 10,
        "verb"@.len() == 4,
        "task"@.len() == 4,
        "reason"@.len() == 6,
        "converted"@.len() == 9,
        "sweeping_pid"@.len() == 12,
        "verb"@[0] == 'v' && "task"@[0] == 't',
{
    reveal_strlit("ok");
    reveal_strlit("error");
    reveal_strlit("error_code");
    reveal_strlit("verb");
    reveal_strlit("task");
    reveal_strlit("reason");
    reveal_strlit("converted");
    reveal_strlit("sweeping_pid");
}

/// What is answered to a request for a dispatch: that it goes on by itself where
/// it runs, that it is over where its answer is there, and else that there is no
/// such dispatch. It always says which dispatch is meant.
pub proof fn law_conversion_is_answered(
    verb: Seq<char>,
    task: Seq<char>,
    running: bool,
    answered: bool,
)
    ensures
        ({
            let a = convert_answer(verb, task, running, answered);
            &&& json::field(a, "ok"@) == Some(JsonTree::Bool(running))
            &&& running ==> json::field(a, "converted"@) == Some(JsonTree::Bool(true))
            &&& !running && answered ==> json::field(a, "error"@) == Some(
                JsonTree::Str("already_completed"@),
            )
            &&& !running && !answered ==> json::field(a, "error"@) == Some(
                JsonTree::Str("unknown_task"@),
            )
            &&& json::field(a, "verb"@) == Some(JsonTree::Str(verb))
            &&& json::field(a, "task"@) == Some(JsonTree::Str(task))
        }),
{
    lemma_claim_names();
}

/// A dispatch that starts runs, one that ends does not, and no other dispatch
/// is touched by either.
pub proof fn law_running_dispatches_are_kept(running: Set<ClaimView>, c: ClaimView, k: ClaimKey)
    ensures
        runs(with_dispatch(running, c), key_of(c)),
        !runs(without_dispatch(running, key_of(c)), key_of(c)),
        k != key_of(c) ==> runs(with_dispatch(running, c), k) == runs(running, k),
        k != key_of(c) ==> runs(without_dispatch(running, key_of(c)), k) == runs(running, k),
{
    let more = with_dispatch(running, c);
    let less = without_dispatch(running, key_of(c));
    if !runs(running, key_of(c)) {
        assert(more.contains(c));
    }
    if k != key_of(c) {
        if runs(running, k) {
            let d = choose|d: ClaimView| #[trigger] running.contains(d) && key_of(d) == k;
            assert(more.contains(d));
            assert(less.contains(d));
        }
        if runs(more, k) {
            let d = choose|d: ClaimView| #[trigger] more.contains(d) && key_of(d) == k;
            assert(running.contains(d));
        }
        if runs(less, k) {
            let d = choose|d: ClaimView| #[trigger] less.contains(d) && key_of(d) == k;
            assert(running.contains(d));
        }
    }
}

/// Claims are told apart by their project, their verb and their task.
pub proof fn law_claims_are_told_apart(a: ClaimView, b: ClaimView)
    ensures
        key_of(a) == key_of(b) <==> path::same_path(a.root, b.root) && a.verb == b.verb && a.task
            == b.task,
{
}

/// A claim that nobody inherits is left for ten minutes. After that, or where
/// its age cannot be told, it is removed where its answer is there, and answered
/// as abandoned where it is not. What is not a claim is left alone.
pub proof fn law_abandoned_claims_are_swept(
    root: Seq<char>,
    e: SpoolEntry,
    task: Seq<char>,
    inherited: Seq<Claim>,
)
    requires
        task.len() > 0,
        e.name@ == task + ".txt.inflight"@,
        !holds(inherited, key(root, e.verb@, task)),
    ensures
        (e.age_ms matches Some(age) && age < 600_000) ==> sweep_of(root, e, inherited)
            == SweepAction::Leave,
        !(e.age_ms matches Some(age) && age < 600_000) ==> sweep_of(root, e, inherited) == (
        if e.answered {
            SweepAction::Remove
        } else {
            SweepAction::Orphan
        }),
{
    spool::law_claim_names_its_task(task);
}

/// An abandoned dispatch is answered with an error that names it, and not as
/// fine.
pub proof fn law_abandoned_dispatch_is_answered(verb: Seq<char>, task: Seq<char>, pid: nat)
    ensures
        ({
            let a = orphan_answer(verb, task, pid);
            &&& json::field(a, "ok"@) == Some(JsonTree::Bool(false))
            &&& json::field(a, "error_code"@) == Some(JsonTree::Str("dispatch_orphaned"@))
            &&& json::field(a, "verb"@) == Some(JsonTree::Str(verb))
            &&& json::field(a, "task"@) == Some(JsonTree::Str(task))
            &&& json::field(a, "sweeping_pid"@) == Some(JsonTree::Number(text::decimal(pid)))
        }),
{
    lemma_claim_names();
}

/// The claims of a note are inherited for fifteen minutes, and then no more.
pub proof fn law_inheritance_ends(marker: JsonTree, ts: nat, rows: Seq<JsonTree>, now_ms: u64)
    requires
        json::field_u64(marker, "ts"@) == Some(ts),
        json::field(marker, "claims"@) == Some(JsonTree::Array(rows)),
    ensures
        now_ms > ts + 900_000 ==> inherited(Some(marker), now_ms).len() == 0,
        now_ms <= ts + 900_000 && (forall|i: int|
            0 <= i < rows.len() ==> row_claim(#[trigger] rows[i]) is Some) ==> inherited(
            Some(marker),
            now_ms,
        ).len() == rows.len(),
        inherited(None, now_ms).len() == 0,
        sweeps(true, 0) == false && sweeps(false, 0) && forall|n: nat|
            n > 0 ==> #[trigger] sweeps(true, n),
{
    if forall|i: int| 0 <= i < rows.len() ==> row_claim(#[trigger] rows[i]) is Some {
        lemma_rows_len(rows, rows.len() as int);
    }
}

proof fn lemma_rows_len(rows: Seq<JsonTree>, n: int)
    requires
        0 <= n <= rows.len(),
        forall|i: int| 0 <= i < rows.len() ==> row_claim(#[trigger] rows[i]) is Some,
    ensures
        rows_claims(rows, n).len() == n,
    decreases n,
{
    if n > 0 {
        lemma_rows_len(rows, n - 1);
        assert(row_claim(rows[n - 1]) is Some);
    }
}

/// A dispatch that nobody ended is answered with its verb and its task, and why
/// it has no answer of its own.
pub proof fn law_unended_dispatch_is_named(verb: Seq<char>, task: Seq<char>)
    ensures
        ("verb "@ + verb + " (task "@ + task
            + ") was claimed by a daemon that stopped answering"@).is_prefix_of(orphan_error(verb, task)),
{
    let a = "verb "@ + verb + " (task "@ + task + ") was claimed by a daemon that stopped answering"@;
    let all = orphan_error(verb, task);
    reveal_strlit(") was claimed by a daemon that stopped answering");
    reveal_strlit(
        ") was claimed by a daemon that stopped answering -- a wasm trap, an out-of-memory abort, or a shared-Store recycle during the call. A version handoff is NOT a cause of this error: a handoff re-queues its claims for the incoming daemon, which completes them. The outcome is UNVERIFIED, not known to be unperformed: a side-effecting verb (git_commit/git_finalize/git_push/fs_write/memorize-fire) may already have applied some or all of its work, so read the real state (git log, git status, the file, the store) before re-dispatching. Re-dispatch straight away only for a read-only verb.",
    );
    assert(all.subrange(0, a.len() as int) =~= a);
}

} // verus!

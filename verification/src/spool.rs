//! The requests of a project: how one is claimed, what is answered, and what
//! becomes of a claim whose daemon is gone.
use crate::exec_js;
use crate::imports;
use crate::json;
use crate::json::{Json, JsonTree};
use crate::path;
use crate::projects;
use crate::text;
use vstd::prelude::*;
use vstd::string::*;

verus! {

// ---------------------------------------------------------------------------
// Files
// ---------------------------------------------------------------------------
/// The directory of the requests of a project.
pub open spec fn in_dir_of(root: Seq<char>) -> Seq<char> {
    path::joined_path(projects::spool_of(root), "in"@)
}

pub fn project_in_dir(root: &str) -> (r: String)
    ensures
        r@ == in_dir_of(root@),
{
    path::join(projects::spool_dir(root).as_str(), "in")
}

/// The file of a request.
pub open spec fn request_file(in_dir: Seq<char>, verb: Seq<char>, task: Seq<char>) -> Seq<char> {
    path::joined2(in_dir, verb, task + ".txt"@)
}

pub fn queued_request_path(in_dir: &str, verb: &str, task: &str) -> (r: String)
    ensures
        r@ == request_file(in_dir@, verb@, task@),
{
    path::join2(in_dir, verb, text::add2(task, ".txt").as_str())
}

/// The file of a request that is claimed.
pub open spec fn claim_file(in_dir: Seq<char>, verb: Seq<char>, task: Seq<char>) -> Seq<char> {
    path::joined2(in_dir, verb, task + ".txt.inflight"@)
}

pub fn inflight_claim_path(in_dir: &str, verb: &str, task: &str) -> (r: String)
    ensures
        r@ == claim_file(in_dir@, verb@, task@),
{
    path::join2(in_dir, verb, text::add2(task, ".txt.inflight").as_str())
}

/// The name of an answer.
pub open spec fn answer_name(verb: Seq<char>, task: Seq<char>) -> Seq<char> {
    verb + "-"@ + task + ".json"@
}

pub fn out_name(verb: &str, task: &str) -> (r: String)
    ensures
        r@ == answer_name(verb@, task@),
{
    text::add4(verb, "-", task, ".json")
}

/// The name of an answer of a plugin that was asked directly.
pub fn plugin_out_name(plugin: &str, verb: &str, task: &str) -> (r: String)
    ensures
        r@ == plugin@ + "-"@ + verb@ + "-"@ + task@ + ".json"@,
{
    text::add2(text::add5(plugin, "-", verb, "-", task).as_str(), ".json")
}

/// The files that an answer goes through: it is written in one, takes its
/// place in the next, and the last shows that it is there.
pub struct OutFiles {
    pub temporary: String,
    pub answer: String,
    pub ready: String,
}

/// The files that an answer goes through.
pub fn write_spool_out(out_dir: &str, name: &str, pid: u32) -> (r: OutFiles)
    ensures
        r.temporary@ == path::joined_path(out_dir@, name@ + ".tmp."@ + text::decimal(pid as nat)),
        r.answer@ == path::joined_path(out_dir@, name@),
        r.ready@ == path::joined_path(out_dir@, name@ + ".ready"@),
{
    OutFiles {
        temporary: path::join(
            out_dir,
            text::add3(name, ".tmp.", text::u64_text(pid as u64).as_str()).as_str(),
        ),
        answer: path::join(out_dir, name),
        ready: path::join(out_dir, text::add2(name, ".ready").as_str()),
    }
}

// ---------------------------------------------------------------------------
// Claiming a request
// ---------------------------------------------------------------------------
/// How long a request must have been left alone before it is claimed, in
/// milliseconds.
pub const SPOOL_WRITE_SETTLE_MS: u64 = 200;

/// Whether a request is written to its end: it is not empty, and was not
/// touched a moment ago. `age_ms` is unknown where the machine does not tell.
pub fn spool_in_file_write_has_settled(len: u64, age_ms: Option<u64>) -> (r: bool)
    ensures
        r == (len > 0 && match age_ms {
            Some(age) => age >= SPOOL_WRITE_SETTLE_MS,
            None => true,
        }),
{
    len > 0 && match age_ms {
        Some(age) => age >= SPOOL_WRITE_SETTLE_MS,
        None => true,
    }
}

/// Whether a file is a request.
pub open spec fn is_request(name: Seq<char>) -> bool {
    path::extension(name) == Some("txt"@)
}

pub fn is_request_file(name: &str) -> (r: bool)
    ensures
        r == is_request(name@),
{
    match path::extension_of(name) {
        Some(e) => text::str_eq(e, "txt"),
        None => false,
    }
}

/// Whether a file is a request that is claimed.
pub open spec fn is_claim(name: Seq<char>) -> bool {
    path::extension(name) == Some("inflight"@)
}

pub fn is_claim_file(name: &str) -> (r: bool)
    ensures
        r == is_claim(name@),
{
    match path::extension_of(name) {
        Some(e) => text::str_eq(e, "inflight"),
        None => false,
    }
}

/// The file that a request becomes when it is claimed, or nothing where it is
/// not to be claimed yet.
pub fn claim_spool_request_in_place(txt_path: &str, len: u64, age_ms: Option<u64>) -> (r: Option<
    String,
>)
    ensures
        text::opt_string_view(r) == (if len > 0 && (match age_ms {
            Some(age) => age >= SPOOL_WRITE_SETTLE_MS,
            None => true,
        }) {
            Some(path::with_extension(txt_path@, "txt.inflight"@))
        } else {
            None
        }),
{
    if spool_in_file_write_has_settled(len, age_ms) {
        Some(path::replace_extension(txt_path, "txt.inflight"))
    } else {
        None
    }
}

/// Whether a claimed request is put back: nothing stands in it yet.
pub fn puts_back(body: &str) -> (r: bool)
    ensures
        r == text::is_blank(body@),
{
    text::blank(body)
}

/// The task of a claim: its name without the two extensions.
pub open spec fn claim_task(name: Seq<char>) -> Seq<char> {
    path::stem(path::stem(name))
}

/// The task of a claim.
pub fn task_of_claim(name: &str) -> (r: &str)
    ensures
        r@ == claim_task(name@),
{
    path::stem_of(path::stem_of(name))
}

/// The name of a claim tells its task, and a claim is no request.
pub proof fn law_claim_names_its_task(task: Seq<char>)
    requires
        task.len() > 0,
    ensures
        is_claim(task + ".txt.inflight"@),
        claim_task(task + ".txt.inflight"@) == task,
        is_request(task + ".txt"@),
        path::stem(task + ".txt"@) == task,
        !is_request(task + ".txt.inflight"@),
{
    reveal_strlit(".txt.inflight");
    reveal_strlit(".txt");
    reveal_strlit("txt");
    reveal_strlit("inflight");
    let request = task + ".txt"@;
    let claim = task + ".txt.inflight"@;
    assert(claim =~= request.push('.') + "inflight"@);
    assert(request =~= task.push('.') + "txt"@);
    assert forall|i: int| 0 <= i < "inflight"@.len() implies #[trigger] "inflight"@[i] != '.' by {}
    assert forall|i: int| 0 <= i < "txt"@.len() implies #[trigger] "txt"@[i] != '.' by {}
    text::lemma_last_cut_is(request, '.', "inflight"@);
    text::lemma_last_cut_is(task, '.', "txt"@);
    assert("inflight"@.len() != "txt"@.len());
}

/// How many requests wait and how many are claimed, among the first `n` files.
pub open spec fn step_counts(names: Seq<String>, n: int) -> (nat, nat)
    decreases n,
{
    if n <= 0 {
        (0, 0)
    } else {
        let rest = step_counts(names, n - 1);
        if ".txt"@.is_suffix_of(names[n - 1]@) {
            (rest.0 + 1, rest.1)
        } else if ".inflight"@.is_suffix_of(names[n - 1]@) {
            (rest.0, rest.1 + 1)
        } else {
            rest
        }
    }
}

/// How many requests wait and how many are claimed.
pub fn spool_step_counts(names: &Vec<String>) -> (r: (usize, usize))
    ensures
        (r.0 as nat, r.1 as nat) == step_counts(names@, names@.len() as int),
{
    let mut queued: usize = 0;
    let mut claimed: usize = 0;
    for i in 0..names.len()
        invariant
            (queued as nat, claimed as nat) == step_counts(names@, i as int),
            queued + claimed <= i,
    {
        if text::ends_with(names[i].as_str(), ".txt") {
            queued += 1;
        } else if text::ends_with(names[i].as_str(), ".inflight") {
            claimed += 1;
        }
    }
    (queued, claimed)
}

/// Whether a project has requests that wait or are claimed.
pub fn spool_has_queued_work(names: &Vec<String>) -> (r: bool)
    ensures
        r == exists|i: int|
            0 <= i < names@.len() && (".inflight"@.is_suffix_of((#[trigger] names@[i])@)
                || ".txt"@.is_suffix_of(names@[i]@)),
{
    for i in 0..names.len()
        invariant
            forall|j: int|
                0 <= j < i ==> !(".inflight"@.is_suffix_of((#[trigger] names@[j])@)
                    || ".txt"@.is_suffix_of(names@[j]@)),
    {
        if text::ends_with(names[i].as_str(), ".inflight") || text::ends_with(
            names[i].as_str(),
            ".txt",
        ) {
            assert(".inflight"@.is_suffix_of(names@[i as int]@) || ".txt"@.is_suffix_of(
                names@[i as int]@,
            ));
            return true;
        }
    }
    false
}

/// Whether there is a request among some files.
pub fn has_claimable(names: &Vec<String>) -> (r: bool)
    ensures
        r == exists|i: int| 0 <= i < names@.len() && is_request((#[trigger] names@[i])@),
{
    for i in 0..names.len()
        invariant
            forall|j: int| 0 <= j < i ==> !is_request((#[trigger] names@[j])@),
    {
        if is_request_file(names[i].as_str()) {
            assert(is_request(names@[i as int]@));
            return true;
        }
    }
    false
}

/// Where a file goes that is neither a request nor a claim; nowhere where it is
/// one.
pub open spec fn quarantined(verb: Seq<char>, name: Seq<char>) -> Option<Seq<char>> {
    if is_request(name) || is_claim(name) || name.len() == 0 {
        None
    } else {
        Some(verb + "__"@ + name)
    }
}

fn quarantine_name(verb: &str, name: &str) -> (r: Option<String>)
    ensures
        text::opt_string_view(r) == quarantined(verb@, name@),
{
    if is_request_file(name) || is_claim_file(name) || name.is_empty() {
        None
    } else {
        Some(text::add3(verb, "__", name))
    }
}

/// Goes through the files among the requests for a verb: where each goes that
/// is neither a request nor a claim.
pub fn sweep_unconsumable_spool_files(verb: &str, names: &Vec<String>) -> (r: Vec<Option<String>>)
    ensures
        r@.len() == names@.len(),
        forall|i: int|
            0 <= i < names@.len() ==> text::opt_string_view(#[trigger] r@[i]) == quarantined(
                verb@,
                names@[i]@,
            ),
{
    let mut out: Vec<Option<String>> = Vec::new();
    for i in 0..names.len()
        invariant
            out@.len() == i,
            forall|j: int|
                0 <= j < i ==> text::opt_string_view(#[trigger] out@[j]) == quarantined(
                    verb@,
                    names@[j]@,
                ),
    {
        out.push(quarantine_name(verb, names[i].as_str()));
    }
    out
}

// ---------------------------------------------------------------------------
// Sessions and tasks
// ---------------------------------------------------------------------------
/// The session that a request declares.
pub open spec fn declared_session(body: Option<JsonTree>) -> Option<Seq<char>> {
    match body {
        Some(t) => match json::field_str(t, "session_id"@) {
            Some(s) => if s.len() == 0 {
                None
            } else {
                Some(s)
            },
            None => None,
        },
        None => None,
    }
}

fn session_in(body: &Option<Json>) -> (r: Option<String>)
    ensures
        text::opt_string_view(r) == declared_session(imports::opt_tree(*body)),
{
    match body {
        Some(v) => match v.str_field("session_id") {
            Some(s) => if s.is_empty() {
                None
            } else {
                Some(s.to_owned())
            },
            None => None,
        },
        None => None,
    }
}

fn parsed(body: &str) -> (r: Option<Json>)
    ensures
        imports::opt_tree(r) == exec_js::read_of(Some(body@)),
{
    match json::parse(body) {
        Ok(j) => Some(j),
        Err(_) => None,
    }
}

/// The session that a request declares.
pub fn extract_session_id(body: &str) -> (r: Option<String>)
    ensures
        text::opt_string_view(r) == declared_session(exec_js::read_of(Some(body@))),
{
    session_in(&parsed(body))
}

/// What a request is refused with whose task is not one of its session.
pub open spec fn mismatch(verb: Seq<char>, task: Seq<char>, session: Seq<char>) -> JsonTree {
    json::obj4(
        "ok"@,
        JsonTree::Bool(false),
        "error"@,
        JsonTree::Str("session_id_task_mismatch"@),
        "reason"@,
        JsonTree::Str(
            "dispatch body declared session_id "@ + text::quoted(session) + " but task id "@
                + text::quoted(task) + " does not start with "@ + text::quoted(session + "-"@)
                + " -- the spool ABI requires task ids of the form <session_id>-<local-counter> so the daemon can partition claims per session; re-dispatch with a correctly prefixed task id"@,
        ),
        "verb"@,
        JsonTree::Str(verb),
    )
}

/// The refusal of a request, if it is refused: it declares a session, and its
/// task does not start with it.
pub open spec fn session_refusal(verb: Seq<char>, task: Seq<char>, body: Option<JsonTree>) -> Option<
    JsonTree,
> {
    match declared_session(body) {
        Some(s) => if (s + "-"@).is_prefix_of(task) {
            None
        } else {
            Some(mismatch(verb, task, s))
        },
        None => None,
    }
}

/// The refusal of a request with the given content, if it is refused.
pub fn refuse_session(verb: &str, task: &str, body: &Option<Json>) -> (r: Option<Json>)
    ensures
        imports::opt_tree(r) == session_refusal(verb@, task@, imports::opt_tree(*body)),
{
    match session_in(body) {
        Some(session) => {
            let prefix = text::add2(session.as_str(), "-");
            if text::starts_with(task, prefix.as_str()) {
                return None;
            }
            let head = text::add5(
                "dispatch body declared session_id ",
                text::quote(session.as_str()).as_str(),
                " but task id ",
                text::quote(task).as_str(),
                " does not start with ",
            );
            let reason = text::add3(
                head.as_str(),
                text::quote(prefix.as_str()).as_str(),
                " -- the spool ABI requires task ids of the form <session_id>-<local-counter> so the daemon can partition claims per session; re-dispatch with a correctly prefixed task id",
            );
            Some(
                json::object4(
                    "ok",
                    json::boolean(false),
                    "error",
                    json::str("session_id_task_mismatch"),
                    "reason",
                    json::str(reason.as_str()),
                    "verb",
                    json::str(verb),
                ),
            )
        },
        None => None,
    }
}

/// The refusal of a request, if it is refused.
pub fn session_id_task_mismatch_rejection(verb: &str, task: &str, body: &str) -> (r: Option<Json>)
    ensures
        imports::opt_tree(r) == session_refusal(verb@, task@, exec_js::read_of(Some(body@))),
{
    refuse_session(verb, task, &parsed(body))
}

/// No request runs under a task of another session than the one it declares.
pub proof fn law_tasks_stay_in_their_session(verb: Seq<char>, task: Seq<char>, body: Option<JsonTree>)
    requires
        session_refusal(verb, task, body) is None,
    ensures
        declared_session(body) matches Some(s) ==> (s + "-"@).is_prefix_of(task),
{
}

/// Where a request goes.
pub enum Routed {
    /// Nowhere: this is the answer.
    Refused(Json),
    /// It takes a running dispatch out of the daemon's hands.
    BackgroundConvert,
    /// It has plugins looked for.
    PluginRefresh,
    /// It is dispatched.
    Dispatch,
}

/// Where a request goes, as a value.
pub enum RouteView {
    Refused(JsonTree),
    BackgroundConvert,
    PluginRefresh,
    Dispatch,
}

pub open spec fn route_view(r: Routed) -> RouteView {
    match r {
        Routed::Refused(j) => RouteView::Refused(json::tree(j)),
        Routed::BackgroundConvert => RouteView::BackgroundConvert,
        Routed::PluginRefresh => RouteView::PluginRefresh,
        Routed::Dispatch => RouteView::Dispatch,
    }
}

/// Where a request goes.
pub open spec fn route_of(verb: Seq<char>, task: Seq<char>, body: Option<JsonTree>) -> RouteView {
    match session_refusal(verb, task, body) {
        Some(t) => RouteView::Refused(t),
        None => if verb == "background-convert"@ {
            RouteView::BackgroundConvert
        } else if verb == "plugin-refresh"@ {
            RouteView::PluginRefresh
        } else {
            RouteView::Dispatch
        },
    }
}

/// Where a request with the given content goes.
pub fn route_parsed(verb: &str, task: &str, body: &Option<Json>) -> (r: Routed)
    ensures
        route_view(r) == route_of(verb@, task@, imports::opt_tree(*body)),
{
    match refuse_session(verb, task, body) {
        Some(j) => Routed::Refused(j),
        None => if text::str_eq(verb, "background-convert") {
            Routed::BackgroundConvert
        } else if text::str_eq(verb, "plugin-refresh") {
            Routed::PluginRefresh
        } else {
            Routed::Dispatch
        },
    }
}

/// Where a request goes.
pub fn route_request(verb: &str, task: &str, body: &str) -> (r: Routed)
    ensures
        route_view(r) == route_of(verb@, task@, exec_js::read_of(Some(body@))),
{
    route_parsed(verb, task, &parsed(body))
}

// ---------------------------------------------------------------------------
// Answers of a dispatch
// ---------------------------------------------------------------------------
/// The plugin that a verb is dispatched to.
pub open spec fn plugin_for(verb: Seq<char>) -> Seq<char> {
    if verb == "libsql"@ || verb == "bert"@ {
        verb
    } else {
        "gm"@
    }
}

/// The verb that the plugin gets: the one that is asked, or the one that the
/// content names where the plugin itself is asked.
pub open spec fn inner_verb(verb: Seq<char>, body: Option<JsonTree>) -> Seq<char> {
    if plugin_for(verb) == "gm"@ {
        verb
    } else {
        match body {
            Some(t) => imports::or_default(json::field_str(t, "verb"@), "capabilities"@),
            None => "capabilities"@,
        }
    }
}

/// The plugin and the verb of a request.
pub struct Target {
    pub plugin: String,
    pub verb: String,
}

/// The plugin and the verb of a request with the given content.
pub fn target_of(verb: &str, body: &Option<Json>) -> (r: Target)
    ensures
        r.plugin@ == plugin_for(verb@),
        r.verb@ == inner_verb(verb@, imports::opt_tree(*body)),
{
    if text::str_eq(verb, "libsql") || text::str_eq(verb, "bert") {
        proof {
            reveal_strlit("libsql");
            reveal_strlit("bert");
            reveal_strlit("gm");
            assert("libsql"@.len() != "gm"@.len());
            assert("bert"@.len() != "gm"@.len());
        }
        let inner = match body {
            Some(v) => match v.str_field("verb") {
                Some(s) => s.to_owned(),
                None => "capabilities".to_owned(),
            },
            None => "capabilities".to_owned(),
        };
        Target { plugin: verb.to_owned(), verb: inner }
    } else {
        Target { plugin: "gm".to_owned(), verb: verb.to_owned() }
    }
}

/// The plugin and the verb of a request.
pub fn request_target(verb: &str, body: &str) -> (r: Target)
    ensures
        r.plugin@ == plugin_for(verb@),
        r.verb@ == inner_verb(verb@, exec_js::read_of(Some(body@))),
{
    target_of(verb, &parsed(body))
}

/// How a dispatch ended.
pub enum DispatchEnd {
    Answered(String),
    Failed(String),
    Panicked(String),
}

/// A failed answer.
pub open spec fn failure(error: Seq<char>, verb: Option<Seq<char>>) -> JsonTree {
    let base = json::obj2("ok"@, JsonTree::Bool(false), "error"@, JsonTree::Str(error));
    match verb {
        Some(v) => json::with_field(base, "verb"@, JsonTree::Str(v)),
        None => base,
    }
}

/// A failed answer.
pub fn failed_answer(error: &str, verb: Option<&str>) -> (r: Json)
    ensures
        json::tree(r) == failure(error@, text::opt_view(verb)),
{
    let base = json::object2("ok", json::boolean(false), "error", json::str(error));
    match verb {
        Some(v) => base.with("verb", json::str(v)),
        None => base,
    }
}

/// What is answered where a dispatch did not answer.
pub open spec fn end_failure(end: DispatchEnd, verb: Seq<char>, tells_verb: bool) -> Option<JsonTree> {
    let told = if tells_verb {
        Some(verb)
    } else {
        None
    };
    match end {
        DispatchEnd::Answered(s) => if s@.len() > 0 {
            None
        } else {
            Some(failure("empty dispatch result"@, told))
        },
        DispatchEnd::Failed(e) => Some(failure(e@, told)),
        DispatchEnd::Panicked(m) => Some(failure("dispatch panicked: "@ + m@, Some(verb))),
    }
}

/// What is answered for a dispatch: its own answer, or what failed. A panic
/// always tells the verb.
pub fn dispatch_answer(end: DispatchEnd, verb: &str, tells_verb: bool) -> (r: String)
    ensures
        match end_failure(end, verb@, tells_verb) {
            None => end matches DispatchEnd::Answered(s) && r@ == s@,
            Some(t) => r@ == json::json_text(json::written(t)),
        },
{
    let told = if tells_verb {
        Some(verb)
    } else {
        None
    };
    match end {
        DispatchEnd::Answered(s) => if s.as_str().is_empty() {
            json::to_text(&failed_answer("empty dispatch result", told))
        } else {
            s
        },
        DispatchEnd::Failed(e) => json::to_text(&failed_answer(e.as_str(), told)),
        DispatchEnd::Panicked(m) => json::to_text(
            &failed_answer(text::add2("dispatch panicked: ", m.as_str()).as_str(), Some(verb)),
        ),
    }
}

/// How an error of a dispatch is told: with the kind of the trap before it,
/// where the plugin trapped.
pub fn dispatch_error_text(trap: Option<&str>, error: &str) -> (r: String)
    ensures
        r@ == (match text::opt_view(trap) {
            Some(t) => "[wasm trap: "@ + t + "] "@ + error@,
            None => error@,
        }),
{
    match trap {
        Some(t) => text::add4("[wasm trap: ", t, "] ", error),
        None => error.to_owned(),
    }
}

/// What is answered to instructions while an update of the runner fails: the
/// answer itself with the note on the update, where it is told of no other.
pub open spec fn patched(
    plugin: Seq<char>,
    verb: Seq<char>,
    response: Option<JsonTree>,
    marker: Option<JsonTree>,
) -> Option<JsonTree> {
    if plugin == "gm"@ && verb == "instruction"@ {
        match (response, marker) {
            (Some(JsonTree::Object(m)), Some(note)) => {
                let t = JsonTree::Object(m);
                match json::field(t, "update_available"@) {
                    Some(old) => if old == JsonTree::Null {
                        Some(json::with_field(t, "update_available"@, note))
                    } else {
                        None
                    },
                    None => Some(json::with_field(t, "update_available"@, note)),
                }
            },
            _ => None,
        }
    } else {
        None
    }
}

/// The answer with the note on the update, where it gets one.
pub fn patch_answer(plugin: &str, verb: &str, response: Option<Json>, marker: Option<Json>) -> (r: Option<
    Json,
>)
    ensures
        imports::opt_tree(r) == patched(
            plugin@,
            verb@,
            imports::opt_tree(response),
            imports::opt_tree(marker),
        ),
{
    if !text::str_eq(plugin, "gm") || !text::str_eq(verb, "instruction") {
        return None;
    }
    match (response, marker) {
        (Some(v), Some(note)) => {
            if !v.is_object() {
                return None;
            }
            let free = match v.get("update_available") {
                Some(old) => old.is_null(),
                None => true,
            };
            if free {
                Some(v.with("update_available", note))
            } else {
                None
            }
        },
        _ => None,
    }
}

/// The answer to instructions, with the note on the update where it gets one.
pub fn patch_update_available_from_escalation(
    plugin: &str,
    verb: &str,
    response: String,
    marker: Option<&str>,
) -> (r: String)
    ensures
        match patched(
            plugin@,
            verb@,
            exec_js::read_of(Some(response@)),
            exec_js::read_of(text::opt_view(marker)),
        ) {
            Some(t) => r@ == json::json_text(json::written(t)),
            None => r@ == response@,
        },
{
    let note = match marker {
        Some(m) => parsed(m),
        None => None,
    };
    match patch_answer(plugin, verb, parsed(response.as_str()), note) {
        Some(j) => json::to_text(&j),
        None => response,
    }
}

// ---------------------------------------------------------------------------
// Plugins of a project
// ---------------------------------------------------------------------------
/// The plugins that every project has.
pub open spec fn default_plugins() -> Seq<Seq<char>> {
    seq!["gm"@, "libsql"@, "bert"@, "treesitter"@, "oxibrowser"@, "crux"@]
}

/// A list of names with those added, among the first `n`, that it lacks.
pub open spec fn with_lacking(list: Seq<Seq<char>>, extra: Seq<Seq<char>>, n: int) -> Seq<Seq<char>>
    decreases n,
{
    if n <= 0 {
        list
    } else {
        let rest = with_lacking(list, extra, n - 1);
        if rest.contains(extra[n - 1]) {
            rest
        } else {
            rest.push(extra[n - 1])
        }
    }
}

proof fn lemma_contained(list: Seq<String>, t: Seq<char>)
    ensures
        text::string_views(list).contains(t) == text::lists(list, t),
{
    let v = text::string_views(list);
    if v.contains(t) {
        let j = choose|j: int| 0 <= j < v.len() && v[j] == t;
        assert(list[j]@ == t);
    }
    if text::lists(list, t) {
        let j = choose|j: int| 0 <= j < list.len() && (#[trigger] list[j])@ == t;
        assert(v[j] == t);
    }
}

/// Naming plugins takes none away: those that every project has are wanted
/// whatever a project names, and so is each that it names.
pub proof fn law_naming_plugins_only_adds(extra: Seq<Seq<char>>, n: int, name: Seq<char>)
    requires
        0 <= n <= extra.len(),
        default_plugins().contains(name) || extra.take(n).contains(name),
    ensures
        with_lacking(default_plugins(), extra, n).contains(name),
    decreases n,
{
    if n > 0 {
        let rest = with_lacking(default_plugins(), extra, n - 1);
        let all = with_lacking(default_plugins(), extra, n);
        if default_plugins().contains(name) || extra.take(n - 1).contains(name) {
            law_naming_plugins_only_adds(extra, n - 1, name);
            let k = choose|k: int| 0 <= k < rest.len() && rest[k] == name;
            assert(all[k] == name);
        } else {
            let k = choose|k: int| 0 <= k < extra.take(n).len() && extra.take(n)[k] == name;
            if k < n - 1 {
                assert(extra.take(n - 1)[k] == name);
            }
            assert(extra[n - 1] == name);
            if !rest.contains(name) {
                assert(all[all.len() - 1] == name);
            }
        }
    } else {
        assert(extra.take(0).len() == 0);
    }
}

/// The plugins that a project wants: those that every project has, and those
/// it names.
pub fn requested_plugins(extra: &Vec<String>) -> (r: Vec<String>)
    ensures
        text::string_views(r@) == with_lacking(
            default_plugins(),
            text::string_views(extra@),
            extra@.len() as int,
        ),
{
    let mut out: Vec<String> = Vec::new();
    out.push("gm".to_owned());
    out.push("libsql".to_owned());
    out.push("bert".to_owned());
    out.push("treesitter".to_owned());
    out.push("oxibrowser".to_owned());
    out.push("crux".to_owned());
    assert(text::string_views(out@) =~= default_plugins());
    let ghost names = text::string_views(extra@);
    for i in 0..extra.len()
        invariant
            names == text::string_views(extra@),
            text::string_views(out@) == with_lacking(default_plugins(), names, i as int),
    {
        let ghost before = out@;
        assert(names[i as int] == extra@[i as int]@);
        proof {
            lemma_contained(out@, extra@[i as int]@);
        }
        if !text::list_contains(&out, extra[i].as_str()) {
            out.push(extra[i].clone());
            assert(text::string_views(out@) =~= text::string_views(before).push(
                extra@[i as int]@,
            ));
        }
    }
    out
}

/// Why a plugin could not be loaded that is not compiled.
pub fn not_compiled_reason(plugin: &str, not_compiled: Option<&str>, root: &str) -> (r: String)
    ensures
        r@ == (match text::opt_view(not_compiled) {
            Some(e) => "plugin "@ + plugin@ + " failed to compile/install: "@ + e,
            None => "plugin "@ + plugin@ + " not yet compiled for "@ + root@
                + ": dispatch this thread's own get_or_compile could not run against the shared PluginModules from a worker thread -- see plugin_modules.get_or_compile() call in run_daemon's pre-chunk warm pass"@,
        }),
{
    match not_compiled {
        Some(e) => text::add4("plugin ", plugin, " failed to compile/install: ", e),
        None => text::add5(
            "plugin ",
            plugin,
            " not yet compiled for ",
            root,
            ": dispatch this thread's own get_or_compile could not run against the shared PluginModules from a worker thread -- see plugin_modules.get_or_compile() call in run_daemon's pre-chunk warm pass",
        ),
    }
}

/// Why a plugin could not be loaded that did not start.
pub fn instantiate_reason(plugin: &str, root: &str, error: &str) -> (r: String)
    ensures
        r@ == "failed to instantiate plugin "@ + plugin@ + " for "@ + root@ + ": "@ + error@,
{
    text::add3(
        text::add4("failed to instantiate plugin ", plugin, " for ", root).as_str(),
        ": ",
        error,
    )
}

/// What is answered where the plugin of the requests could not be loaded.
pub fn gm_load_failure(reason: Option<&str>, verb: &str) -> (r: Json)
    ensures
        json::tree(r) == failure(
            match text::opt_view(reason) {
                Some(why) => "gm plugin failed to load for this project: "@ + why,
                None => "gm plugin failed to load for this project (see daemon stderr for the compile/install/instantiate failure)"@,
            },
            Some(verb@),
        ),
{
    let error = match reason {
        Some(why) => text::add2("gm plugin failed to load for this project: ", why),
        None => "gm plugin failed to load for this project (see daemon stderr for the compile/install/instantiate failure)".to_owned(),
    };
    failed_answer(error.as_str(), Some(verb))
}

/// A verb that names a plugin reaches that plugin, with the verb that the
/// content names, or `capabilities` where it names none. Every other verb
/// reaches `gm` as it is, whatever the content.
pub proof fn law_request_reaches_its_plugin(verb: Seq<char>, body: Option<JsonTree>)
    ensures
        verb == "libsql"@ ==> plugin_for(verb) == "libsql"@,
        verb == "bert"@ ==> plugin_for(verb) == "bert"@,
        verb != "libsql"@ && verb != "bert"@ ==> plugin_for(verb) == "gm"@ && inner_verb(verb, body)
            == verb,
        verb == "libsql"@ || verb == "bert"@ ==> {
            &&& forall|v: Seq<char>|
                body is Some && #[trigger] json::field_str(body->0, "verb"@) == Some(v)
                    ==> inner_verb(verb, body) == v
            &&& (body is None || json::field_str(body->0, "verb"@) is None) ==> inner_verb(
                verb,
                body,
            ) == "capabilities"@
        },
{
    reveal_strlit("libsql");
    reveal_strlit("bert");
    reveal_strlit("gm");
    assert("libsql"@.len() == 6 && "bert"@.len() == 4 && "gm"@.len() == 2);
}

/// The names of the fields differ.
proof fn lemma_answer_names()
    ensures
        "ok"@.len() == 2,
        "error"@.len() == 5,
        "verb"@.len() == 4,
        "reason"@.len() == 6,
        "update_available"@.len() == 16,
{
    reveal_strlit("ok");
    reveal_strlit("error");
    reveal_strlit("verb");
    reveal_strlit("reason");
    reveal_strlit("update_available");
}

/// A request, its claim and its answer stand where a caller looks for them:
/// the request in the directory of its verb, the claim beside it, and the
/// answer under the names of both.
pub proof fn law_files_of_a_request(in_dir: Seq<char>, verb: Seq<char>, task: Seq<char>)
    requires
        in_dir.len() > 0 && in_dir.last() != '/',
        verb.len() > 0 && verb[0] != '/' && verb.last() != '/',
        task.len() > 0 && task[0] != '/',
    ensures
        request_file(in_dir, verb, task) == in_dir + "/"@ + verb + "/"@ + task + ".txt"@,
        claim_file(in_dir, verb, task) == in_dir + "/"@ + verb + "/"@ + task + ".txt.inflight"@,
        answer_name(verb, task) == verb + "-"@ + task + ".json"@,
{
    reveal_strlit("/");
    let t = task + ".txt"@;
    let c = task + ".txt.inflight"@;
    assert(t[0] == task[0] && c[0] == task[0]);
    let d = in_dir.push('/') + verb;
    assert(d.last() == verb.last());
    assert(d.push('/') + t =~= in_dir + "/"@ + verb + "/"@ + task + ".txt"@);
    assert(d.push('/') + c =~= in_dir + "/"@ + verb + "/"@ + task + ".txt.inflight"@);
}

/// Steps are counted one by one: in two lists of files there are as many as in
/// both together, a list of requests counts as requests, and a list of claims
/// as claims.
pub proof fn law_steps_are_counted(a: Seq<String>, b: Seq<String>)
    ensures
        step_counts(a + b, (a + b).len() as int) == (
            step_counts(a, a.len() as int).0 + step_counts(b, b.len() as int).0,
            step_counts(a, a.len() as int).1 + step_counts(b, b.len() as int).1,
        ),
        (forall|i: int| 0 <= i < a.len() ==> ".txt"@.is_suffix_of((#[trigger] a[i])@))
            ==> step_counts(a, a.len() as int) == (a.len(), 0nat),
        (forall|i: int| 0 <= i < a.len() ==> ".txt.inflight"@.is_suffix_of((#[trigger] a[i])@))
            ==> step_counts(a, a.len() as int) == (0nat, a.len()),
    decreases a.len() + b.len(),
{
    lemma_counts_append(a, b, b.len() as int);
    if forall|i: int| 0 <= i < a.len() ==> ".txt"@.is_suffix_of((#[trigger] a[i])@) {
        lemma_all_requests(a, a.len() as int);
    }
    if forall|i: int| 0 <= i < a.len() ==> ".txt.inflight"@.is_suffix_of((#[trigger] a[i])@) {
        lemma_all_claims(a, a.len() as int);
    }
}

proof fn lemma_counts_prefix(a: Seq<String>, b: Seq<String>, n: int)
    requires
        0 <= n <= a.len(),
    ensures
        step_counts(a + b, n) == step_counts(a, n),
    decreases n,
{
    if n > 0 {
        lemma_counts_prefix(a, b, n - 1);
        assert((a + b)[n - 1] == a[n - 1]);
    }
}

proof fn lemma_counts_append(a: Seq<String>, b: Seq<String>, n: int)
    requires
        0 <= n <= b.len(),
    ensures
        step_counts(a + b, a.len() + n) == (
            step_counts(a, a.len() as int).0 + step_counts(b, n).0,
            step_counts(a, a.len() as int).1 + step_counts(b, n).1,
        ),
    decreases n,
{
    if n > 0 {
        lemma_counts_append(a, b, n - 1);
        assert((a + b)[a.len() + n - 1] == b[n - 1]);
    } else {
        lemma_counts_prefix(a, b, a.len() as int);
    }
}

proof fn lemma_all_requests(a: Seq<String>, n: int)
    requires
        0 <= n <= a.len(),
        forall|i: int| 0 <= i < a.len() ==> ".txt"@.is_suffix_of((#[trigger] a[i])@),
    ensures
        step_counts(a, n) == (n as nat, 0nat),
    decreases n,
{
    if n > 0 {
        lemma_all_requests(a, n - 1);
        assert(".txt"@.is_suffix_of(a[n - 1]@));
    }
}

proof fn lemma_all_claims(a: Seq<String>, n: int)
    requires
        0 <= n <= a.len(),
        forall|i: int| 0 <= i < a.len() ==> ".txt.inflight"@.is_suffix_of((#[trigger] a[i])@),
    ensures
        step_counts(a, n) == (0nat, n as nat),
    decreases n,
{
    if n > 0 {
        lemma_all_claims(a, n - 1);
        reveal_strlit(".txt");
        reveal_strlit(".inflight");
        reveal_strlit(".txt.inflight");
        let s = a[n - 1]@;
        let long = ".txt.inflight"@;
        assert(long.is_suffix_of(s));
        assert(s.subrange(s.len() - 13, s.len() as int) == long);
        assert(s.last() == long[12]) by {
            assert(s.subrange(s.len() - 13, s.len() as int)[12] == long[12]);
        }
        assert(long[12] == 't' && long[11] == 'h' && ".txt"@[3] == 't' && ".txt"@[2] == 'x');
        assert(s[s.len() - 2] == 'h') by {
            assert(s.subrange(s.len() - 13, s.len() as int)[11] == long[11]);
        }
        if ".txt"@.is_suffix_of(s) {
            assert(s.subrange(s.len() - 4, s.len() as int)[2] == ".txt"@[2]);
        }
        assert(".inflight"@ =~= s.subrange(s.len() - 9, s.len() as int)) by {
            assert forall|k: int| 0 <= k < 9 implies ".inflight"@[k] == #[trigger] s.subrange(
                s.len() - 9,
                s.len() as int,
            )[k] by {
                assert(s.subrange(s.len() - 13, s.len() as int)[k + 4] == long[k + 4]);
            }
        }
    }
}

/// A file that is neither a request nor a claim is put aside under the names of
/// its verb and its own; no other file is.
pub proof fn law_strangers_are_put_aside(verb: Seq<char>, task: Seq<char>, name: Seq<char>)
    requires
        task.len() > 0,
    ensures
        quarantined(verb, task + ".txt"@) is None,
        quarantined(verb, task + ".txt.inflight"@) is None,
        name.len() > 0 && !is_request(name) && !is_claim(name) ==> quarantined(verb, name) == Some(
            verb + "__"@ + name,
        ),
        name.len() > 0 && path::extension(name) != Some("txt"@) && path::extension(name) != Some(
            "inflight"@,
        ) ==> quarantined(verb, name) is Some,
{
    law_claim_names_its_task(task);
}

/// A request is refused just where it declares a session that its task does not
/// begin with. Otherwise the two verbs of the daemon are its own, and every
/// other verb is dispatched.
pub proof fn law_requests_go_their_way(verb: Seq<char>, task: Seq<char>, body: Option<JsonTree>)
    ensures
        route_of(verb, task, body) is Refused <==> (body is Some && json::field_str(
            body->0,
            "session_id"@,
        ) is Some && json::field_str(body->0, "session_id"@)->0.len() > 0 && !(json::field_str(
            body->0,
            "session_id"@,
        )->0 + "-"@).is_prefix_of(task)),
        !(route_of(verb, task, body) is Refused) ==> {
            &&& verb == "background-convert"@ ==> route_of(verb, task, body)
                == RouteView::BackgroundConvert
            &&& verb == "plugin-refresh"@ ==> route_of(verb, task, body) == RouteView::PluginRefresh
            &&& verb != "background-convert"@ && verb != "plugin-refresh"@ ==> route_of(
                verb,
                task,
                body,
            ) == RouteView::Dispatch
        },
        route_of(verb, task, body) matches RouteView::Refused(a) ==> json::field(a, "ok"@) == Some(
            JsonTree::Bool(false),
        ) && json::field(a, "error"@) == Some(JsonTree::Str("session_id_task_mismatch"@))
            && json::field(a, "verb"@) == Some(JsonTree::Str(verb)),
{
    lemma_answer_names();
    reveal_strlit("background-convert");
    reveal_strlit("plugin-refresh");
    assert("background-convert"@.len() == 18 && "plugin-refresh"@.len() == 14);
}

/// A dispatch that answered is answered with that; one that answered nothing,
/// failed or panicked is answered with an error that says so, and is not fine.
pub proof fn law_ends_are_answered(end: DispatchEnd, verb: Seq<char>, tells_verb: bool)
    ensures
        end_failure(end, verb, tells_verb) is None <==> (end matches DispatchEnd::Answered(s)
            && s@.len() > 0),
        end_failure(end, verb, tells_verb) matches Some(a) ==> {
            &&& json::field(a, "ok"@) == Some(JsonTree::Bool(false))
            &&& end matches DispatchEnd::Answered(_) ==> json::field(a, "error"@) == Some(
                JsonTree::Str("empty dispatch result"@),
            )
            &&& end matches DispatchEnd::Failed(e) ==> json::field(a, "error"@) == Some(
                JsonTree::Str(e@),
            )
            &&& end matches DispatchEnd::Panicked(m) ==> json::field(a, "error"@) == Some(
                JsonTree::Str("dispatch panicked: "@ + m@),
            )
            &&& tells_verb || end is Panicked ==> json::field(a, "verb"@) == Some(
                JsonTree::Str(verb),
            )
        },
{
    lemma_answer_names();
}

/// The note of an update goes into the answer to an instruction of `gm`, unless
/// the answer tells of an update itself; nothing else in the answer changes, and
/// no other answer does.
pub proof fn law_update_note_is_added(
    plugin: Seq<char>,
    verb: Seq<char>,
    response: Option<JsonTree>,
    marker: Option<JsonTree>,
    k: Seq<char>,
)
    ensures
        patched(plugin, verb, response, marker) is Some <==> (plugin == "gm"@ && verb
            == "instruction"@ && response is Some && response->0 is Object && marker is Some && (
        json::field(response->0, "update_available"@) is None || json::field(
            response->0,
            "update_available"@,
        ) == Some(JsonTree::Null))),
        patched(plugin, verb, response, marker) matches Some(a) ==> json::field(
            a,
            "update_available"@,
        ) == marker && (k != "update_available"@ ==> json::field(a, k) == json::field(
            response->0,
            k,
        )),
{
}

/// A project has the usual plugins in the usual order, and then those that it
/// names besides, each once.
pub proof fn law_plugins_of_a_project(extra: Seq<Seq<char>>, n: int, i: int)
    requires
        0 <= i < n <= extra.len(),
    ensures
        default_plugins() == seq![
            "gm"@,
            "libsql"@,
            "bert"@,
            "treesitter"@,
            "oxibrowser"@,
            "crux"@,
        ],
        default_plugins().is_prefix_of(with_lacking(default_plugins(), extra, n)),
        with_lacking(default_plugins(), extra, n).contains(extra[i]),
        with_lacking(default_plugins(), extra, n).len() <= 6 + n,
        (forall|k: int| 0 <= k < n ==> default_plugins().contains(#[trigger] extra[k]))
            ==> with_lacking(default_plugins(), extra, n) == default_plugins(),
    decreases n,
{
    let d = default_plugins();
    lemma_lacking(extra, n);
    lemma_lacking_holds(extra, n, i);
    if forall|k: int| 0 <= k < n ==> default_plugins().contains(#[trigger] extra[k]) {
        lemma_nothing_lacks(extra, n);
    }
}

proof fn lemma_lacking(extra: Seq<Seq<char>>, n: int)
    requires
        0 <= n <= extra.len(),
    ensures
        default_plugins().is_prefix_of(with_lacking(default_plugins(), extra, n)),
        with_lacking(default_plugins(), extra, n).len() <= 6 + n,
    decreases n,
{
    let d = default_plugins();
    if n > 0 {
        lemma_lacking(extra, n - 1);
        let a = with_lacking(d, extra, n - 1);
        let b = with_lacking(d, extra, n);
        assert(d =~= a.subrange(0, d.len() as int));
        assert(b.subrange(0, d.len() as int) =~= a.subrange(0, d.len() as int));
    } else {
        assert(d =~= d.subrange(0, d.len() as int));
    }
}

proof fn lemma_lacking_holds(extra: Seq<Seq<char>>, n: int, i: int)
    requires
        0 <= i < n <= extra.len(),
    ensures
        with_lacking(default_plugins(), extra, n).contains(extra[i]),
    decreases n,
{
    let d = default_plugins();
    let a = with_lacking(d, extra, n - 1);
    let b = with_lacking(d, extra, n);
    if i < n - 1 {
        lemma_lacking_holds(extra, n - 1, i);
        let k = choose|k: int| 0 <= k < a.len() && a[k] == extra[i];
        assert(b[k] == extra[i]);
    } else if !a.contains(extra[i]) {
        assert(b[a.len() as int] == extra[i]);
    }
}

proof fn lemma_nothing_lacks(extra: Seq<Seq<char>>, n: int)
    requires
        0 <= n <= extra.len(),
        forall|k: int| 0 <= k < n ==> default_plugins().contains(#[trigger] extra[k]),
    ensures
        with_lacking(default_plugins(), extra, n) == default_plugins(),
    decreases n,
{
    if n > 0 {
        lemma_nothing_lacks(extra, n - 1);
        assert(default_plugins().contains(extra[n - 1]));
    }
}

/// A request whose task does not begin with the session it declares is refused
/// as such.
pub proof fn law_strange_tasks_are_refused(verb: Seq<char>, task: Seq<char>, t: JsonTree, session: Seq<char>)
    requires
        json::field(t, "session_id"@) == Some(JsonTree::Str(session)),
        session.len() > 0,
    ensures
        (session + "-"@).is_prefix_of(task) ==> session_refusal(verb, task, Some(t)) is None,
        !(session + "-"@).is_prefix_of(task) ==> {
            let a = session_refusal(verb, task, Some(t))->0;
            &&& session_refusal(verb, task, Some(t)) is Some
            &&& json::field(a, "ok"@) == Some(JsonTree::Bool(false))
            &&& json::field(a, "error"@) == Some(JsonTree::Str("session_id_task_mismatch"@))
            &&& json::field(a, "verb"@) == Some(JsonTree::Str(verb))
        },
        session_refusal(verb, task, None) is None,
{
    reveal_strlit("ok");
    reveal_strlit("error");
    reveal_strlit("reason");
    reveal_strlit("verb");
    assert("ok"@.len() == 2 && "error"@.len() == 5 && "reason"@.len() == 6 && "verb"@.len() == 4);
}

/// The requests of a project lie in `in` of its spool.
pub proof fn law_requests_lie_in_the_spool(root: Seq<char>)
    requires
        root.len() > 0,
        root.last() != '/',
    ensures
        in_dir_of(root) == root + "/.gm/exec-spool/in"@,
{
    reveal_strlit(".gm");
    reveal_strlit("exec-spool");
    reveal_strlit("in");
    reveal_strlit("/.gm/exec-spool/in");
    let a = path::joined_path(root, ".gm"@);
    assert(a == root.push('/') + ".gm"@);
    assert(a.last() == 'm');
    let b = path::joined_path(a, "exec-spool"@);
    assert(b == a.push('/') + "exec-spool"@);
    assert(b.last() == 'l');
    assert(in_dir_of(root) == b.push('/') + "in"@);
    assert(b.push('/') + "in"@ =~= root + "/.gm/exec-spool/in"@);
}

} // verus!

//! Driving a real browser: what a dispatch asks for, which session serves it,
//! and what the caller gets.
use crate::browser_engine;
use crate::exec_js;
use crate::imports;
use crate::json;
use crate::json::{Json, JsonTree};
use crate::path;
use crate::prefixes;
use crate::prefixes::{BrowserMode, Viewport, ViewportView};
use crate::sessions;
use crate::sessions::BrowserSession;
use crate::strmap::StrMap;
use crate::text;
use vstd::prelude::*;
use vstd::string::*;

verus! {

// ---------------------------------------------------------------------------
// Configuration
// ---------------------------------------------------------------------------
/// What a project's browser configuration says of times and windows.
pub struct BrowserRuntimeConfig {
    pub cdp_poll_timeout_ms: Option<u64>,
    pub cdp_poll_interval_ms: Option<u64>,
    pub chrome_ready_deadline_ms: Option<u64>,
    pub eval_timeout_grace_ms: Option<u64>,
    pub headless: Option<bool>,
    pub session_idle_timeout_ms: Option<u64>,
}

/// The number that is set, or the default.
pub open spec fn set_or(o: Option<u64>, default: u64) -> u64 {
    match o {
        Some(n) => n,
        None => default,
    }
}

fn value_or(o: Option<u64>, default: u64) -> (r: u64)
    ensures
        r == set_or(o, default),
{
    match o {
        Some(n) => n,
        None => default,
    }
}

impl BrowserRuntimeConfig {
    /// How long one look at the endpoint may take.
    pub fn cdp_poll_timeout(&self) -> (r: u64)
        ensures
            r == set_or(self.cdp_poll_timeout_ms, 1000),
    {
        value_or(self.cdp_poll_timeout_ms, 1000)
    }

    /// The pause between two looks at the endpoint.
    pub fn cdp_poll_interval(&self) -> (r: u64)
        ensures
            r == set_or(self.cdp_poll_interval_ms, 250),
    {
        value_or(self.cdp_poll_interval_ms, 250)
    }

    /// How long a browser may take to become ready.
    pub fn chrome_ready_deadline(&self) -> (r: u64)
        ensures
            r == set_or(self.chrome_ready_deadline_ms, 30_000),
    {
        value_or(self.chrome_ready_deadline_ms, 30_000)
    }

    /// How much longer than its time a script is waited for.
    pub fn eval_timeout_grace(&self) -> (r: u64)
        ensures
            r == set_or(self.eval_timeout_grace_ms, 6000),
    {
        value_or(self.eval_timeout_grace_ms, 6000)
    }

    /// Whether the browser shows no window.
    pub fn headless(&self) -> (r: bool)
        ensures
            r == (self.headless == Some(true)),
    {
        match self.headless {
            Some(b) => b,
            None => false,
        }
    }

    /// How long a session may be idle.
    pub fn session_idle_timeout(&self) -> (r: u64)
        ensures
            r == set_or(self.session_idle_timeout_ms, 1_800_000),
    {
        value_or(self.session_idle_timeout_ms, 1_800_000)
    }
}

// ---------------------------------------------------------------------------
// Session commands
// ---------------------------------------------------------------------------
/// A command about sessions that is all of a body.
pub enum SessionCommand<'a> {
    New,
    List,
    Close(&'a str),
    Reset(&'a str),
    Absent,
}

/// A command about sessions, as a value.
pub enum CommandView {
    New,
    List,
    Close(Seq<char>),
    Reset(Seq<char>),
    Absent,
}

/// The value of a command.
pub open spec fn command_view(c: SessionCommand<'_>) -> CommandView {
    match c {
        SessionCommand::New => CommandView::New,
        SessionCommand::List => CommandView::List,
        SessionCommand::Close(id) => CommandView::Close(id@),
        SessionCommand::Reset(id) => CommandView::Reset(id@),
        SessionCommand::Absent => CommandView::Absent,
    }
}

/// The first line of a text; nothing of an empty text.
pub open spec fn first_line(s: Seq<char>) -> Seq<char> {
    if text::lines(s).len() == 0 {
        Seq::empty()
    } else {
        text::lines(s)[0]
    }
}

/// Whether a body is a command, alone or before further lines.
pub open spec fn is_command(t: Seq<char>, command: Seq<char>) -> bool {
    t == command || (command + "\n"@).is_prefix_of(t)
}

/// The command that a body is.
pub open spec fn command_of(body: Seq<char>) -> CommandView {
    let t = text::trimmed(body);
    if is_command(t, "session new"@) {
        CommandView::New
    } else if is_command(t, "session list"@) {
        CommandView::List
    } else {
        match text::after_prefix(t, "session close "@) {
            Some(rest) => CommandView::Close(text::trimmed(first_line(rest))),
            None => match text::after_prefix(t, "session reset "@) {
                Some(rest) => CommandView::Reset(text::trimmed(first_line(rest))),
                None => CommandView::Absent,
            },
        }
    }
}

fn command_matches(t: &str, command: &str) -> (r: bool)
    ensures
        r == is_command(t@, command@),
{
    text::str_eq(t, command) || text::starts_with(t, text::add2(command, "\n").as_str())
}

pub(crate) fn line_one(s: &str) -> (r: &str)
    ensures
        r@ == first_line(s@),
{
    let lines = text::lines_of(s);
    if lines.len() == 0 {
        assert(s@.subrange(0, 0) =~= Seq::<char>::empty());
        s.substring_char(0, 0)
    } else {
        assert(text::views(lines@)[0] == lines@[0]@);
        lines[0]
    }
}

/// Reads the command that a body is.
pub fn parse_session_command(body: &str) -> (r: SessionCommand<'_>)
    ensures
        command_view(r) == command_of(body@),
{
    let t = text::trim(body);
    if command_matches(t, "session new") {
        return SessionCommand::New;
    }
    if command_matches(t, "session list") {
        return SessionCommand::List;
    }
    match text::strip_prefix(t, "session close ") {
        Some(rest) => {
            return SessionCommand::Close(text::trim(line_one(rest)));
        },
        None => {},
    }
    match text::strip_prefix(t, "session reset ") {
        Some(rest) => {
            return SessionCommand::Reset(text::trim(line_one(rest)));
        },
        None => {},
    }
    SessionCommand::Absent
}

/// What every answer about sessions tells.
pub open spec fn session_answer(ok: bool, exit_code: nat, stderr: Seq<char>) -> JsonTree {
    json::obj4(
        "ok"@,
        JsonTree::Bool(ok),
        "stdout"@,
        JsonTree::Str(""@),
        "exit_code"@,
        json::uint_tree(exit_code),
        "stderr"@,
        JsonTree::Str(stderr),
    )
}

fn session_reply(ok: bool, exit_code: u64, stderr: &str) -> (r: Json)
    ensures
        json::tree(r) == session_answer(ok, exit_code as nat, stderr@),
{
    json::object4(
        "ok",
        json::boolean(ok),
        "stdout",
        json::str(""),
        "exit_code",
        json::uint(exit_code),
        "stderr",
        json::str(stderr),
    )
}

/// The answer of a dispatch that failed.
pub fn failed_reply(stderr: &str) -> (r: Json)
    ensures
        json::tree(r) == session_answer(false, 1, stderr@),
{
    session_reply(false, 1, stderr)
}

/// The answer to a new session.
pub fn session_new_reply(session_id: &str, port: u16) -> (r: Json)
    ensures
        json::tree(r) == json::with_field(
            json::with_field(
                session_answer(true, 0, ""@),
                "session_id"@,
                JsonTree::Str(session_id@),
            ),
            "port"@,
            json::uint_tree(port as nat),
        ),
{
    session_reply(true, 0, "").with("session_id", json::str(session_id)).with(
        "port",
        json::uint(port as u64),
    )
}

/// The answer to closing a session.
pub open spec fn close_answer(session_id: Seq<char>, closed: bool, require_found: bool) -> JsonTree {
    let base = if !closed && require_found {
        session_answer(false, 1, "no live session found for id '"@ + session_id + "'"@)
    } else {
        session_answer(true, 0, ""@)
    };
    json::with_field(
        json::with_field(base, "session_id"@, JsonTree::Str(session_id)),
        "closed"@,
        JsonTree::Bool(closed),
    )
}

/// Takes a session out of the open ones. Gives the session, which is then to
/// be ended, and the answer; where a session must be there, none is an error.
pub fn session_close(
    sessions: &mut StrMap<BrowserSession>,
    cwd: &str,
    target_session_id: &str,
    require_found: bool,
) -> (r: (Option<BrowserSession>, Json))
    ensures
        final(sessions)@ == old(sessions)@.remove(sessions::key_of(cwd@, target_session_id@)),
        r.0 == (if old(sessions)@.dom().contains(sessions::key_of(cwd@, target_session_id@)) {
            Some(old(sessions)@[sessions::key_of(cwd@, target_session_id@)])
        } else {
            None
        }),
        json::tree(r.1) == close_answer(target_session_id@, r.0 is Some, require_found),
{
    let key = sessions::session_key(cwd, target_session_id);
    let removed = sessions.remove(key.as_str());
    let closed = removed.is_some();
    let base = if !closed && require_found {
        session_reply(
            false,
            1,
            text::add3("no live session found for id '", target_session_id, "'").as_str(),
        )
    } else {
        session_reply(true, 0, "")
    };
    let answer = base.with("session_id", json::str(target_session_id)).with(
        "closed",
        json::boolean(closed),
    );
    (removed, answer)
}

/// The keys of the sessions of a directory, each once.
pub fn session_keys(sessions: &StrMap<BrowserSession>, cwd: &str) -> (r: Vec<String>)
    ensures
        forall|k: Seq<char>| #[trigger]
            text::lists(r@, k) <==> sessions@.dom().contains(k) && path::same_path(sessions@[k].cwd@, cwd@),
        text::distinct_texts(r@),
{
    let n: usize = sessions.len();
    let ghost keys = sessions.keys();
    let mut out: Vec<String> = Vec::new();
    for i in 0..n
        invariant
            n == keys.len(),
            keys == sessions.keys(),
            forall|j: int|
                0 <= j < out@.len() ==> sessions@.dom().contains((#[trigger] out@[j])@)
                    && path::same_path(sessions@[out@[j]@].cwd@, cwd@),
            forall|j: int|
                0 <= j < i && path::same_path(sessions@[#[trigger] keys[j]].cwd@, cwd@) ==> text::lists(
                    out@,
                    keys[j],
                ),
            keys.no_duplicates(),
            text::distinct_texts(out@),
            forall|j: int|
                0 <= j < out@.len() ==> sessions::among_first(keys, i as int, (#[trigger] out@[j])@),
    {
        let ghost so_far = out@;
        let k = sessions.key_at(i).clone();
        if path::same(sessions.value_at(i).cwd.as_str(), cwd) {
            out.push(k);
        }
        proof {
            assert forall|j: int|
                0 <= j < i + 1 && path::same_path(sessions@[#[trigger] keys[j]].cwd@, cwd@) implies text::lists(
                out@,
                keys[j],
            ) by {
                if j < i {
                    let a = choose|a: int| 0 <= a < so_far.len() && (#[trigger] so_far[a])@ == keys[j];
                    assert(out@[a]@ == keys[j]);
                } else {
                    assert(out@[so_far.len() as int]@ == keys[j]);
                }
            }
            assert forall|a: int, b: int| 0 <= a < b < out@.len() implies (#[trigger] out@[a])@ != (
            #[trigger] out@[b])@ by {
                assert(out@[a] == so_far[a]);
                if b == so_far.len() {
                    assert(sessions::among_first(keys, i as int, so_far[a]@));
                    let x = choose|x: int| 0 <= x < i && #[trigger] keys[x] == so_far[a]@;
                    assert(keys[x] != keys[i as int]);
                } else {
                    assert(out@[b] == so_far[b]);
                }
            }
            assert forall|j: int| 0 <= j < out@.len() implies sessions::among_first(
                keys,
                i + 1,
                (#[trigger] out@[j])@,
            ) by {
                if j < so_far.len() {
                    assert(out@[j] == so_far[j]);
                    let x = choose|x: int| 0 <= x < i && #[trigger] keys[x] == so_far[j]@;
                    assert(keys[x] == out@[j]@);
                } else {
                    assert(keys[i as int] == out@[j]@);
                }
            }
        }
    }
    proof {
        assert forall|k: Seq<char>| #[trigger]
            text::lists(out@, k) <==> sessions@.dom().contains(k) && path::same_path(sessions@[k].cwd@, cwd@) by {
            if sessions@.dom().contains(k) && path::same_path(sessions@[k].cwd@, cwd@) {
                assert(keys.contains(k));
                let j = choose|j: int| 0 <= j < keys.len() && keys[j] == k;
                assert(path::same_path(sessions@[keys[j]].cwd@, cwd@));
            }
            if text::lists(out@, k) {
                let a = choose|a: int| 0 <= a < out@.len() && (#[trigger] out@[a])@ == k;
                assert(sessions@.dom().contains(out@[a]@));
            }
        }
    }
    out
}

/// One session in the list of sessions.
pub open spec fn listed_session(s: BrowserSession, now_ms: u64) -> JsonTree {
    json::obj5(
        "session_id"@,
        JsonTree::Str(s.session_id@),
        "port"@,
        json::uint_tree(s.port as nat),
        "alive"@,
        JsonTree::Bool(true),
        "idle_ms"@,
        json::uint_tree(sessions::idle_ms(s, now_ms) as nat),
        "target_id"@,
        json::opt_str_tree(text::opt_string_view(s.target_id)),
    )
}

/// The sessions that are alive, among the first `n` keys.
pub open spec fn listed_sessions(
    sessions: Map<Seq<char>, BrowserSession>,
    keys: Seq<String>,
    alive: Seq<bool>,
    n: int,
    now_ms: u64,
) -> Seq<JsonTree>
    decreases n,
{
    if n <= 0 {
        Seq::empty()
    } else {
        let rest = listed_sessions(sessions, keys, alive, n - 1, now_ms);
        if alive[n - 1] && sessions.dom().contains(keys[n - 1]@) {
            rest.push(listed_session(sessions[keys[n - 1]@], now_ms))
        } else {
            rest
        }
    }
}

fn session_entry(s: &BrowserSession, now_ms: u64) -> (r: Json)
    ensures
        json::tree(r) == listed_session(*s, now_ms),
{
    let target = match &s.target_id {
        Some(t) => Some(t.as_str()),
        None => None,
    };
    json::object5(
        "session_id",
        json::str(s.session_id.as_str()),
        "port",
        json::uint(s.port as u64),
        "alive",
        json::boolean(true),
        "idle_ms",
        json::uint(now_ms.saturating_sub(s.last_used_ms)),
        "target_id",
        json::opt_str(target),
    )
}

/// The answer to listing sessions, given which of them are alive.
pub fn session_list(
    sessions: &StrMap<BrowserSession>,
    keys: &Vec<String>,
    alive: &Vec<bool>,
    now_ms: u64,
) -> (r: Json)
    requires
        keys@.len() == alive@.len(),
    ensures
        json::tree(r) == json::with_field(
            session_answer(true, 0, ""@),
            "sessions"@,
            JsonTree::Array(
                listed_sessions(sessions@, keys@, alive@, keys@.len() as int, now_ms),
            ),
        ),
{
    let mut out: Vec<Json> = Vec::new();
    for i in 0..keys.len()
        invariant
            keys@.len() == alive@.len(),
            json::trees(out@) == listed_sessions(sessions@, keys@, alive@, i as int, now_ms),
    {
        let ghost before = out@;
        if alive[i] {
            match sessions.get(keys[i].as_str()) {
                Some(s) => {
                    out.push(session_entry(s, now_ms));
                    assert(out@.drop_last() == before);
                },
                None => {},
            }
        }
    }
    session_reply(true, 0, "").with("sessions", Json::Array(out))
}

/// Drops the sessions that are not alive.
pub fn drop_dead_sessions(
    sessions: &mut StrMap<BrowserSession>,
    keys: &Vec<String>,
    alive: &Vec<bool>,
)
    requires
        keys@.len() == alive@.len(),
    ensures
        forall|k: Seq<char>| (#[trigger] final(sessions)@.dom().contains(k)) <==> old(sessions)@.dom().contains(k) && !dead(keys@, alive@, keys@.len() as int, k),
        forall|k: Seq<char>| (#[trigger] final(sessions)@.dom().contains(k)) ==> final(sessions)@[k] == old(sessions)@[k],
{
    let ghost before = sessions@;
    for i in 0..keys.len()
        invariant
            keys@.len() == alive@.len(),
            forall|k: Seq<char>| (#[trigger] sessions@.dom().contains(k))
                <==> before.dom().contains(k) && !dead(keys@, alive@, i as int, k),
            forall|k: Seq<char>| (#[trigger] sessions@.dom().contains(k)) ==> sessions@[k]
                == before[k],
    {
        let ghost now = sessions@;
        if !alive[i] {
            let _ = sessions.remove(keys[i].as_str());
        }
        proof {
            assert forall|k: Seq<char>| (#[trigger] sessions@.dom().contains(k))
                <==> before.dom().contains(k) && !dead(keys@, alive@, i + 1, k) by {
                assert(now.dom().contains(k) <==> before.dom().contains(k) && !dead(
                    keys@,
                    alive@,
                    i as int,
                    k,
                ));
                lemma_dead_step(keys@, alive@, i as int, k);
            }
            assert forall|k: Seq<char>| (#[trigger] sessions@.dom().contains(k)) implies sessions@[k]
                == before[k] by {
                assert(now.dom().contains(k));
            }
        }
    }
}

/// Whether one of the first `n` keys is `k` and its session is not alive.
pub open spec fn dead(keys: Seq<String>, alive: Seq<bool>, n: int, k: Seq<char>) -> bool {
    exists|i: int| 0 <= i < n && (#[trigger] keys[i])@ == k && !alive[i]
}

proof fn lemma_dead_step(keys: Seq<String>, alive: Seq<bool>, n: int, k: Seq<char>)
    requires
        0 <= n < keys.len(),
    ensures
        dead(keys, alive, n + 1, k) == (dead(keys, alive, n, k) || (keys[n]@ == k && !alive[n])),
{
    if dead(keys, alive, n, k) {
        let i = choose|i: int| 0 <= i < n && (#[trigger] keys[i])@ == k && !alive[i];
        assert(keys[i]@ == k);
    }
    if dead(keys, alive, n + 1, k) {
        let i = choose|i: int| 0 <= i < n + 1 && (#[trigger] keys[i])@ == k && !alive[i];
        if i < n {
            assert(keys[i]@ == k);
        }
    }
}

// ---------------------------------------------------------------------------
// Planning a dispatch
// ---------------------------------------------------------------------------
/// How long a script may take where nothing says otherwise, in milliseconds.
pub const EVAL_TIMEOUT_MS_DEFAULT: u64 = 120_000;

/// A script and how it is run.
pub struct ScriptPlan {
    pub timeout_ms: u64,
    pub mode: BrowserMode,
    pub mode_name: String,
    pub viewport: Option<Viewport>,
    pub start_url: Option<String>,
    pub script: String,
}

/// What a dispatch does.
pub enum BrowserAction {
    /// Nothing: this is the answer.
    Answer(Json),
    New,
    List,
    Close { id: String, require_found: bool },
    Run(ScriptPlan),
}

/// What a dispatch does, and in which session.
pub struct BrowserPlan {
    pub session_id: String,
    pub action: BrowserAction,
}

/// The session of a dispatch: the one that its body names, the one that the
/// guest found, or the default.
pub open spec fn session_of(explicit: Option<Seq<char>>, guest: Seq<char>) -> Seq<char> {
    let s = imports::or_default(explicit, guest);
    if s.len() == 0 {
        "default"@
    } else {
        s
    }
}

/// A script and how it is run, as a value.
#[verifier::ext_equal]
pub struct ScriptView {
    pub timeout_ms: nat,
    pub mode: BrowserMode,
    pub mode_name: Seq<char>,
    pub viewport: Option<ViewportView>,
    pub start_url: Option<Seq<char>>,
    pub script: Seq<char>,
}

impl View for ScriptPlan {
    type V = ScriptView;

    open spec fn view(&self) -> ScriptView {
        ScriptView {
            timeout_ms: self.timeout_ms as nat,
            mode: self.mode,
            mode_name: self.mode_name@,
            viewport: prefixes::opt_viewport(self.viewport),
            start_url: text::opt_string_view(self.start_url),
            script: self.script@,
        }
    }
}

/// What a dispatch does, as a value.
pub enum ActionView {
    Answer(JsonTree),
    New,
    List,
    Close(Seq<char>, bool),
    Run(ScriptView),
}

/// The value of an action.
pub open spec fn action_view(a: BrowserAction) -> ActionView {
    match a {
        BrowserAction::Answer(j) => ActionView::Answer(json::tree(j)),
        BrowserAction::New => ActionView::New,
        BrowserAction::List => ActionView::List,
        BrowserAction::Close { id, require_found } => ActionView::Close(id@, require_found),
        BrowserAction::Run(s) => ActionView::Run(s@),
    }
}

/// What an empty script is refused with.
pub const EMPTY_SCRIPT_ERROR: &'static str = "browser dispatch resolved to an empty script body after prefix parsing -- nothing would be evaluated, refusing rather than silently launching/reusing a session and returning a false success";

/// The script that a body holds, behind the lines before it, given the time
/// that the options allow.
pub open spec fn script_of(body: Seq<char>, timeout_ms: nat) -> ScriptView {
    let (p, rest) = prefixes::all_lines(prefixes::no_prefixes(), body);
    ScriptView {
        timeout_ms: match p.timeout_ms {
            Some(ms) => ms,
            None => timeout_ms,
        },
        mode: p.mode,
        mode_name: p.mode_name,
        viewport: p.viewport,
        start_url: p.start_url,
        script: if text::is_blank(rest) {
            p.url_script
        } else {
            rest
        },
    }
}

/// What a dispatch does: a session command where its body is one, else its
/// script. An empty script is refused, unless the page itself is asked for.
pub open spec fn action_of(body: Seq<char>, timeout_ms: nat) -> ActionView {
    match command_of(body) {
        CommandView::New => ActionView::New,
        CommandView::List => ActionView::List,
        CommandView::Close(id) => if id.len() > 0 {
            ActionView::Close(id, true)
        } else {
            ActionView::Answer(missing_id_answer())
        },
        CommandView::Reset(id) => if id.len() > 0 {
            ActionView::Close(id, false)
        } else {
            ActionView::Answer(missing_id_answer())
        },
        CommandView::Absent => {
            let s = script_of(body, timeout_ms);
            if s.mode != BrowserMode::Dom && text::is_blank(s.script) {
                ActionView::Answer(
                    json::with_field(
                        session_answer(false, 1, EMPTY_SCRIPT_ERROR@),
                        "start_url"@,
                        json::opt_str_tree(s.start_url),
                    ),
                )
            } else {
                ActionView::Run(s)
            }
        },
    }
}

/// The answer to a command without the session it is about.
pub open spec fn missing_id_answer() -> JsonTree {
    session_answer(
        false,
        1,
        "session close/reset requires an explicit id, e.g. 'session close default'"@,
    )
}

/// The time that options allow.
pub open spec fn allowed_time(opts: JsonTree) -> nat {
    match json::field_u64(opts, "timeoutMs"@) {
        Some(ms) => ms,
        None => EVAL_TIMEOUT_MS_DEFAULT as nat,
    }
}

fn missing_id() -> (r: BrowserAction)
    ensures
        action_view(r) == ActionView::Answer(missing_id_answer()),
{
    BrowserAction::Answer(
        failed_reply(
            "session close/reset requires an explicit id, e.g. 'session close default'",
        ),
    )
}

fn plan_script(body: &str, timeout_ms: u64) -> (r: ScriptPlan)
    ensures
        r@ == script_of(body@, timeout_ms as nat),
{
    let (p, rest) = prefixes::strip_all(body);
    let script = if text::blank(rest) {
        p.url_script
    } else {
        rest.to_owned()
    };
    ScriptPlan {
        timeout_ms: match p.timeout_ms {
            Some(ms) => ms,
            None => timeout_ms,
        },
        mode: p.mode,
        mode_name: p.mode_name,
        viewport: p.viewport,
        start_url: p.start_url,
        script,
    }
}

fn plan_action(body: &str, timeout_ms: u64) -> (r: BrowserAction)
    ensures
        action_view(r) == action_of(body@, timeout_ms as nat),
{
    match parse_session_command(body) {
        SessionCommand::New => BrowserAction::New,
        SessionCommand::List => BrowserAction::List,
        SessionCommand::Close(id) => if id.is_empty() {
            missing_id()
        } else {
            BrowserAction::Close { id: id.to_owned(), require_found: true }
        },
        SessionCommand::Reset(id) => if id.is_empty() {
            missing_id()
        } else {
            BrowserAction::Close { id: id.to_owned(), require_found: false }
        },
        SessionCommand::Absent => {
            let s = plan_script(body, timeout_ms);
            if s.mode != BrowserMode::Dom && text::blank(s.script.as_str()) {
                let url = match &s.start_url {
                    Some(u) => Some(u.as_str()),
                    None => None,
                };
                BrowserAction::Answer(
                    failed_reply(EMPTY_SCRIPT_ERROR).with("start_url", json::opt_str(url)),
                )
            } else {
                BrowserAction::Run(s)
            }
        },
    }
}

/// Plans a dispatch from its body and its options.
pub fn plan_with(body: &str, opts: &Json, guest_session: &str) -> (r: BrowserPlan)
    ensures
        r.session_id@ == session_of(prefixes::session_id_line(body@).0, guest_session@),
        action_view(r.action) == action_of(
            prefixes::session_id_line(body@).1,
            allowed_time(json::tree(*opts)),
        ),
{
    let timeout_ms: u64 = match opts.u64_field("timeoutMs") {
        Some(ms) => ms,
        None => EVAL_TIMEOUT_MS_DEFAULT,
    };
    let (explicit, rest) = prefixes::strip_session_id_prefix(body);
    let session = match explicit {
        Some(s) => s,
        None => guest_session.to_owned(),
    };
    let session_id = if session.as_str().is_empty() {
        "default".to_owned()
    } else {
        session
    };
    BrowserPlan { session_id, action: plan_action(rest, timeout_ms) }
}

/// Plans a dispatch.
pub fn plan(body: &str, opts: &str, guest_session: &str) -> (r: BrowserPlan)
    ensures
        r.session_id@ == session_of(prefixes::session_id_line(body@).0, guest_session@),
        action_view(r.action) == action_of(
            prefixes::session_id_line(body@).1,
            allowed_time(
                match json::parsed_json(opts@) {
                    Ok(t) => t,
                    Err(_) => json::no_fields(),
                },
            ),
        ),
{
    let o = match json::parse(opts) {
        Ok(j) => j,
        Err(_) => json::object(),
    };
    plan_with(body, &o, guest_session)
}

/// A script that runs has something to run: it is not blank, unless the page
/// itself is asked for.
pub proof fn law_no_empty_script_runs(body: Seq<char>, timeout_ms: nat)
    requires
        action_of(body, timeout_ms) is Run,
    ensures
        action_of(body, timeout_ms)->Run_0.mode == BrowserMode::Dom || !text::is_blank(
            action_of(body, timeout_ms)->Run_0.script,
        ),
{
}

/// A dispatch always has a session to run in.
pub proof fn law_every_dispatch_has_a_session(explicit: Option<Seq<char>>, guest: Seq<char>)
    ensures
        session_of(explicit, guest).len() > 0,
{
    reveal_strlit("default");
}

// ---------------------------------------------------------------------------
// The session that serves a dispatch
// ---------------------------------------------------------------------------
/// The port of a session, where it is open and alive; a session that is not
/// alive is dropped.
pub fn reuse_candidate(sessions: &mut StrMap<BrowserSession>, key: &str, alive: bool) -> (r: Option<u16>)
    ensures
        r == (if alive && old(sessions)@.dom().contains(key@) {
            Some(old(sessions)@[key@].port)
        } else {
            None
        }),
        final(sessions)@ == (if r is Some {
            old(sessions)@
        } else {
            old(sessions)@.remove(key@)
        }),
{
    if alive {
        match sessions.get(key) {
            Some(s) => {
                return Some(s.port);
            },
            None => {},
        }
    }
    let _ = sessions.remove(key);
    None
}

/// A session that is used now.
pub open spec fn used_at(s: BrowserSession, now_ms: u64) -> BrowserSession {
    BrowserSession { last_used_ms: now_ms, ..s }
}

/// Notes that a session is used now. Gives the page it used last.
pub fn touch_session(sessions: &mut StrMap<BrowserSession>, key: &str, now_ms: u64) -> (r: Option<
    String,
>)
    ensures
        final(sessions)@ == (if old(sessions)@.dom().contains(key@) {
            old(sessions)@.insert(key@, used_at(old(sessions)@[key@], now_ms))
        } else {
            old(sessions)@
        }),
        text::opt_string_view(r) == (if old(sessions)@.dom().contains(key@) {
            text::opt_string_view(old(sessions)@[key@].target_id)
        } else {
            None
        }),
{
    let ghost before = sessions@;
    match sessions.remove(key) {
        Some(s) => {
            let mut s = s;
            let target = match &s.target_id {
                Some(t) => Some(t.clone()),
                None => None,
            };
            s.last_used_ms = now_ms;
            sessions.insert(key.to_owned(), s);
            assert(before.remove(key@).insert(key@, s) =~= before.insert(key@, s));
            target
        },
        None => {
            assert(before.remove(key@) =~= before);
            None
        },
    }
}

/// Notes the page that a session used, where the result of its script names
/// one.
pub fn note_target(sessions: &mut StrMap<BrowserSession>, key: &str, result: &Json)
    ensures
        match json::field_str(json::tree(*result), "__targetId"@) {
            Some(t) => if old(sessions)@.dom().contains(key@) {
                &&& final(sessions)@.dom() == old(sessions)@.dom()
                &&& text::opt_string_view(final(sessions)@[key@].target_id) == Some(t)
                &&& final(sessions)@ == old(sessions)@.insert(
                    key@,
                    (BrowserSession {
                        target_id: final(sessions)@[key@].target_id,
                        ..old(sessions)@[key@]
                    }),
                )
            } else {
                final(sessions)@ == old(sessions)@
            },
            None => final(sessions)@ == old(sessions)@,
        },
{
    let ghost before = sessions@;
    match result.str_field("__targetId") {
        Some(t) => match sessions.remove(key) {
            Some(s) => {
                let mut s = s;
                s.target_id = Some(t.to_owned());
                sessions.insert(key.to_owned(), s);
                assert(before.remove(key@).insert(key@, s) =~= before.insert(key@, s));
                assert(sessions@.dom() =~= before.dom());
            },
            None => {
                assert(before.remove(key@) =~= before);
            },
        },
        None => {},
    }
}

/// A session that was just opened, or adopted.
pub fn new_session(
    cwd: &str,
    session_id: &str,
    pid: u32,
    port: u16,
    owns_process: bool,
    launched_here: bool,
    now_ms: u64,
) -> (r: BrowserSession)
    ensures
        r.cwd@ == cwd@,
        r.session_id@ == session_id@,
        r.pid == pid,
        r.port == port,
        r.last_used_ms == now_ms,
        r.target_id is None,
        r.owns_process == owns_process,
        r.launched_here == launched_here,
{
    BrowserSession {
        cwd: cwd.to_owned(),
        session_id: session_id.to_owned(),
        pid,
        port,
        last_used_ms: now_ms,
        target_id: None,
        owns_process,
        launched_here,
    }
}

// ---------------------------------------------------------------------------
// Adopting a browser that outlived its host
// ---------------------------------------------------------------------------
/// A browser that can be adopted.
pub struct Adoption {
    pub session_id: String,
    pub pid: u32,
    pub port: u16,
}

/// The name of the session that a profile belongs to: the one that is noted
/// there, the one that is looked for, or the one in the name of the profile.
pub open spec fn adopted_session(
    noted: Option<Seq<char>>,
    hint: Option<Seq<char>>,
    profile_name: Seq<char>,
) -> Option<Seq<char>> {
    let from_note = match noted {
        Some(s) => if text::is_blank(s) {
            None
        } else {
            Some(text::trimmed(s))
        },
        None => None,
    };
    let from_name = match text::after_prefix(profile_name, "browser-chrome-profile-"@) {
        Some(s) => if s.len() == 0 {
            None
        } else {
            Some(s)
        },
        None => None,
    };
    imports::first_of(imports::first_of(from_note, hint), from_name)
}

/// The number in a file, if it holds one.
pub open spec fn noted_number(file: Option<Seq<char>>, max: nat) -> Option<nat> {
    match file {
        Some(s) => text::parsed_uint(text::trimmed(s), max),
        None => None,
    }
}

fn number_in(file: Option<&str>, max: u64) -> (r: Option<u64>)
    ensures
        imports::opt_nat(r) == noted_number(text::opt_view(file), max as nat),
        r matches Some(n) ==> n <= max,
{
    match file {
        Some(s) => text::parse_uint(text::trim(s), max),
        None => None,
    }
}

/// The number of the process that is noted, if one is.
pub fn noted_process(noted_pid: Option<&str>) -> (r: Option<u32>)
    ensures
        match r {
            Some(pid) => noted_number(text::opt_view(noted_pid), u32::MAX as nat) == Some(pid as nat),
            None => noted_number(text::opt_view(noted_pid), u32::MAX as nat) is None,
        },
{
    match number_in(noted_pid, u32::MAX as u64) {
        Some(pid) => Some(pid as u32),
        None => None,
    }
}

/// The browser that the notes beside a profile speak of: its session, its
/// process and its port. Without all three they speak of none.
pub open spec fn noted_browser(
    noted_session: Option<Seq<char>>,
    hint: Option<Seq<char>>,
    profile_name: Seq<char>,
    noted_pid: Option<Seq<char>>,
    noted_port: Option<Seq<char>>,
) -> Option<(Seq<char>, nat, nat)> {
    match (
        adopted_session(noted_session, hint, profile_name),
        noted_number(noted_pid, u32::MAX as nat),
        noted_number(noted_port, 0xffff),
    ) {
        (Some(s), Some(pid), Some(port)) => Some((s, pid, port)),
        _ => None,
    }
}

/// A browser that may be adopted, as a value.
pub open spec fn adoption_view(a: Option<Adoption>) -> Option<(Seq<char>, nat, nat)> {
    match a {
        Some(a) => Some((a.session_id@, a.pid as nat, a.port as nat)),
        None => None,
    }
}

/// Reads the notes beside a profile.
pub fn adoption_from_notes(
    noted_session: Option<&str>,
    hint: Option<&str>,
    profile_name: &str,
    noted_pid: Option<&str>,
    noted_port: Option<&str>,
) -> (r: Option<Adoption>)
    ensures
        adoption_view(r) == noted_browser(
            text::opt_view(noted_session),
            text::opt_view(hint),
            profile_name@,
            text::opt_view(noted_pid),
            text::opt_view(noted_port),
        ),
{
    let from_note: Option<String> = match noted_session {
        Some(s) => if text::blank(s) {
            None
        } else {
            Some(text::trim(s).to_owned())
        },
        None => None,
    };
    let session_id = match from_note {
        Some(s) => Some(s),
        None => match hint {
            Some(h) => Some(h.to_owned()),
            None => match text::strip_prefix(profile_name, "browser-chrome-profile-") {
                Some(s) => if s.is_empty() {
                    None
                } else {
                    Some(s.to_owned())
                },
                None => None,
            },
        },
    };
    match (session_id, number_in(noted_pid, u32::MAX as u64), number_in(noted_port, 0xffff)) {
        (Some(session_id), Some(pid), Some(port)) => Some(
            Adoption { session_id, pid: pid as u32, port: port as u16 },
        ),
        _ => None,
    }
}

/// The browser to adopt: the one that is noted, where its process is there and
/// its endpoint answers. Where there is none to adopt, what is left of it may be
/// ended.
pub fn adoptable(noted: Option<Adoption>, process_there: bool, endpoint_answers: bool) -> (r: Option<
    Adoption,
>)
    ensures
        r == (if process_there && endpoint_answers {
            noted
        } else {
            None
        }),
{
    if process_there && endpoint_answers {
        noted
    } else {
        None
    }
}

/// Adopts a browser: it becomes an open session, unless one of that name is
/// open and alive.
pub fn adopt(
    sessions: &mut StrMap<BrowserSession>,
    cwd: &str,
    a: &Adoption,
    existing_alive: bool,
    now_ms: u64,
)
    ensures
        ({
            let k = sessions::key_of(cwd@, a.session_id@);
            if old(sessions)@.dom().contains(k) && existing_alive {
                final(sessions)@ == old(sessions)@
            } else {
                &&& final(sessions)@.dom() == old(sessions)@.dom().insert(k)
                &&& final(sessions)@ == old(sessions)@.insert(k, final(sessions)@[k])
                &&& final(sessions)@[k].cwd@ == cwd@
                &&& final(sessions)@[k].session_id@ == a.session_id@
                &&& final(sessions)@[k].pid == a.pid
                &&& final(sessions)@[k].port == a.port
                &&& final(sessions)@[k].last_used_ms == now_ms
                &&& final(sessions)@[k].target_id is None
                &&& final(sessions)@[k].owns_process
                &&& !final(sessions)@[k].launched_here
            }
        }),
{
    let key = sessions::session_key(cwd, a.session_id.as_str());
    if existing_alive && sessions.contains(key.as_str()) {
        return;
    }
    let s = new_session(cwd, a.session_id.as_str(), a.pid, a.port, true, false, now_ms);
    let ghost before = sessions@;
    sessions.insert(key, s);
    assert(sessions@.dom() =~= before.dom().insert(sessions::key_of(cwd@, a.session_id@)));
}

/// How old a note must be before its browser counts as left behind, in
/// milliseconds.
pub const ORPHAN_REAP_GRACE_MS: u64 = 15_000;

/// Whether an entry beside a project may be the profile of a browser that was
/// left behind: a directory named like one, that no open session claims, whose
/// note is not fresh.
pub fn may_be_orphan(
    name: &str,
    dir: &str,
    is_dir: bool,
    claimed: &Vec<String>,
    note_age_ms: Option<u64>,
) -> (r: bool)
    ensures
        r == (is_dir && "browser-chrome-profile-"@.is_prefix_of(name@) && !path::lists_path(
            claimed@,
            dir@,
        ) && (match note_age_ms {
            Some(age) => age >= ORPHAN_REAP_GRACE_MS,
            None => true,
        })),
{
    is_dir && text::starts_with(name, "browser-chrome-profile-") && !path::list_contains_path(
        claimed,
        dir,
    ) && (match note_age_ms {
        Some(age) => age >= ORPHAN_REAP_GRACE_MS,
        None => true,
    })
}

/// Whether a session is one of the directory, where one is given.
pub open spec fn is_in(s: BrowserSession, cwd: Option<Seq<char>>) -> bool {
    match cwd {
        Some(d) => path::same_path(s.cwd@, d),
        None => true,
    }
}

/// The profiles that the open sessions of a directory claim, or those of all
/// open sessions.
pub fn claimed_profile_dirs(sessions: &StrMap<BrowserSession>, cwd: Option<&str>) -> (r: Vec<String>)
    ensures
        forall|k: Seq<char>|
            #![trigger sessions@[k]]
            sessions@.dom().contains(k) && is_in(
                sessions@[k],
                text::opt_view(cwd),
            ) ==> text::lists(
                r@,
                sessions::profile_dir(sessions@[k].cwd@, sessions@[k].session_id@),
            ),
        forall|i: int|
            0 <= i < r@.len() ==> claims(sessions@, text::opt_view(cwd), (#[trigger] r@[i])@),
{
    let n: usize = sessions.len();
    let ghost keys = sessions.keys();
    let ghost c = text::opt_view(cwd);
    let mut out: Vec<String> = Vec::new();
    for i in 0..n
        invariant
            n == keys.len(),
            keys == sessions.keys(),
            c == text::opt_view(cwd),
            forall|j: int|
                0 <= j < i && is_in(sessions@[#[trigger] keys[j]], c)
                    ==> text::lists(
                    out@,
                    sessions::profile_dir(
                        sessions@[keys[j]].cwd@,
                        sessions@[keys[j]].session_id@,
                    ),
                ),
            forall|j: int|
                0 <= j < out@.len() ==> claims(sessions@, c, (#[trigger] out@[j])@),
    {
        let ghost so_far = out@;
        let s = sessions.value_at(i);
        let wanted = match cwd {
            Some(d) => path::same(s.cwd.as_str(), d),
            None => true,
        };
        if wanted {
            out.push(
                sessions::browser_chrome_profile_dir(s.cwd.as_str(), s.session_id.as_str()),
            );
            assert(sessions@.dom().contains(keys[i as int]));
        }
        proof {
            assert forall|j: int|
                0 <= j < i + 1 && is_in(sessions@[#[trigger] keys[j]], c) implies text::lists(
                out@,
                sessions::profile_dir(sessions@[keys[j]].cwd@, sessions@[keys[j]].session_id@),
            ) by {
                let d = sessions::profile_dir(
                    sessions@[keys[j]].cwd@,
                    sessions@[keys[j]].session_id@,
                );
                if j < i {
                    let a = choose|a: int| 0 <= a < so_far.len() && (#[trigger] so_far[a])@ == d;
                    assert(out@[a]@ == d);
                } else {
                    assert(out@[so_far.len() as int]@ == d);
                }
            }
        }
    }
    proof {
        assert forall|k: Seq<char>|
            #![trigger sessions@[k]]
            sessions@.dom().contains(k) && is_in(sessions@[k], c) implies text::lists(
            out@,
            sessions::profile_dir(sessions@[k].cwd@, sessions@[k].session_id@),
        ) by {
            assert(keys.contains(k));
            let j = choose|j: int| 0 <= j < keys.len() && keys[j] == k;
            assert(keys[j] == k);
        }
    }
    out
}

/// Whether an open session of the directory, or of any, has this profile.
pub open spec fn claims(
    sessions: Map<Seq<char>, BrowserSession>,
    cwd: Option<Seq<char>>,
    dir: Seq<char>,
) -> bool {
    exists|k: Seq<char>|
        #![trigger sessions[k]]
        sessions.dom().contains(k) && is_in(sessions[k], cwd)
            && sessions::profile_dir(sessions[k].cwd@, sessions[k].session_id@) == dir
}

// ---------------------------------------------------------------------------
// Processes
// ---------------------------------------------------------------------------
/// A process line of `ps`: its number and its command, if that is a browser.
pub open spec fn process_line(line: Seq<char>) -> Option<(nat, Seq<char>)> {
    let t = text::trimmed_start(line);
    let n = text::word_end(t) as int;
    if n >= t.len() {
        None
    } else {
        let rest = t.skip(n + 1);
        if !text::has_text(rest, "chrome"@) && !text::has_text(rest, "chromium"@) {
            None
        } else {
            match text::parsed_uint(text::trimmed(t.take(n)), u32::MAX as nat) {
                Some(pid) => Some((pid, rest)),
                None => None,
            }
        }
    }
}

/// A process line that a process query printed: number and command with a bar
/// between them.
pub open spec fn queried_line(line: Seq<char>) -> Option<(nat, Seq<char>)> {
    if !text::has_char(line, '|') {
        None
    } else {
        match text::parsed_uint(text::trimmed(text::before_char(line, '|')), u32::MAX as nat) {
            Some(pid) => Some((pid, text::after_char(line, '|'))),
            None => None,
        }
    }
}

/// The processes among the first `n` lines.
pub open spec fn processes_in(lines: Seq<Seq<char>>, n: int, queried: bool) -> Seq<(nat, Seq<char>)>
    decreases n,
{
    if n <= 0 {
        Seq::empty()
    } else {
        let rest = processes_in(lines, n - 1, queried);
        let found = if queried {
            queried_line(lines[n - 1])
        } else {
            process_line(lines[n - 1])
        };
        match found {
            Some(p) => rest.push(p),
            None => rest,
        }
    }
}

/// A list of processes, as a value.
pub open spec fn process_views(s: Seq<(u32, String)>) -> Seq<(nat, Seq<char>)> {
    Seq::new(s.len(), |i: int| (s[i].0 as nat, s[i].1@))
}

fn read_process_line(line: &str) -> (r: Option<(u32, String)>)
    ensures
        match r {
            Some(p) => process_line(line@) == Some((p.0 as nat, p.1@)),
            None => process_line(line@) is None,
        },
{
    let t = text::trim_start(line);
    let cs = text::chars_of(t);
    let len: usize = cs.len();
    let mut n: usize = 0;
    assert(t@.skip(0) =~= t@);
    while n < len && !text::char_is_space(cs[n])
        invariant
            n <= len,
            len == cs@.len(),
            cs@ == t@,
            text::word_end(t@) == n + text::word_end(t@.skip(n as int)),
        decreases len - n,
    {
        assert(t@.skip(n as int).skip(1) =~= t@.skip(n + 1));
        n += 1;
    }
    if n >= len {
        return None;
    }
    assert(t@.subrange(0, n as int) =~= t@.take(n as int));
    assert(t@.subrange(n + 1, len as int) =~= t@.skip(n + 1));
    let rest = t.substring_char(n + 1, len);
    if !text::contains(rest, "chrome") && !text::contains(rest, "chromium") {
        return None;
    }
    match text::parse_u32(text::trim(t.substring_char(0, n))) {
        Some(pid) => Some((pid, rest.to_owned())),
        None => None,
    }
}

fn read_queried_line(line: &str) -> (r: Option<(u32, String)>)
    ensures
        match r {
            Some(p) => queried_line(line@) == Some((p.0 as nat, p.1@)),
            None => queried_line(line@) is None,
        },
{
    match text::cut(line, '|') {
        (_, None) => None,
        (pid, Some(cmdline)) => match text::parse_u32(text::trim(pid)) {
            Some(pid) => Some((pid, cmdline.to_owned())),
            None => None,
        },
    }
}

/// The browser processes that a listing shows. `queried` says whether it is
/// that of a process query, which lists nothing else, or that of `ps`.
pub fn list_chrome_processes(listing: &str, queried: bool) -> (r: Vec<(u32, String)>)
    ensures
        process_views(r@) == processes_in(
            text::lines(listing@),
            text::lines(listing@).len() as int,
            queried,
        ),
{
    let lines = text::lines_of(listing);
    let ghost all = text::views(lines@);
    let mut out: Vec<(u32, String)> = Vec::new();
    assert(process_views(out@) =~= Seq::<(nat, Seq<char>)>::empty());
    for i in 0..lines.len()
        invariant
            all == text::views(lines@),
            process_views(out@) == processes_in(all, i as int, queried),
    {
        let ghost before = out@;
        assert(all[i as int] == lines@[i as int]@);
        let found = if queried {
            read_queried_line(lines[i])
        } else {
            read_process_line(lines[i])
        };
        match found {
            Some(p) => {
                let ghost pv = (p.0 as nat, p.1@);
                out.push(p);
                assert(process_views(out@) =~= process_views(before).push(pv));
            },
            None => {},
        }
    }
    out
}

/// A path or a command line in one letter case and with one separator.
pub open spec fn folded(s: Seq<char>) -> Seq<char> {
    text::lower(text::replaced(s, '\\', '/'))
}

pub(crate) fn fold(s: &str) -> (r: String)
    ensures
        r@ == folded(s@),
{
    text::to_lower(text::replace_char(s, '\\', '/').as_str())
}

/// The numbers of the processes among the first `n` whose command names the
/// profile.
pub open spec fn using_profile(ps: Seq<(u32, String)>, profile: Seq<char>, n: int) -> Seq<u32>
    decreases n,
{
    if n <= 0 {
        Seq::empty()
    } else if text::has_text(folded(ps[n - 1].1@), folded(profile)) {
        using_profile(ps, profile, n - 1).push(ps[n - 1].0)
    } else {
        using_profile(ps, profile, n - 1)
    }
}

/// The processes that use a profile.
pub fn find_pids_of_chrome_processes_using_profile_dir(
    processes: &Vec<(u32, String)>,
    profile: &str,
) -> (r: Vec<u32>)
    ensures
        r@ == using_profile(processes@, profile@, processes@.len() as int),
{
    let needle = fold(profile);
    let mut out: Vec<u32> = Vec::new();
    for i in 0..processes.len()
        invariant
            needle@ == folded(profile@),
            out@ == using_profile(processes@, profile@, i as int),
    {
        if text::contains(fold(processes[i].1.as_str()).as_str(), needle.as_str()) {
            out.push(processes[i].0);
        }
    }
    out
}

/// The processes to look at before a profile is given up: the one that is
/// noted, or all that use the profile where none is.
pub fn pids_to_check(
    noted_pid: Option<&str>,
    processes: &Vec<(u32, String)>,
    profile: &str,
) -> (r: Vec<u32>)
    ensures
        r@ == (match noted_number(text::opt_view(noted_pid), u32::MAX as nat) {
            Some(pid) => seq![pid as u32],
            None => using_profile(processes@, profile@, processes@.len() as int),
        }),
{
    match noted_process(noted_pid) {
        Some(pid) => {
            let mut out: Vec<u32> = Vec::new();
            out.push(pid);
            assert(out@ =~= seq![pid]);
            out
        },
        None => find_pids_of_chrome_processes_using_profile_dir(processes, profile),
    }
}

/// The value of a flag among the words of a command line.
pub open spec fn flag_in(words: Seq<Seq<char>>, flag: Seq<char>) -> Option<Seq<char>>
    decreases words.len(),
{
    if words.len() == 0 {
        None
    } else {
        match text::after_prefix(text::without_around(words[0], '"'), flag) {
            Some(v) => Some(text::without_around(v, '"')),
            None => flag_in(words.skip(1), flag),
        }
    }
}

/// The value of a flag on a command line.
pub fn cmdline_flag_value(cmdline: &str, flag: &str) -> (r: Option<String>)
    ensures
        text::opt_string_view(r) == flag_in(text::words(cmdline@), flag@),
{
    let words = text::words_of(cmdline);
    let ghost all = text::views(words@);
    assert(all.skip(0) =~= all);
    for i in 0..words.len()
        invariant
            all == text::views(words@),
            all == text::words(cmdline@),
            flag_in(all, flag@) == flag_in(all.skip(i as int), flag@),
    {
        assert(all.skip(i as int)[0] == words@[i as int]@);
        assert(all.skip(i as int).skip(1) =~= all.skip(i + 1));
        match text::strip_prefix(text::trim_char(words[i], '"'), flag) {
            Some(v) => {
                return Some(text::trim_char(v, '"').to_owned());
            },
            None => {},
        }
    }
    None
}

/// Whether a command line is that of a browser without a window that is driven
/// from outside, and not of one of its helpers.
pub open spec fn is_driven_headless(cmdline: Seq<char>) -> bool {
    text::has_text(cmdline, "--headless"@) && text::has_text(cmdline, "--remote-debugging-port="@)
        && text::has_text(cmdline, "--user-data-dir="@) && !text::has_text(cmdline, "--type="@)
}

pub fn is_headless_root_chrome_process(cmdline: &str) -> (r: bool)
    ensures
        r == is_driven_headless(cmdline@),
{
    text::contains(cmdline, "--headless") && text::contains(cmdline, "--remote-debugging-port=")
        && text::contains(cmdline, "--user-data-dir=") && !text::contains(cmdline, "--type=")
}

/// Whether some profile of the list is `p`, in any letter case.
pub open spec fn lists_folded(list: Seq<String>, p: Seq<char>) -> bool {
    exists|i: int| 0 <= i < list.len() && folded((#[trigger] list[i])@) == folded(p)
}

/// Whether a browser process was left behind: it is driven without a window,
/// its profile is not the user's own, and no open session claims it.
pub fn is_left_behind(cmdline: &str, own_profile: Option<&str>, claimed: &Vec<String>) -> (r: bool)
    ensures
        r == (is_driven_headless(cmdline@) && match flag_in(
            text::words(cmdline@),
            "--user-data-dir="@,
        ) {
            Some(p) => text::opt_view(own_profile) != Some(folded(p)) && !lists_folded(claimed@, p),
            None => false,
        }),
{
    if !is_headless_root_chrome_process(cmdline) {
        return false;
    }
    match cmdline_flag_value(cmdline, "--user-data-dir=") {
        Some(p) => {
            let f = fold(p.as_str());
            match own_profile {
                Some(own) => if text::str_eq(own, f.as_str()) {
                    return false;
                },
                None => {},
            }
            for i in 0..claimed.len()
                invariant
                    f@ == folded(p@),
                    flag_in(text::words(cmdline@), "--user-data-dir="@) == Some(p@),
                    is_driven_headless(cmdline@),
                    forall|j: int| 0 <= j < i ==> folded((#[trigger] claimed@[j])@) != folded(p@),
            {
                if text::str_eq(fold(claimed[i].as_str()).as_str(), f.as_str()) {
                    assert(folded(claimed@[i as int]@) == folded(p@));
                    return false;
                }
            }
            true
        },
        None => false,
    }
}

/// After how long the status of a daemon is stale, in milliseconds.
pub const DAEMON_STATUS_STALE_MS: u64 = 20_000;

/// Whether this process is the daemon, given what the status reads as: no other
/// process has noted itself recently.
pub open spec fn is_daemon(status: Option<JsonTree>, now_ms: u64, pid: u32) -> bool {
    match status {
        Some(t) => match (json::field_u64(t, "ts"@), json::field_u64(t, "pid"@)) {
            (Some(ts), Some(recorded)) => now_ms - ts >= DAEMON_STATUS_STALE_MS || recorded == pid,
            _ => true,
        },
        None => true,
    }
}

/// Whether this process is the daemon, from what the status holds.
pub fn is_registered_daemon(status: &Option<Json>, now_ms: u64, pid: u32) -> (r: bool)
    ensures
        r == is_daemon(imports::opt_tree(*status), now_ms, pid),
{
    match status {
        Some(v) => {
            let ts: u64 = match v.u64_field("ts") {
                Some(ts) => ts,
                None => {
                    return true;
                },
            };
            if now_ms.saturating_sub(ts) >= DAEMON_STATUS_STALE_MS {
                return true;
            }
            match v.u64_field("pid") {
                Some(recorded) => recorded == pid as u64,
                None => true,
            }
        },
        None => true,
    }
}

/// Whether this process is the daemon.
pub fn this_process_is_the_registered_daemon(status: Option<&str>, now_ms: u64, pid: u32) -> (r: bool)
    ensures
        r == is_daemon(exec_js::read_of(text::opt_view(status)), now_ms, pid),
{
    let v = match status {
        Some(s) => match json::parse(s) {
            Ok(j) => Some(j),
            Err(_) => None,
        },
        None => None,
    };
    is_registered_daemon(&v, now_ms, pid)
}

// ---------------------------------------------------------------------------
// Launching
// ---------------------------------------------------------------------------
/// Whether the sandbox of the browser is off at the first try: it is switched
/// off, the platform has none, or the user is root and did not ask for it.
pub open spec fn starts_unsandboxed(set: Option<Seq<char>>, windows: bool, root: bool) -> bool {
    set == Some("1"@) || windows || (root && set != Some("0"@))
}

pub fn sandbox_off_at_first(set: Option<&str>, windows: bool, root: bool) -> (r: bool)
    ensures
        r == starts_unsandboxed(text::opt_view(set), windows, root),
{
    match set {
        Some(v) => text::str_eq(v, "1") || windows || (root && !text::str_eq(v, "0")),
        None => windows || root,
    }
}

/// Whether the log of a browser shows that its sandbox could not start.
pub open spec fn denies_sandbox(log: Seq<char>) -> bool {
    text::has_text(log, "Failed to move to new namespace"@) || text::has_text(
        log,
        "Sandbox cannot access executable"@,
    ) || text::has_text(
        log,
        "SUID sandbox helper binary was found, but is not configured correctly"@,
    ) || text::has_text(log, "running as root without --no-sandbox is not supported"@)
        || text::has_text(log, "No usable sandbox!"@) || text::has_text(log, "--no-sandbox"@)
}

pub fn chrome_stderr_log_indicates_suid_sandbox_init_denial(log: &str) -> (r: bool)
    ensures
        r == denies_sandbox(log@),
{
    text::contains(log, "Failed to move to new namespace") || text::contains(
        log,
        "Sandbox cannot access executable",
    ) || text::contains(
        log,
        "SUID sandbox helper binary was found, but is not configured correctly",
    ) || text::contains(log, "running as root without --no-sandbox is not supported")
        || text::contains(log, "No usable sandbox!") || text::contains(log, "--no-sandbox")
}

/// Whether a browser that did not become ready is tried again without its
/// sandbox.
pub fn retries_unsandboxed(no_sandbox: bool, set: Option<&str>, log: Option<&str>) -> (r: bool)
    ensures
        r == (!no_sandbox && text::opt_view(set) != Some("0"@) && match text::opt_view(log) {
            Some(l) => denies_sandbox(l),
            None => false,
        }),
{
    let wants_sandbox = match set {
        Some(v) => text::str_eq(v, "0"),
        None => false,
    };
    !no_sandbox && !wants_sandbox && match log {
        Some(l) => chrome_stderr_log_indicates_suid_sandbox_init_denial(l),
        None => false,
    }
}

/// The arguments with which the browser is launched.
pub open spec fn launch_args(profile: Seq<char>, port: nat, headless: bool, no_sandbox: bool) -> Seq<
    Seq<char>,
> {
    let base = seq![
        "--user-data-dir="@ + profile,
        "--remote-debugging-port="@ + text::decimal(port),
        "--remote-debugging-address=127.0.0.1"@,
        "--no-first-run"@,
        "--no-default-browser-check"@,
        "--disable-default-apps"@,
        "--disable-gpu-process-crash-limit"@,
    ];
    let windowless = if headless {
        base + seq!["--disable-gpu"@, "--headless=new"@]
    } else {
        base
    };
    if no_sandbox {
        windowless + seq![
            "--no-sandbox"@,
            "--disable-setuid-sandbox"@,
            "--disable-dev-shm-usage"@,
        ]
    } else {
        windowless
    }
}

pub fn chrome_args(profile: &str, port: u16, headless: bool, no_sandbox: bool) -> (r: Vec<String>)
    ensures
        text::string_views(r@) == launch_args(profile@, port as nat, headless, no_sandbox),
{
    let mut out: Vec<String> = Vec::new();
    out.push(text::add2("--user-data-dir=", profile));
    out.push(text::add2("--remote-debugging-port=", text::u64_text(port as u64).as_str()));
    out.push("--remote-debugging-address=127.0.0.1".to_owned());
    out.push("--no-first-run".to_owned());
    out.push("--no-default-browser-check".to_owned());
    out.push("--disable-default-apps".to_owned());
    out.push("--disable-gpu-process-crash-limit".to_owned());
    if headless {
        out.push("--disable-gpu".to_owned());
        out.push("--headless=new".to_owned());
    }
    if no_sandbox {
        out.push("--no-sandbox".to_owned());
        out.push("--disable-setuid-sandbox".to_owned());
        out.push("--disable-dev-shm-usage".to_owned());
    }
    assert(text::string_views(out@) =~= launch_args(profile@, port as nat, headless, no_sandbox));
    out
}

/// The error of a browser that was launched and did not become ready.
pub open spec fn not_ready(log: Option<Seq<char>>, waited_ms: nat) -> Seq<char> {
    let head = "chrome CDP endpoint did not become ready within "@ + text::decimal(waited_ms);
    match log {
        Some(l) => if browser_engine::log_tail(l, 5).len() > 0 {
            head + "ms (recent chrome output: "@ + browser_engine::log_tail(l, 5) + ")"@
        } else {
            head + "ms (chrome produced no output at all -- it may have failed to spawn)"@
        },
        None => head + "ms (chrome produced no output at all -- it may have failed to spawn)"@,
    }
}

pub fn chrome_not_ready(log: Option<&str>, waited_ms: u64) -> (r: String)
    ensures
        r@ == not_ready(text::opt_view(log), waited_ms as nat),
{
    let head = text::add2(
        "chrome CDP endpoint did not become ready within ",
        text::u64_text(waited_ms).as_str(),
    );
    match log {
        Some(l) => {
            let tail = browser_engine::tail_of_log(l, 5);
            if !tail.as_str().is_empty() {
                return text::add4(head.as_str(), "ms (recent chrome output: ", tail.as_str(), ")");
            }
        },
        None => {},
    }
    text::add2(
        head.as_str(),
        "ms (chrome produced no output at all -- it may have failed to spawn)",
    )
}

/// Whether the endpoint of a browser answers: what it serves names a socket.
pub fn endpoint_answers(body: Option<&str>) -> (r: bool)
    ensures
        r == (match text::opt_view(body) {
            Some(b) => text::has_text(b, "webSocketDebuggerUrl"@),
            None => false,
        }),
{
    match body {
        Some(b) => text::contains(b, "webSocketDebuggerUrl"),
        None => false,
    }
}

/// Where the endpoint of a browser tells of itself.
pub fn endpoint_url(port: u16) -> (r: String)
    ensures
        r@ == "http://127.0.0.1:"@ + text::decimal(port as nat) + "/json/version"@,
{
    text::add3("http://127.0.0.1:", text::u64_text(port as u64).as_str(), "/json/version")
}

// ---------------------------------------------------------------------------
// Running a script
// ---------------------------------------------------------------------------
/// The files of one run.
pub struct RunFiles {
    pub helper: String,
    pub script: String,
    pub result: String,
}

/// The files of one run, with the stamp that marks them.
pub fn run_files(tmp: &str, stamp: &str) -> (r: RunFiles)
    ensures
        r.helper@ == path::joined_path(tmp@, "agentplug-cdp-eval-"@ + stamp@ + ".mjs"@),
        r.script@ == path::joined_path(tmp@, "agentplug-cdp-script-"@ + stamp@ + ".js"@),
        r.result@ == path::joined_path(tmp@, "agentplug-cdp-result-"@ + stamp@ + ".json"@),
{
    RunFiles {
        helper: path::join(tmp, text::add3("agentplug-cdp-eval-", stamp, ".mjs").as_str()),
        script: path::join(tmp, text::add3("agentplug-cdp-script-", stamp, ".js").as_str()),
        result: path::join(tmp, text::add3("agentplug-cdp-result-", stamp, ".json").as_str()),
    }
}

/// The stamp of a run in a session.
pub fn run_stamp(pid: u32, session_id: &str) -> (r: String)
    ensures
        r@ == text::decimal(pid as nat) + "-"@ + sessions::sanitized(session_id@),
{
    text::add3(
        text::u64_text(pid as u64).as_str(),
        "-",
        sessions::sanitize(session_id).as_str(),
    )
}

/// The stamp of a run that looks whether a session lives.
pub fn recheck_stamp(pid: u32, now_ms: u64) -> (r: String)
    ensures
        r@ == text::decimal(pid as nat) + "-livecheck-"@ + text::decimal(now_ms as nat),
{
    text::add3(
        text::u64_text(pid as u64).as_str(),
        "-livecheck-",
        text::u64_text(now_ms).as_str(),
    )
}

/// Where a run leaves what it took down: a picture under the project's
/// witnesses, a profile or a trace under its profiles, nothing else.
pub open spec fn artifact_of(
    cwd: Seq<char>,
    mode: BrowserMode,
    name: Seq<char>,
    now_ms: nat,
) -> Option<Seq<char>> {
    let stamped = prefixes::mode_name(mode) + "-"@ + text::decimal(now_ms);
    match mode {
        BrowserMode::Default => None,
        BrowserMode::Dom => None,
        BrowserMode::Screenshot => Some(
            path::joined_path(
                path::joined2(cwd, ".gm"@, "witness"@),
                (if text::is_blank(name) {
                    stamped
                } else {
                    sessions::sanitized(text::trimmed(name))
                }) + ".png"@,
            ),
        ),
        BrowserMode::Trace => Some(
            path::joined_path(
                path::joined2(cwd, ".gm"@, "browser-profiles"@),
                stamped + ".trace.json"@,
            ),
        ),
        _ => Some(
            path::joined_path(
                path::joined2(cwd, ".gm"@, "browser-profiles"@),
                stamped + ".profile.json"@,
            ),
        ),
    }
}

pub fn artifact_path(cwd: &str, mode: BrowserMode, name: &str, now_ms: u64) -> (r: Option<String>)
    ensures
        text::opt_string_view(r) == artifact_of(cwd@, mode, name@, now_ms as nat),
{
    let stamped = text::add3(prefixes::mode_label(mode), "-", text::u64_text(now_ms).as_str());
    match mode {
        BrowserMode::Default => None,
        BrowserMode::Dom => None,
        BrowserMode::Screenshot => {
            let stem = if text::blank(name) {
                stamped
            } else {
                sessions::sanitize(text::trim(name))
            };
            Some(
                path::join(
                    path::join2(cwd, ".gm", "witness").as_str(),
                    text::add2(stem.as_str(), ".png").as_str(),
                ),
            )
        },
        BrowserMode::Trace => Some(
            path::join(
                path::join2(cwd, ".gm", "browser-profiles").as_str(),
                text::add2(stamped.as_str(), ".trace.json").as_str(),
            ),
        ),
        _ => Some(
            path::join(
                path::join2(cwd, ".gm", "browser-profiles").as_str(),
                text::add2(stamped.as_str(), ".profile.json").as_str(),
            ),
        ),
    }
}

/// A viewport as the helper gets it, with the scale as a JSON number.
pub open spec fn viewport_tree(v: Option<ViewportView>, scale: JsonTree) -> JsonTree {
    match v {
        Some(v) => json::obj4(
            "width"@,
            json::uint_tree(v.width),
            "height"@,
            json::uint_tree(v.height),
            "deviceScaleFactor"@,
            scale,
            "mobile"@,
            JsonTree::Bool(v.mobile),
        ),
        None => JsonTree::Null,
    }
}

/// What the helper that runs a script is told.
pub open spec fn helper_tree(
    s: ScriptView,
    port: nat,
    target: Option<Seq<char>>,
    script_file: Seq<char>,
    result_file: Seq<char>,
    artifact: Option<Seq<char>>,
    scale: JsonTree,
) -> JsonTree {
    let t = json::obj5(
        "port"@,
        json::uint_tree(port),
        "startUrl"@,
        json::opt_str_tree(s.start_url),
        "targetId"@,
        json::opt_str_tree(target),
        "scriptFile"@,
        JsonTree::Str(script_file),
        "resultFile"@,
        JsonTree::Str(result_file),
    );
    let t = json::with_field(t, "timeoutMs"@, json::uint_tree(s.timeout_ms));
    let t = json::with_field(t, "mode"@, JsonTree::Str(prefixes::mode_name(s.mode)));
    let t = json::with_field(t, "artifactFile"@, json::opt_str_tree(artifact));
    let t = json::with_field(t, "domSelector"@, JsonTree::Str(s.mode_name));
    json::with_field(t, "viewport"@, viewport_tree(s.viewport, scale))
}

fn opt_ref(o: &Option<String>) -> (r: Option<&str>)
    ensures
        text::opt_view(r) == text::opt_string_view(*o),
{
    match o {
        Some(s) => Some(s.as_str()),
        None => None,
    }
}

/// What the helper that runs a script is told.
pub fn helper_config(
    plan: &ScriptPlan,
    port: u16,
    target: &Option<String>,
    files: &RunFiles,
    artifact: &Option<String>,
    scale: Json,
) -> (r: Json)
    ensures
        json::tree(r) == helper_tree(
            plan@,
            port as nat,
            text::opt_string_view(*target),
            files.script@,
            files.result@,
            text::opt_string_view(*artifact),
            json::tree(scale),
        ),
{
    let viewport = match &plan.viewport {
        Some(v) => json::object4(
            "width",
            json::uint(v.width as u64),
            "height",
            json::uint(v.height as u64),
            "deviceScaleFactor",
            scale,
            "mobile",
            json::boolean(v.mobile),
        ),
        None => Json::Null,
    };
    json::object5(
        "port",
        json::uint(port as u64),
        "startUrl",
        json::opt_str(opt_ref(&plan.start_url)),
        "targetId",
        json::opt_str(opt_ref(target)),
        "scriptFile",
        json::str(files.script.as_str()),
        "resultFile",
        json::str(files.result.as_str()),
    ).with("timeoutMs", json::uint(plan.timeout_ms)).with(
        "mode",
        json::str(prefixes::mode_label(plan.mode)),
    ).with("artifactFile", json::opt_str(opt_ref(artifact))).with(
        "domSelector",
        json::str(plan.mode_name.as_str()),
    ).with("viewport", viewport)
}

/// How long a look whether a session lives may take, in milliseconds.
pub const RECHECK_TIMEOUT_MS: u64 = 15_000;

/// What the helper is told when it looks whether a session lives.
pub fn recheck_config(port: u16, files: &RunFiles) -> (r: Json)
    ensures
        json::tree(r) == json::with_field(
            json::with_field(
                json::obj5(
                    "port"@,
                    json::uint_tree(port as nat),
                    "startUrl"@,
                    JsonTree::Null,
                    "scriptFile"@,
                    JsonTree::Str(files.script@),
                    "resultFile"@,
                    JsonTree::Str(files.result@),
                    "timeoutMs"@,
                    json::uint_tree(RECHECK_TIMEOUT_MS as nat),
                ),
                "mode"@,
                JsonTree::Str("default"@),
            ),
            "artifactFile"@,
            JsonTree::Null,
        ),
{
    json::object5(
        "port",
        json::uint(port as u64),
        "startUrl",
        Json::Null,
        "scriptFile",
        json::str(files.script.as_str()),
        "resultFile",
        json::str(files.result.as_str()),
        "timeoutMs",
        json::uint(RECHECK_TIMEOUT_MS),
    ).with("mode", json::str("default")).with("artifactFile", Json::Null)
}

/// Whether a session lives, from the result of the script that adds one and
/// one.
pub fn recheck_passed(result: &Json) -> (r: bool)
    ensures
        r == (json::tree(*result) == JsonTree::Number("2"@)),
{
    match result {
        Json::Number(n) => text::str_eq(n.as_str(), "2"),
        _ => false,
    }
}

/// What is told of a page that nothing was watched on.
pub open spec fn empty_debug() -> JsonTree {
    let none = JsonTree::Array(Seq::empty());
    json::obj5(
        "console"@,
        none,
        "pageErrors"@,
        none,
        "network"@,
        none,
        "performance"@,
        JsonTree::Null,
        "gl"@,
        json::obj3(
            "errors"@,
            none,
            "drawCalls"@,
            json::no_fields(),
            "errorTotalCount"@,
            json::uint_tree(0),
        ),
    )
}

/// A trace that took nothing down.
pub open spec fn empty_trace() -> JsonTree {
    json::obj5(
        "wall_us"@,
        json::uint_tree(0),
        "gpu_us"@,
        json::uint_tree(0),
        "viz_us"@,
        json::uint_tree(0),
        "cc_us"@,
        json::uint_tree(0),
        "by_category"@,
        json::no_fields(),
    )
}

fn no_list() -> (r: Json)
    ensures
        json::tree(r) == JsonTree::Array(Seq::empty()),
{
    let none: Vec<Json> = Vec::new();
    assert(json::trees(none@) =~= Seq::<JsonTree>::empty());
    Json::Array(none)
}

fn no_debug() -> (r: Json)
    ensures
        json::tree(r) == empty_debug(),
{
    let gl = json::object3(
        "errors",
        no_list(),
        "drawCalls",
        json::object(),
        "errorTotalCount",
        json::uint(0),
    );
    json::object5(
        "console",
        no_list(),
        "pageErrors",
        no_list(),
        "network",
        no_list(),
        "performance",
        Json::Null,
        "gl",
        gl,
    )
}

fn no_trace() -> (r: Json)
    ensures
        json::tree(r) == empty_trace(),
{
    json::object5(
        "wall_us",
        json::uint(0),
        "gpu_us",
        json::uint(0),
        "viz_us",
        json::uint(0),
        "cc_us",
        json::uint(0),
        "by_category",
        json::object(),
    )
}

/// A field of the result, or the default.
pub open spec fn result_or(result: JsonTree, k: Seq<char>, default: JsonTree) -> JsonTree {
    exec_js::field_or(Some(result), k, default)
}

/// How a run ended.
pub struct RunEnd {
    pub exit_code: i32,
    pub timed_out: bool,
    pub duration_ms: u64,
}

/// Whether the helper named an error of its own.
pub open spec fn helper_failed(result: JsonTree) -> bool {
    json::field_str(result, "__cdpError"@) is Some
}

/// Whether a run went well.
pub open spec fn run_ok(end: RunEnd, result: JsonTree) -> bool {
    end.exit_code == 0 && !end.timed_out && !helper_failed(result)
}

/// Whether the result shows that a page was reached.
pub open spec fn reached_page(mode: BrowserMode, result: JsonTree) -> bool {
    mode == BrowserMode::Dom || json::field(result, "result"@) is Some || json::field(
        result,
        "elements"@,
    ) is Some
}

/// What every answer of a run tells.
pub open spec fn run_base(ok: bool, stderr: Seq<char>, end: RunEnd) -> JsonTree {
    json::obj5(
        "ok"@,
        JsonTree::Bool(ok),
        "stderr"@,
        JsonTree::Str(stderr),
        "exit_code"@,
        json::int_tree(end.exit_code as int),
        "timed_out"@,
        JsonTree::Bool(end.timed_out),
        "duration_ms"@,
        json::uint_tree(end.duration_ms as nat),
    )
}

/// An answer with the path of what was taken down, if there is one.
pub open spec fn with_file(t: JsonTree, k: Seq<char>, file: Option<Seq<char>>) -> JsonTree {
    match file {
        Some(f) => json::with_field(t, k, JsonTree::Str(f)),
        None => t,
    }
}

/// What each mode adds to the answer.
pub open spec fn mode_fields(
    base: JsonTree,
    mode: BrowserMode,
    selector: Seq<char>,
    result: JsonTree,
    artifact: Option<Seq<char>>,
) -> JsonTree {
    let value = result_or(result, "result"@, JsonTree::Null);
    let debug = result_or(result, "debug"@, empty_debug());
    match mode {
        BrowserMode::Default => json::with_field(
            json::with_field(base, "result"@, value),
            "debug"@,
            debug,
        ),
        BrowserMode::Capture => json::with_field(
            json::with_field(base, "result"@, value),
            "debug"@,
            debug,
        ),
        BrowserMode::Profile => {
            let t = json::with_field(base, "result"@, value);
            let t = json::with_field(
                t,
                "profile"@,
                result_or(result, "profile"@, exec_js::empty_profile()),
            );
            with_file(json::with_field(t, "debug"@, debug), "profile_file"@, artifact)
        },
        BrowserMode::Trace => {
            let t = json::with_field(base, "result"@, value);
            let t = json::with_field(t, "trace"@, result_or(result, "trace"@, empty_trace()));
            with_file(json::with_field(t, "debug"@, debug), "trace_file"@, artifact)
        },
        BrowserMode::Screenshot => {
            let t = json::with_field(json::with_field(base, "result"@, value), "debug"@, debug);
            match json::field(result, "screenshot_error"@) {
                None => with_file(t, "screenshot_path"@, artifact),
                Some(e) => if e == JsonTree::Null {
                    t
                } else {
                    json::with_field(t, "screenshot_error"@, e)
                },
            }
        },
        BrowserMode::Dom => {
            let t = json::with_field(base, "selector"@, JsonTree::Str(selector));
            let t = json::with_field(
                t,
                "match_count"@,
                result_or(result, "match_count"@, json::uint_tree(0)),
            );
            let t = json::with_field(
                t,
                "elements"@,
                result_or(result, "elements"@, JsonTree::Array(Seq::empty())),
            );
            let t = json::with_field(t, "debug"@, debug);
            if exec_js::names_error(Some(result), "error"@) {
                json::with_field(
                    t,
                    "result"@,
                    json::obj1("error"@, result_or(result, "error"@, JsonTree::Null)),
                )
            } else {
                t
            }
        },
    }
}

/// What is told of a run that went well and reached no page.
pub open spec fn false_success(mode: BrowserMode) -> Seq<char> {
    "browser dispatch returned success with no evidence a page was ever reached (empty result envelope, mode="@
        + prefixes::mode_name(mode)
        + ") -- treating as a false success rather than a silent no-op"@
}

/// What a caller gets of a run.
pub open spec fn run_answer(
    mode: BrowserMode,
    selector: Seq<char>,
    end: RunEnd,
    stderr: Seq<char>,
    result: JsonTree,
    artifact: Option<Seq<char>>,
) -> JsonTree {
    let ok = run_ok(end, result);
    let base = run_base(ok, stderr, end);
    if helper_failed(result) {
        json::with_field(
            json::with_field(base, "result"@, JsonTree::Null),
            "debug"@,
            result_or(result, "debug"@, empty_debug()),
        )
    } else {
        let t = mode_fields(base, mode, selector, result, artifact);
        if ok && !reached_page(mode, result) {
            json::with_field(
                json::with_field(t, "ok"@, JsonTree::Bool(false)),
                "stderr"@,
                JsonTree::Str(false_success(mode)),
            )
        } else {
            t
        }
    }
}

fn result_field(result: &Json, k: &str, default: Json) -> (r: Json)
    ensures
        json::tree(r) == result_or(json::tree(*result), k@, json::tree(default)),
{
    match result.get(k) {
        Some(f) => f.copy(),
        None => default,
    }
}

fn add_file(t: Json, k: &str, file: &Option<String>) -> (r: Json)
    ensures
        json::tree(r) == with_file(json::tree(t), k@, text::opt_string_view(*file)),
{
    match file {
        Some(f) => t.with(k, json::str(f.as_str())),
        None => t,
    }
}

fn add_mode_fields(
    base: Json,
    mode: BrowserMode,
    selector: &str,
    result: &Json,
    artifact: &Option<String>,
) -> (r: Json)
    ensures
        json::tree(r) == mode_fields(
            json::tree(base),
            mode,
            selector@,
            json::tree(*result),
            text::opt_string_view(*artifact),
        ),
{
    let value = result_field(result, "result", Json::Null);
    let debug = result_field(result, "debug", no_debug());
    match mode {
        BrowserMode::Default => base.with("result", value).with("debug", debug),
        BrowserMode::Capture => base.with("result", value).with("debug", debug),
        BrowserMode::Profile => {
            let profile = result_field(result, "profile", exec_js::no_profile());
            add_file(
                base.with("result", value).with("profile", profile).with("debug", debug),
                "profile_file",
                artifact,
            )
        },
        BrowserMode::Trace => {
            let trace = result_field(result, "trace", no_trace());
            add_file(
                base.with("result", value).with("trace", trace).with("debug", debug),
                "trace_file",
                artifact,
            )
        },
        BrowserMode::Screenshot => {
            let t = base.with("result", value).with("debug", debug);
            match result.get("screenshot_error") {
                None => add_file(t, "screenshot_path", artifact),
                Some(e) => if e.is_null() {
                    t
                } else {
                    t.with("screenshot_error", e.copy())
                },
            }
        },
        BrowserMode::Dom => {
            let t = base.with("selector", json::str(selector)).with(
                "match_count",
                result_field(result, "match_count", json::uint(0)),
            ).with("elements", result_field(result, "elements", no_list())).with("debug", debug);
            match result.get("error") {
                Some(e) => if e.is_null() {
                    t
                } else {
                    t.with("result", json::object1("error", e.copy()))
                },
                None => t,
            }
        },
    }
}

/// Turns the outcome of a run into what the caller gets.
pub fn run_reply(
    mode: BrowserMode,
    selector: &str,
    end: RunEnd,
    stderr: &str,
    result: &Json,
    artifact: &Option<String>,
) -> (r: Json)
    ensures
        json::tree(r) == run_answer(
            mode,
            selector@,
            end,
            stderr@,
            json::tree(*result),
            text::opt_string_view(*artifact),
        ),
{
    let failed = result.str_field("__cdpError").is_some();
    let ok = end.exit_code == 0 && !end.timed_out && !failed;
    let base = json::object5(
        "ok",
        json::boolean(ok),
        "stderr",
        json::str(stderr),
        "exit_code",
        json::signed(end.exit_code as i64),
        "timed_out",
        json::boolean(end.timed_out),
        "duration_ms",
        json::uint(end.duration_ms),
    );
    if failed {
        return base.with("result", Json::Null).with(
            "debug",
            result_field(result, "debug", no_debug()),
        );
    }
    let reached = mode == BrowserMode::Dom || result.get("result").is_some() || result.get(
        "elements",
    ).is_some();
    let t = add_mode_fields(base, mode, selector, result, artifact);
    if ok && !reached {
        let error = text::add3(
            "browser dispatch returned success with no evidence a page was ever reached (empty result envelope, mode=",
            prefixes::mode_label(mode),
            ") -- treating as a false success rather than a silent no-op",
        );
        t.with("ok", json::boolean(false)).with("stderr", json::str(error.as_str()))
    } else {
        t
    }
}

/// The result of a run, given what its file reads as; nothing where there is
/// none.
pub fn run_result(file: Option<&str>) -> (r: Json)
    ensures
        json::tree(r) == (match exec_js::read_of(text::opt_view(file)) {
            Some(t) => t,
            None => JsonTree::Null,
        }),
{
    match file {
        Some(s) => match json::parse(s) {
            Ok(j) => j,
            Err(_) => Json::Null,
        },
        None => Json::Null,
    }
}

/// A run is told to have gone well only where it did and a page was reached.
pub proof fn law_no_false_success(
    mode: BrowserMode,
    selector: Seq<char>,
    end: RunEnd,
    stderr: Seq<char>,
    result: JsonTree,
    artifact: Option<Seq<char>>,
)
    requires
        json::field_bool(
            run_answer(mode, selector, end, stderr, result, artifact),
            "ok"@,
        ) == Some(true),
    ensures
        end.exit_code == 0,
        !end.timed_out,
        !helper_failed(result),
        reached_page(mode, result),
{
    reveal_strlit("ok");
    reveal_strlit("stderr");
    reveal_strlit("exit_code");
    reveal_strlit("timed_out");
    reveal_strlit("duration_ms");
    reveal_strlit("result");
    reveal_strlit("debug");
    reveal_strlit("profile");
    reveal_strlit("profile_file");
    reveal_strlit("trace");
    reveal_strlit("trace_file");
    reveal_strlit("screenshot_path");
    reveal_strlit("screenshot_error");
    reveal_strlit("selector");
    reveal_strlit("match_count");
    reveal_strlit("elements");
    assert("ok"@.len() == 2);
}

/// A body that begins with a letter other than `s` is no command and names no
/// session.
proof fn lemma_no_command(body: Seq<char>)
    requires
        body.len() > 0,
        !text::is_space(body[0]),
        body[0] != 's',
    ensures
        command_of(body) == CommandView::Absent,
        prefixes::session_id_line(body) == (None::<Seq<char>>, body),
{
    reveal_strlit("session new");
    reveal_strlit("session list");
    reveal_strlit("session close ");
    reveal_strlit("session reset ");
    reveal_strlit("sessionId=");
    reveal_strlit("\n");
    let t = text::trimmed(body);
    lemma_trim_keeps_front(body);
    assert forall|key: Seq<char>| key.len() > 0 && key[0] == 's' implies !#[trigger] key.is_prefix_of(
        t,
    ) by {
        if key.is_prefix_of(t) {
            assert(key[0] == t[0]);
        }
    }
    assert(("session new"@ + "\n"@)[0] == 's');
    assert(("session list"@ + "\n"@)[0] == 's');
    assert(!("sessionId="@.is_prefix_of(body))) by {
        if "sessionId="@.is_prefix_of(body) {
            assert("sessionId="@[0] == body[0]);
        }
    }
}

proof fn lemma_trim_keeps_front(body: Seq<char>)
    requires
        body.len() > 0,
        !text::is_space(body[0]),
    ensures
        text::trimmed(body).len() > 0,
        text::trimmed(body)[0] == body[0],
    decreases body.len(),
{
    lemma_trim_end_keeps_front(body);
}

proof fn lemma_trim_end_keeps_front(body: Seq<char>)
    requires
        body.len() > 0,
        !text::is_space(body[0]),
    ensures
        text::trimmed_end(body).len() > 0,
        text::trimmed_end(body)[0] == body[0],
    decreases body.len(),
{
    if text::is_space(body.last()) {
        assert(body.len() > 1);
        lemma_trim_end_keeps_front(body.drop_last());
    }
}

/// A script behind an address runs on the page of that address: the plan of
/// such a body is to run that script, and the address is where it starts.
/// Nothing else is set by the address.
pub proof fn law_script_starts_at_its_address(
    key: Seq<char>,
    value: Seq<char>,
    script: Seq<char>,
    timeout_ms: nat,
)
    requires
        key == "url="@ || key == "http://"@ || key == "https://"@,
        !text::has_char(value, '\n'),
        value.len() > 0 ==> !text::is_space(value[0]) && !text::is_space(value.last()),
        prefixes::is_plain(script),
        !text::is_blank(script),
    ensures
        ({
            let body = key + value + seq!['\n'] + script;
            &&& prefixes::session_id_line(body) == (None::<Seq<char>>, body)
            &&& action_of(body, timeout_ms) == ActionView::Run(
                ScriptView {
                    timeout_ms,
                    mode: BrowserMode::Default,
                    mode_name: Seq::empty(),
                    viewport: None,
                    start_url: Some(
                        if key == "url="@ {
                            value
                        } else {
                            key + value
                        },
                    ),
                    script,
                },
            )
        }),
{
    let body = key + value + seq!['\n'] + script;
    reveal_strlit("url=");
    reveal_strlit("http://");
    reveal_strlit("https://");
    assert(body[0] == key[0]);
    lemma_no_command(body);
    let none = prefixes::no_prefixes();
    prefixes::law_address_line_is_found(none, key, value, script);
    let u = if key == "url="@ {
        value
    } else {
        key + value
    };
    let q = prefixes::PrefixView { start_url: Some(u), url_script: Seq::empty(), ..none };
    prefixes::law_plain_script_is_left(q, script);
}

/// A script without lines before it runs as it is, on the page that is open.
pub proof fn law_plain_script_runs_as_it_is(script: Seq<char>, timeout_ms: nat)
    requires
        prefixes::is_plain(script),
        !text::is_blank(script),
        command_of(script) == CommandView::Absent,
    ensures
        action_of(script, timeout_ms) == ActionView::Run(
            ScriptView {
                timeout_ms,
                mode: BrowserMode::Default,
                mode_name: Seq::empty(),
                viewport: None,
                start_url: None,
                script,
            },
        ),
{
    prefixes::law_plain_script_is_left(prefixes::no_prefixes(), script);
}

/// Whatever the lines before a script say is found in the plan of the script:
/// the time that they name goes before the time of the options, and the mode,
/// the size of the page, the address and the script are theirs.
pub proof fn law_plan_says_what_the_lines_say(body: Seq<char>, timeout_ms: nat)
    requires
        command_of(body) == CommandView::Absent,
        action_of(body, timeout_ms) is Run,
    ensures
        ({
            let (p, rest) = prefixes::all_lines(prefixes::no_prefixes(), body);
            let s = action_of(body, timeout_ms)->Run_0;
            &&& p.timeout_ms is Some ==> s.timeout_ms == p.timeout_ms->0
            &&& p.timeout_ms is None ==> s.timeout_ms == timeout_ms
            &&& s.mode == p.mode
            &&& s.mode_name == p.mode_name
            &&& s.viewport == p.viewport
            &&& s.start_url == p.start_url
            &&& !text::is_blank(rest) ==> s.script == rest
            &&& text::is_blank(rest) ==> s.script == p.url_script
        }),
{
}

/// A command about sessions is the action that it names: `session new`,
/// `session list`, and `session close` or `session reset` with a session.
pub proof fn law_session_commands_are_obeyed(id: Seq<char>, timeout_ms: nat)
    requires
        id.len() > 0,
        !text::is_space(id[0]) && !text::is_space(id.last()),
        !text::has_char(id, '\n'),
    ensures
        action_of("session new"@, timeout_ms) == ActionView::New,
        action_of("session list"@, timeout_ms) == ActionView::List,
        action_of("session close "@ + id, timeout_ms) == ActionView::Close(id, true),
        action_of("session reset "@ + id, timeout_ms) == ActionView::Close(id, false),
{
    reveal_strlit("session new");
    reveal_strlit("session list");
    reveal_strlit("session close ");
    reveal_strlit("session reset ");
    reveal_strlit("\n");
    assert("session new"@.len() == 11 && "session new"@[8] == 'n' && "session new"@[0] == 's'
        && "session new"@.last() == 'w');
    assert("session list"@.len() == 12 && "session list"@[8] == 'l' && "session list"@[0] == 's'
        && "session list"@.last() == 't');
    assert(text::trimmed("session new"@) == "session new"@);
    assert(text::trimmed("session list"@) == "session list"@);
    assert(!(("session new"@ + "\n"@).is_prefix_of("session list"@))) by {
        if ("session new"@ + "\n"@).is_prefix_of("session list"@) {
            assert(("session new"@ + "\n"@)[8] == "session list"@[8]);
        }
    }
    lemma_named_command("session close "@, id);
    lemma_named_command("session reset "@, id);
    let r = "session reset "@ + id;
    assert(!("session close "@.is_prefix_of(r))) by {
        if "session close "@.is_prefix_of(r) {
            assert("session close "@[8] == r[8]);
        }
    }
}

proof fn lemma_named_command(key: Seq<char>, id: Seq<char>)
    requires
        key == "session close "@ || key == "session reset "@,
        id.len() > 0,
        !text::is_space(id[0]) && !text::is_space(id.last()),
        !text::has_char(id, '\n'),
    ensures
        text::trimmed(key + id) == key + id,
        !is_command(key + id, "session new"@),
        !is_command(key + id, "session list"@),
        text::after_prefix(key + id, key) == Some(id),
        text::trimmed(first_line(id)) == id,
{
    reveal_strlit("session new");
    reveal_strlit("session list");
    reveal_strlit("session close ");
    reveal_strlit("session reset ");
    reveal_strlit("\n");
    let s = key + id;
    assert(s[0] == key[0] && s[8] == key[8] && s.last() == id.last());
    assert(!(("session new"@ + "\n"@).is_prefix_of(s))) by {
        if ("session new"@ + "\n"@).is_prefix_of(s) {
            assert(("session new"@ + "\n"@)[8] == s[8]);
        }
    }
    assert(!(("session list"@ + "\n"@).is_prefix_of(s))) by {
        if ("session list"@ + "\n"@).is_prefix_of(s) {
            assert(("session list"@ + "\n"@)[8] == s[8]);
        }
    }
    assert("session new"@[8] != s[8] && "session list"@[8] != s[8]);
    assert(key =~= s.subrange(0, key.len() as int));
    assert(s.skip(key.len() as int) =~= id);
    assert(text::lines(id) == seq![id]);
}

/// The names of the fields differ.
proof fn lemma_browser_names()
    ensures
        "ok"@.len() == 2,
        "stdout"@.len() == 6,
        "exit_code"@.len() == 9,
        "stderr"@.len() == 6,
        "session_id"@.len() == 10,
        "closed"@.len() == 6,
        "start_url"@.len() == 9,
        "port"@.len() == 4,
        "alive"@.len() == 5,
        "idle_ms"@.len() == 7,
        "target_id"@.len() == 9,
        "width"@.len() == 5,
        "height"@.len() == 6,
        "deviceScaleFactor"@.len() == 17,
        "mobile"@.len() == 6,
        "startUrl"@.len() == 8,
        "targetId"@.len() == 8,
        "scriptFile"@.len() == 10,
        "resultFile"@.len() == 10,
        "timeoutMs"@.len() == 9,
        "mode"@.len() == 4,
        "artifactFile"@.len() == 12,
        "domSelector"@.len() == 11,
        "viewport"@.len() == 8,
        "timed_out"@.len() == 9,
        "duration_ms"@.len() == 11,
        "result"@.len() == 6,
        "debug"@.len() == 5,
        "profile"@.len() == 7,
        "profile_file"@.len() == 12,
        "trace"@.len() == 5,
        "trace_file"@.len() == 10,
        "screenshot_path"@.len() == 15,
        "screenshot_error"@.len() == 16,
        "selector"@.len() == 8,
        "match_count"@.len() == 11,
        "elements"@.len() == 8,
        "error"@.len() == 5,
        "stdout"@[3] == 'o' && "stderr"@[3] == 'e',
        "stdout"@[0] == 's' && "closed"@[0] == 'c',
        "stdout"@[0] == 's' && "height"@[0] == 'h',
        "stdout"@[0] == 's' && "mobile"@[0] == 'm',
        "stdout"@[0] == 's' && "result"@[0] == 'r',
        "exit_code"@[0] == 'e' && "start_url"@[0] == 's',
        "exit_code"@[0] == 'e' && "target_id"@[0] == 't',
        "exit_code"@[0] == 'e' && "timeoutMs"@[0] == 't',
        "exit_code"@[0] == 'e' && "timed_out"@[0] == 't',
        "stderr"@[0] == 's' && "closed"@[0] == 'c',
        "stderr"@[0] == 's' && "height"@[0] == 'h',
        "stderr"@[0] == 's' && "mobile"@[0] == 'm',
        "stderr"@[0] == 's' && "result"@[0] == 'r',
        "session_id"@[1] == 'e' && "scriptFile"@[1] == 'c',
        "session_id"@[0] == 's' && "resultFile"@[0] == 'r',
        "session_id"@[0] == 's' && "trace_file"@[0] == 't',
        "closed"@[0] == 'c' && "height"@[0] == 'h',
        "closed"@[0] == 'c' && "mobile"@[0] == 'm',
        "closed"@[0] == 'c' && "result"@[0] == 'r',
        "start_url"@[0] == 's' && "target_id"@[0] == 't',
        "start_url"@[0] == 's' && "timeoutMs"@[0] == 't',
        "start_url"@[0] == 's' && "timed_out"@[0] == 't',
        "port"@[0] == 'p' && "mode"@[0] == 'm',
        "alive"@[0] == 'a' && "width"@[0] == 'w',
        "alive"@[0] == 'a' && "debug"@[0] == 'd',
        "alive"@[0] == 'a' && "trace"@[0] == 't',
        "alive"@[0] == 'a' && "error"@[0] == 'e',
        "idle_ms"@[0] == 'i' && "profile"@[0] == 'p',
        "target_id"@[1] == 'a' && "timeoutMs"@[1] == 'i',
        "target_id"@[1] == 'a' && "timed_out"@[1] == 'i',
        "width"@[0] == 'w' && "debug"@[0] == 'd',
        "width"@[0] == 'w' && "trace"@[0] == 't',
        "width"@[0] == 'w' && "error"@[0] == 'e',
        "height"@[0] == 'h' && "mobile"@[0] == 'm',
        "height"@[0] == 'h' && "result"@[0] == 'r',
        "mobile"@[0] == 'm' && "result"@[0] == 'r',
        "startUrl"@[0] == 's' && "targetId"@[0] == 't',
        "startUrl"@[0] == 's' && "viewport"@[0] == 'v',
        "startUrl"@[1] == 't' && "selector"@[1] == 'e',
        "startUrl"@[0] == 's' && "elements"@[0] == 'e',
        "targetId"@[0] == 't' && "viewport"@[0] == 'v',
        "targetId"@[0] == 't' && "selector"@[0] == 's',
        "targetId"@[0] == 't' && "elements"@[0] == 'e',
        "scriptFile"@[0] == 's' && "resultFile"@[0] == 'r',
        "scriptFile"@[0] == 's' && "trace_file"@[0] == 't',
        "resultFile"@[0] == 'r' && "trace_file"@[0] == 't',
        "timeoutMs"@[4] == 'o' && "timed_out"@[4] == 'd',
        "artifactFile"@[0] == 'a' && "profile_file"@[0] == 'p',
        "domSelector"@[1] == 'o' && "duration_ms"@[1] == 'u',
        "domSelector"@[0] == 'd' && "match_count"@[0] == 'm',
        "viewport"@[0] == 'v' && "selector"@[0] == 's',
        "viewport"@[0] == 'v' && "elements"@[0] == 'e',
        "duration_ms"@[0] == 'd' && "match_count"@[0] == 'm',
        "debug"@[0] == 'd' && "trace"@[0] == 't',
        "debug"@[0] == 'd' && "error"@[0] == 'e',
        "trace"@[0] == 't' && "error"@[0] == 'e',
        "selector"@[0] == 's' && "elements"@[0] == 'e',
{
    reveal_strlit("ok");
    reveal_strlit("stdout");
    reveal_strlit("exit_code");
    reveal_strlit("stderr");
    reveal_strlit("session_id");
    reveal_strlit("closed");
    reveal_strlit("start_url");
    reveal_strlit("port");
    reveal_strlit("alive");
    reveal_strlit("idle_ms");
    reveal_strlit("target_id");
    reveal_strlit("width");
    reveal_strlit("height");
    reveal_strlit("deviceScaleFactor");
    reveal_strlit("mobile");
    reveal_strlit("startUrl");
    reveal_strlit("targetId");
    reveal_strlit("scriptFile");
    reveal_strlit("resultFile");
    reveal_strlit("timeoutMs");
    reveal_strlit("mode");
    reveal_strlit("artifactFile");
    reveal_strlit("domSelector");
    reveal_strlit("viewport");
    reveal_strlit("timed_out");
    reveal_strlit("duration_ms");
    reveal_strlit("result");
    reveal_strlit("debug");
    reveal_strlit("profile");
    reveal_strlit("profile_file");
    reveal_strlit("trace");
    reveal_strlit("trace_file");
    reveal_strlit("screenshot_path");
    reveal_strlit("screenshot_error");
    reveal_strlit("selector");
    reveal_strlit("match_count");
    reveal_strlit("elements");
    reveal_strlit("error");
}

/// A close is answered with the session and whether one was closed; it fails
/// only where a session had to be found and was not.
pub proof fn law_close_is_answered(session_id: Seq<char>, closed: bool, require_found: bool)
    ensures
        ({
            let a = close_answer(session_id, closed, require_found);
            &&& json::field(a, "session_id"@) == Some(JsonTree::Str(session_id))
            &&& json::field(a, "closed"@) == Some(JsonTree::Bool(closed))
            &&& json::field(a, "ok"@) == Some(JsonTree::Bool(closed || !require_found))
            &&& closed || !require_found ==> json::field(a, "exit_code"@) == Some(
                JsonTree::Number(text::decimal(0)),
            ) && json::field(a, "stderr"@) == Some(JsonTree::Str(""@))
            &&& !closed && require_found ==> json::field(a, "exit_code"@) == Some(
                JsonTree::Number(text::decimal(1)),
            ) && json::field(a, "stderr"@) == Some(
                JsonTree::Str("no live session found for id '"@ + session_id + "'"@),
            )
            &&& json::field(a, "stdout"@) == Some(JsonTree::Str(""@))
        }),
{
    lemma_browser_names();
}

/// A close or reset without a session is refused, and so is a script that is
/// empty.
pub proof fn law_empty_requests_are_refused(body: Seq<char>, timeout_ms: nat)
    ensures
        command_of(body) == CommandView::Close(Seq::empty()) || command_of(body) == CommandView::Reset(
            Seq::empty(),
        ) ==> action_of(body, timeout_ms) is Answer && json::field(
            action_of(body, timeout_ms)->Answer_0,
            "ok"@,
        ) == Some(JsonTree::Bool(false)),
        command_of(body) == CommandView::Absent && action_of(body, timeout_ms) is Answer ==> {
            let a = action_of(body, timeout_ms)->Answer_0;
            let p = prefixes::all_lines(prefixes::no_prefixes(), body).0;
            &&& json::field(a, "ok"@) == Some(JsonTree::Bool(false))
            &&& json::field(a, "exit_code"@) == Some(JsonTree::Number(text::decimal(1)))
            &&& json::field(a, "start_url"@) == Some(
                match p.start_url {
                    Some(u) => JsonTree::Str(u),
                    None => JsonTree::Null,
                },
            )
            &&& p.mode != BrowserMode::Dom
        },
{
    lemma_browser_names();
}

/// Each open session that is alive is listed with its port, its page and how
/// long it was idle.
pub proof fn law_live_sessions_are_listed(
    sessions: Map<Seq<char>, BrowserSession>,
    keys: Seq<String>,
    alive: Seq<bool>,
    i: int,
    now_ms: u64,
)
    requires
        0 <= i < keys.len(),
        alive[i],
        sessions.dom().contains(keys[i]@),
        now_ms >= sessions[keys[i]@].last_used_ms,
    ensures
        ({
            let s = sessions[keys[i]@];
            let list = listed_sessions(sessions, keys, alive, keys.len() as int, now_ms);
            exists|k: int| #![trigger list[k]]
                0 <= k < list.len() && json::field(list[k], "session_id"@) == Some(
                    JsonTree::Str(s.session_id@),
                ) && json::field(list[k], "port"@) == Some(
                    JsonTree::Number(text::decimal(s.port as nat)),
                ) && json::field(list[k], "alive"@) == Some(JsonTree::Bool(true)) && json::field(
                    list[k],
                    "idle_ms"@,
                ) == Some(JsonTree::Number(text::decimal((now_ms - s.last_used_ms) as nat)))
        }),
{
    lemma_listed(sessions, keys, alive, keys.len() as int, i, now_ms);
    let list = listed_sessions(sessions, keys, alive, keys.len() as int, now_ms);
    let s = sessions[keys[i]@];
    let k = choose|k: int| 0 <= k < list.len() && list[k] == listed_session(s, now_ms);
    lemma_browser_names();
    assert(json::field(list[k], "session_id"@) == Some(JsonTree::Str(s.session_id@)));
}

proof fn lemma_listed(
    sessions: Map<Seq<char>, BrowserSession>,
    keys: Seq<String>,
    alive: Seq<bool>,
    n: int,
    i: int,
    now_ms: u64,
)
    requires
        0 <= i < n <= keys.len(),
        alive[i],
        sessions.dom().contains(keys[i]@),
    ensures
        listed_sessions(sessions, keys, alive, n, now_ms).contains(
            listed_session(sessions[keys[i]@], now_ms),
        ),
    decreases n,
{
    let all = listed_sessions(sessions, keys, alive, n, now_ms);
    let rest = listed_sessions(sessions, keys, alive, n - 1, now_ms);
    let wanted = listed_session(sessions[keys[i]@], now_ms);
    if i < n - 1 {
        lemma_listed(sessions, keys, alive, n - 1, i, now_ms);
        let k = choose|k: int| 0 <= k < rest.len() && rest[k] == wanted;
        assert(all[k] == wanted);
    } else {
        assert(all[rest.len() as int] == wanted);
    }
}

/// No dead session is listed: where all are dead the list is empty.
pub proof fn law_dead_sessions_are_not_listed(
    sessions: Map<Seq<char>, BrowserSession>,
    keys: Seq<String>,
    alive: Seq<bool>,
    n: int,
    now_ms: u64,
)
    requires
        0 <= n <= keys.len(),
        forall|i: int| 0 <= i < n ==> !#[trigger] alive[i],
    ensures
        listed_sessions(sessions, keys, alive, n, now_ms).len() == 0,
    decreases n,
{
    if n > 0 {
        assert(!alive[n - 1]);
        law_dead_sessions_are_not_listed(sessions, keys, alive, n - 1, now_ms);
    }
}

/// The session that is named goes before that of the guest; without either the
/// default one is used.
pub proof fn law_named_session_goes_first(explicit: Seq<char>, guest: Seq<char>)
    ensures
        explicit.len() > 0 ==> session_of(Some(explicit), guest) == explicit,
        guest.len() > 0 ==> session_of(None, guest) == guest,
        session_of(None, Seq::empty()) == "default"@,
        session_of(Some(Seq::empty()), guest) == "default"@,
{
}

/// A run is allowed the time that its options name, and two minutes where they
/// name none.
pub proof fn law_run_is_allowed_its_time(opts: JsonTree, ms: u64)
    ensures
        json::field(opts, "timeoutMs"@) == Some(JsonTree::Number(text::decimal(ms as nat)))
            ==> allowed_time(opts) == ms,
        json::field(opts, "timeoutMs"@) is None ==> allowed_time(opts) == 120_000,
{
    text::law_decimal_reads_back(ms as nat, u64::MAX as nat);
}

/// A browser is adopted under the session that it noted, else under the one
/// looked for, else under the one its profile is named after.
pub proof fn law_browser_is_adopted_by_its_note(noted: Seq<char>, hint: Seq<char>, name: Seq<char>)
    requires
        name.len() > 0,
    ensures
        !text::is_blank(noted) ==> adopted_session(
            Some(noted),
            Some(hint),
            "browser-chrome-profile-"@ + name,
        ) == Some(text::trimmed(noted)),
        text::is_blank(noted) ==> adopted_session(
            Some(noted),
            Some(hint),
            "browser-chrome-profile-"@ + name,
        ) == Some(hint),
        adopted_session(None, Some(hint), "browser-chrome-profile-"@ + name) == Some(hint),
        adopted_session(None, None, "browser-chrome-profile-"@ + name) == Some(name),
        adopted_session(None, None, "browser-chrome-profile-"@) is None,
{
    let key = "browser-chrome-profile-"@;
    let s = key + name;
    assert(s.subrange(0, key.len() as int) =~= key);
    assert(s.skip(key.len() as int) =~= name);
    assert(key.subrange(0, key.len() as int) =~= key);
    assert(key.skip(key.len() as int).len() == 0);
}

/// A line of a process list tells a process and its command where that is a
/// Chrome; the lines of a query part the two with a bar.
pub proof fn law_process_lines_are_read(pid: u32, command: Seq<char>)
    ensures
        text::has_text(command, "chrome"@) || text::has_text(command, "chromium"@) ==> process_line(
            text::decimal(pid as nat).push(' ') + command,
        ) == Some((pid as nat, command)),
        !text::has_text(command, "chrome"@) && !text::has_text(command, "chromium"@) ==> process_line(
            text::decimal(pid as nat).push(' ') + command,
        ) is None,
        queried_line(text::decimal(pid as nat).push('|') + command) == Some((pid as nat, command)),
        !text::has_char(command, '|') ==> queried_line(command) is None,
{
    let d = text::decimal(pid as nat);
    text::lemma_decimal(pid as nat);
    text::law_decimal_reads_back(pid as nat, u32::MAX as nat);
    assert(text::is_digit(d[0]) && text::is_digit(d[d.len() - 1]));
    assert(text::trimmed(d) == d);
    let line = d.push(' ') + command;
    assert(line[0] == d[0]);
    assert(text::trimmed_start(line) == line);
    lemma_word_of_digits(d, command);
    assert(line.take(d.len() as int) =~= d);
    assert(line.skip(d.len() as int + 1) =~= command);
    let q = d.push('|') + command;
    assert forall|j: int| 0 <= j < d.len() implies q[j] != '|' by {
        assert(text::is_digit(d[j]));
    }
    text::lemma_cut_at_is(q, '|', d.len() as int);
    assert(text::before_char(q, '|') =~= d);
    assert(text::after_char(q, '|') =~= command);
}

proof fn lemma_word_of_digits(d: Seq<char>, rest: Seq<char>)
    requires
        text::all_digits(d),
    ensures
        text::word_end(d.push(' ') + rest) == d.len(),
    decreases d.len(),
{
    let s = d.push(' ') + rest;
    if d.len() == 0 {
        assert(s[0] == ' ');
    } else {
        assert(text::is_digit(d[0]));
        assert(s[0] == d[0]);
        assert(s.skip(1) =~= d.skip(1).push(' ') + rest);
        lemma_word_of_digits(d.skip(1), rest);
    }
}

/// Every line that tells a process counts, and every process comes from one.
pub proof fn law_processes_are_those_of_the_lines(lines: Seq<Seq<char>>, n: int, queried: bool, i: int)
    requires
        0 <= i < n <= lines.len(),
    ensures
        ({
            let told = if queried {
                queried_line(lines[i])
            } else {
                process_line(lines[i])
            };
            told is Some ==> processes_in(lines, n, queried).contains(told->0)
        }),
        (forall|j: int|
            0 <= j < n ==> (if queried {
                queried_line(#[trigger] lines[j])
            } else {
                process_line(lines[j])
            }) is None) ==> processes_in(lines, n, queried).len() == 0,
    decreases n,
{
    let all = processes_in(lines, n, queried);
    let rest = processes_in(lines, n - 1, queried);
    let told = if queried {
        queried_line(lines[i])
    } else {
        process_line(lines[i])
    };
    if i < n - 1 {
        law_processes_are_those_of_the_lines(lines, n - 1, queried, i);
        if told is Some {
            let k = choose|k: int| 0 <= k < rest.len() && rest[k] == told->0;
            assert(all[k] == told->0);
        }
    } else {
        if n > 1 {
            law_processes_are_those_of_the_lines(lines, n - 1, queried, 0);
        }
        if told is Some {
            assert(all[rest.len() as int] == told->0);
        }
    }
}

/// A process uses a profile where its command holds the path, whatever the case
/// and the slashes; such processes are found, and no others.
pub proof fn law_processes_of_a_profile(ps: Seq<(u32, String)>, profile: Seq<char>, n: int, i: int)
    requires
        0 <= i < n <= ps.len(),
    ensures
        text::has_text(
            text::lower(text::replaced(ps[i].1@, '\\', '/')),
            text::lower(text::replaced(profile, '\\', '/')),
        ) ==> using_profile(ps, profile, n).contains(ps[i].0),
        (forall|j: int|
            0 <= j < n ==> !text::has_text(
                text::lower(text::replaced((#[trigger] ps[j]).1@, '\\', '/')),
                text::lower(text::replaced(profile, '\\', '/')),
            )) ==> using_profile(ps, profile, n).len() == 0,
    decreases n,
{
    let all = using_profile(ps, profile, n);
    let rest = using_profile(ps, profile, n - 1);
    if i < n - 1 {
        law_processes_of_a_profile(ps, profile, n - 1, i);
        if rest.contains(ps[i].0) {
            let k = choose|k: int| 0 <= k < rest.len() && rest[k] == ps[i].0;
            assert(all[k] == ps[i].0);
        }
    } else {
        if n > 1 {
            law_processes_of_a_profile(ps, profile, n - 1, 0);
        }
        if text::has_text(folded(ps[i].1@), folded(profile)) {
            assert(all[rest.len() as int] == ps[i].0);
        }
    }
}

/// The value of a flag is what stands behind it in the first word that begins
/// with it.
pub proof fn law_flags_have_their_values(words: Seq<Seq<char>>, flag: Seq<char>, value: Seq<char>, i: int)
    requires
        0 <= i < words.len(),
        words[i] == flag + value,
        flag.len() > 0,
        flag[0] != '"',
        value.len() > 0,
        value[0] != '"',
        value.last() != '"',
        forall|j: int|
            0 <= j < i ==> !flag.is_prefix_of(text::without_around(#[trigger] words[j], '"')),
    ensures
        flag_in(words, flag) == Some(value),
    decreases words.len(),
{
    if i == 0 {
        let w = words[0];
        assert(w[0] == flag[0] && w.last() == value.last());
        assert(text::without_around(w, '"') == w);
        assert(w.subrange(0, flag.len() as int) =~= flag);
        assert(w.skip(flag.len() as int) =~= value);
        assert(text::without_around(value, '"') == value);
    } else {
        let rest = words.skip(1);
        assert(rest[i - 1] == words[i]);
        assert forall|j: int| 0 <= j < i - 1 implies !flag.is_prefix_of(
            text::without_around(#[trigger] rest[j], '"'),
        ) by {
            assert(rest[j] == words[j + 1]);
        }
        law_flags_have_their_values(rest, flag, value, i - 1);
        assert(!flag.is_prefix_of(text::without_around(words[0], '"')));
    }
}

/// A driven browser is the main process of a headless one with a port and a
/// profile; its helpers carry a type and are not it.
pub proof fn law_driven_browsers_are_known_by_their_flags(cmdline: Seq<char>)
    ensures
        text::has_text(cmdline, "--type="@) ==> !is_driven_headless(cmdline),
        !text::has_text(cmdline, "--headless"@) ==> !is_driven_headless(cmdline),
        !text::has_text(cmdline, "--remote-debugging-port="@) ==> !is_driven_headless(cmdline),
        !text::has_text(cmdline, "--user-data-dir="@) ==> !is_driven_headless(cmdline),
        text::has_text(cmdline, "--headless"@) && text::has_text(cmdline, "--remote-debugging-port="@)
            && text::has_text(cmdline, "--user-data-dir="@) && !text::has_text(cmdline, "--type="@)
            ==> is_driven_headless(cmdline),
{
}

/// The daemon is the process that its status names, as long as the status was
/// written within twenty seconds; without such a status any process may be it.
pub proof fn law_daemon_is_the_one_of_the_status(status: JsonTree, ts: u64, recorded: u32, now_ms: u64, pid: u32)
    requires
        json::field(status, "ts"@) == Some(JsonTree::Number(text::decimal(ts as nat))),
        json::field(status, "pid"@) == Some(JsonTree::Number(text::decimal(recorded as nat))),
    ensures
        now_ms < ts + 20_000 ==> is_daemon(Some(status), now_ms, pid) == (recorded == pid),
        now_ms >= ts + 20_000 ==> is_daemon(Some(status), now_ms, pid),
        is_daemon(None, now_ms, pid),
{
    text::law_decimal_reads_back(ts as nat, u64::MAX as nat);
    text::law_decimal_reads_back(recorded as nat, u64::MAX as nat);
}

/// A browser starts without its sandbox where that is set, on Windows, and for
/// root unless that is switched off.
pub proof fn law_sandbox_is_left_where_it_cannot_work(windows: bool, root: bool)
    ensures
        starts_unsandboxed(Some("1"@), windows, root),
        starts_unsandboxed(Some("0"@), windows, root) == windows,
        starts_unsandboxed(None, windows, root) == (windows || root),
{
    reveal_strlit("0");
    reveal_strlit("1");
    assert("0"@[0] == '0' && "1"@[0] == '1');
}

/// A log tells that the sandbox failed where it holds one of the phrases of
/// Chrome about it, and only there.
pub proof fn law_failed_sandbox_is_told_in_the_log(log: Seq<char>)
    ensures
        denies_sandbox(log) <==> {
            ||| text::has_text(log, "--no-sandbox"@)
            ||| text::has_text(log, "No usable sandbox!"@)
            ||| text::has_text(log, "Failed to move to new namespace"@)
            ||| text::has_text(log, "Sandbox cannot access executable"@)
            ||| text::has_text(log, "running as root without --no-sandbox is not supported"@)
            ||| text::has_text(
                log,
                "SUID sandbox helper binary was found, but is not configured correctly"@,
            )
        },
{
}

/// A browser is launched on its profile and port, without a window where it is
/// headless and without a sandbox where that is asked for.
pub proof fn law_launch_says_what_is_asked(profile: Seq<char>, port: nat, headless: bool, no_sandbox: bool)
    ensures
        ({
            let args = launch_args(profile, port, headless, no_sandbox);
            &&& args[0] == "--user-data-dir="@ + profile
            &&& args[1] == "--remote-debugging-port="@ + text::decimal(port)
            &&& args[2] == "--remote-debugging-address=127.0.0.1"@
            &&& args.len() == 7 + (if headless {
                2int
            } else {
                0
            }) + (if no_sandbox {
                3int
            } else {
                0
            })
            &&& headless ==> args[7] == "--disable-gpu"@ && args[8] == "--headless=new"@
            &&& no_sandbox ==> args[args.len() - 3] == "--no-sandbox"@ && args[args.len() - 2]
                == "--disable-setuid-sandbox"@ && args[args.len() - 1] == "--disable-dev-shm-usage"@
            &&& args[3] == "--no-first-run"@ && args[4] == "--no-default-browser-check"@ && args[5]
                == "--disable-default-apps"@ && args[6] == "--disable-gpu-process-crash-limit"@
        }),
{
}

/// A browser that did not get ready is told by how long it was waited for, and
/// by its last five lines where it wrote any.
pub proof fn law_unready_chrome_is_told(log: Seq<char>, waited_ms: nat)
    ensures
        not_ready(None, waited_ms) == "chrome CDP endpoint did not become ready within "@ + text::decimal(
            waited_ms,
        ) + "ms (chrome produced no output at all -- it may have failed to spawn)"@,
        ({
            let tail = text::joined(
                browser_engine::last_reversed(text::lines(log), 5),
                " | "@,
            );
            tail.len() > 0 ==> not_ready(Some(log), waited_ms)
                == "chrome CDP endpoint did not become ready within "@ + text::decimal(waited_ms)
                + "ms (recent chrome output: "@ + tail + ")"@
        }),
{
}

/// Where a run leaves its file: pictures under their name or their time in
/// `.gm/witness`, measurements under their mode and time in
/// `.gm/browser-profiles`, and nothing for the other modes.
pub proof fn law_runs_leave_their_files(cwd: Seq<char>, name: Seq<char>, now_ms: nat)
    requires
        cwd.len() > 0,
        cwd.last() != '/',
        text::is_alnum(name[0]),
        name.len() > 0,
    ensures
        artifact_of(cwd, BrowserMode::Default, name, now_ms) is None,
        artifact_of(cwd, BrowserMode::Dom, name, now_ms) is None,
        artifact_of(cwd, BrowserMode::Screenshot, Seq::empty(), now_ms) == Some(
            cwd + "/.gm/witness/screenshot-"@ + text::decimal(now_ms) + ".png"@,
        ),
        artifact_of(cwd, BrowserMode::Screenshot, name, now_ms) == Some(
            cwd + "/.gm/witness/"@ + sessions::sanitized(text::trimmed(name)) + ".png"@,
        ),
        artifact_of(cwd, BrowserMode::Trace, name, now_ms) == Some(
            cwd + "/.gm/browser-profiles/trace-"@ + text::decimal(now_ms) + ".trace.json"@,
        ),
        artifact_of(cwd, BrowserMode::Profile, name, now_ms) == Some(
            cwd + "/.gm/browser-profiles/profile-"@ + text::decimal(now_ms) + ".profile.json"@,
        ),
        artifact_of(cwd, BrowserMode::Capture, name, now_ms) == Some(
            cwd + "/.gm/browser-profiles/capture-"@ + text::decimal(now_ms) + ".profile.json"@,
        ),
{
    reveal_strlit(".gm");
    reveal_strlit("witness");
    reveal_strlit("browser-profiles");
    reveal_strlit("/.gm/witness/");
    reveal_strlit("/.gm/witness/screenshot-");
    reveal_strlit("/.gm/browser-profiles/trace-");
    reveal_strlit("/.gm/browser-profiles/profile-");
    reveal_strlit("/.gm/browser-profiles/capture-");
    reveal_strlit("-");
    reveal_strlit("-_");
    reveal_strlit("screenshot");
    reveal_strlit("trace");
    reveal_strlit("profile");
    reveal_strlit("capture");
    reveal_strlit(".png");
    reveal_strlit(".trace.json");
    reveal_strlit(".profile.json");
    let gm = path::joined_path(cwd, ".gm"@);
    assert(gm.last() == 'm');
    let w = path::joined_path(gm, "witness"@);
    assert(w.last() == 's');
    let b = path::joined_path(gm, "browser-profiles"@);
    assert(b.last() == 's');
    assert(text::is_blank(Seq::empty()));
    lemma_trim_keeps_front(name);
    let t = text::trimmed(name);
    assert(t.len() > 0 && t[0] == name[0]);
    assert(sessions::sanitized(t)[0] == t[0]);
    let d = text::decimal(now_ms);
    assert(artifact_of(cwd, BrowserMode::Screenshot, Seq::empty(), now_ms)->0 =~= cwd
        + "/.gm/witness/screenshot-"@ + d + ".png"@);
    assert(artifact_of(cwd, BrowserMode::Screenshot, name, now_ms)->0 =~= cwd + "/.gm/witness/"@
        + sessions::sanitized(t) + ".png"@);
    assert(artifact_of(cwd, BrowserMode::Trace, name, now_ms)->0 =~= cwd
        + "/.gm/browser-profiles/trace-"@ + d + ".trace.json"@);
    assert(artifact_of(cwd, BrowserMode::Profile, name, now_ms)->0 =~= cwd
        + "/.gm/browser-profiles/profile-"@ + d + ".profile.json"@);
    assert(artifact_of(cwd, BrowserMode::Capture, name, now_ms)->0 =~= cwd
        + "/.gm/browser-profiles/capture-"@ + d + ".profile.json"@);
}

/// The helper is told all that the plan of a run says: where to connect, where
/// to start, what to run and for how long, and where the result goes.
pub proof fn law_helper_is_told_the_plan(
    s: ScriptView,
    port: nat,
    target: Option<Seq<char>>,
    script_file: Seq<char>,
    result_file: Seq<char>,
    artifact: Option<Seq<char>>,
    scale: JsonTree,
)
    ensures
        ({
            let t = helper_tree(s, port, target, script_file, result_file, artifact, scale);
            &&& json::field(t, "port"@) == Some(JsonTree::Number(text::decimal(port)))
            &&& s.start_url is Some ==> json::field(t, "startUrl"@) == Some(
                JsonTree::Str(s.start_url->0),
            )
            &&& s.start_url is None ==> json::field(t, "startUrl"@) == Some(JsonTree::Null)
            &&& target is Some ==> json::field(t, "targetId"@) == Some(JsonTree::Str(target->0))
            &&& target is None ==> json::field(t, "targetId"@) == Some(JsonTree::Null)
            &&& json::field(t, "scriptFile"@) == Some(JsonTree::Str(script_file))
            &&& json::field(t, "resultFile"@) == Some(JsonTree::Str(result_file))
            &&& json::field(t, "timeoutMs"@) == Some(JsonTree::Number(text::decimal(s.timeout_ms)))
            &&& json::field(t, "domSelector"@) == Some(JsonTree::Str(s.mode_name))
            &&& artifact is Some ==> json::field(t, "artifactFile"@) == Some(
                JsonTree::Str(artifact->0),
            )
            &&& s.mode == BrowserMode::Default ==> json::field(t, "mode"@) == Some(
                JsonTree::Str("default"@),
            )
            &&& s.mode == BrowserMode::Capture ==> json::field(t, "mode"@) == Some(
                JsonTree::Str("capture"@),
            )
            &&& s.mode == BrowserMode::Profile ==> json::field(t, "mode"@) == Some(
                JsonTree::Str("profile"@),
            )
            &&& s.mode == BrowserMode::Trace ==> json::field(t, "mode"@) == Some(
                JsonTree::Str("trace"@),
            )
            &&& s.mode == BrowserMode::Screenshot ==> json::field(t, "mode"@) == Some(
                JsonTree::Str("screenshot"@),
            )
            &&& s.mode == BrowserMode::Dom ==> json::field(t, "mode"@) == Some(JsonTree::Str("dom"@))
            &&& s.viewport is None ==> json::field(t, "viewport"@) == Some(JsonTree::Null)
            &&& s.viewport matches Some(v) ==> {
                let told = json::field(t, "viewport"@)->0;
                &&& json::field(t, "viewport"@) is Some
                &&& json::field(told, "width"@) == Some(JsonTree::Number(text::decimal(v.width)))
                &&& json::field(told, "height"@) == Some(JsonTree::Number(text::decimal(v.height)))
                &&& json::field(told, "deviceScaleFactor"@) == Some(scale)
                &&& json::field(told, "mobile"@) == Some(JsonTree::Bool(v.mobile))
            }
        }),
{
    lemma_browser_names();
}

/// A run succeeds where it ended well, in time and without an error of the
/// helper, and reached a page.
pub proof fn law_run_succeeds_where_a_page_was_reached(
    mode: BrowserMode,
    selector: Seq<char>,
    end: RunEnd,
    stderr: Seq<char>,
    result: JsonTree,
    artifact: Option<Seq<char>>,
)
    ensures
        ({
            let a = run_answer(mode, selector, end, stderr, result, artifact);
            let failed = json::field(result, "__cdpError"@) matches Some(e) && e is Str;
            let page = mode == BrowserMode::Dom || json::field(result, "result"@) is Some || json::field(
                result,
                "elements"@,
            ) is Some;
            let well = end.exit_code == 0 && !end.timed_out && !failed;
            &&& json::field(a, "ok"@) == Some(JsonTree::Bool(well && page))
            &&& json::field(a, "exit_code"@) == Some(
                JsonTree::Number(text::signed_decimal(end.exit_code as int)),
            )
            &&& json::field(a, "timed_out"@) == Some(JsonTree::Bool(end.timed_out))
            &&& json::field(a, "duration_ms"@) == Some(
                JsonTree::Number(text::decimal(end.duration_ms as nat)),
            )
            &&& !(well && !page) ==> json::field(a, "stderr"@) == Some(JsonTree::Str(stderr))
        }),
{
    lemma_browser_names();
}

/// What a script returned is told as its result, with what was seen of the
/// page; a failed helper has no result.
pub proof fn law_script_result_is_told(
    mode: BrowserMode,
    selector: Seq<char>,
    end: RunEnd,
    stderr: Seq<char>,
    result: JsonTree,
    artifact: Seq<char>,
)
    ensures
        ({
            let a = run_answer(mode, selector, end, stderr, result, Some(artifact));
            let failed = json::field(result, "__cdpError"@) matches Some(e) && e is Str;
            &&& failed ==> json::field(a, "result"@) == Some(JsonTree::Null)
            &&& !failed && mode != BrowserMode::Dom && json::field(result, "result"@) is Some
                ==> json::field(a, "result"@) == json::field(result, "result"@)
            &&& !failed && mode != BrowserMode::Dom && json::field(result, "result"@) is None
                ==> json::field(a, "result"@) == Some(JsonTree::Null)
            &&& json::field(result, "debug"@) is Some ==> json::field(a, "debug"@) == json::field(
                result,
                "debug"@,
            )
            &&& !failed && mode == BrowserMode::Profile ==> json::field(a, "profile_file"@) == Some(
                JsonTree::Str(artifact),
            ) && (json::field(result, "profile"@) is Some ==> json::field(a, "profile"@) == json::field(
                result,
                "profile"@,
            ))
            &&& !failed && mode == BrowserMode::Trace ==> json::field(a, "trace_file"@) == Some(
                JsonTree::Str(artifact),
            ) && (json::field(result, "trace"@) is Some ==> json::field(a, "trace"@) == json::field(
                result,
                "trace"@,
            ))
            &&& !failed && mode == BrowserMode::Screenshot && json::field(result, "screenshot_error"@)
                is None ==> json::field(a, "screenshot_path"@) == Some(JsonTree::Str(artifact))
            &&& !failed && mode == BrowserMode::Screenshot && json::field(result, "screenshot_error"@)
                is Some && json::field(result, "screenshot_error"@)->0 != JsonTree::Null ==> json::field(
                a,
                "screenshot_error"@,
            ) == json::field(result, "screenshot_error"@) && json::field(a, "screenshot_path"@) is None
            &&& !failed && mode == BrowserMode::Dom ==> json::field(a, "selector"@) == Some(
                JsonTree::Str(selector),
            )
            &&& !failed && mode == BrowserMode::Dom && json::field(result, "elements"@) is Some
                ==> json::field(a, "elements"@) == json::field(result, "elements"@)
            &&& !failed && mode == BrowserMode::Dom && json::field(result, "match_count"@) is Some
                ==> json::field(a, "match_count"@) == json::field(result, "match_count"@)
            &&& !failed && mode == BrowserMode::Dom && json::field(result, "match_count"@) is None
                ==> json::field(a, "match_count"@) == Some(JsonTree::Number(text::decimal(0)))
        }),
{
    lemma_browser_names();
}

/// A profile is left alone for fifteen seconds after its note was written, and
/// a recheck of a page may take as long.
pub proof fn law_grace_of_browsers()
    ensures
        ORPHAN_REAP_GRACE_MS == 15_000,
        RECHECK_TIMEOUT_MS == 15_000,
{
}

/// The names of the fields differ.
proof fn lemma_seen_names()
    ensures
        "console"@.len() == 7,
        "pageErrors"@.len() == 10,
        "network"@.len() == 7,
        "performance"@.len() == 11,
        "gl"@.len() == 2,
        "errors"@.len() == 6,
        "drawCalls"@.len() == 9,
        "errorTotalCount"@.len() == 15,
        "wall_us"@.len() == 7,
        "gpu_us"@.len() == 6,
        "viz_us"@.len() == 6,
        "cc_us"@.len() == 5,
        "by_category"@.len() == 11,
        "console"@[0] == 'c' && "network"@[0] == 'n',
        "console"@[0] == 'c' && "wall_us"@[0] == 'w',
        "network"@[0] == 'n' && "wall_us"@[0] == 'w',
        "performance"@[0] == 'p' && "by_category"@[0] == 'b',
        "errors"@[0] == 'e' && "gpu_us"@[0] == 'g',
        "errors"@[0] == 'e' && "viz_us"@[0] == 'v',
        "gpu_us"@[0] == 'g' && "viz_us"@[0] == 'v',
{
    reveal_strlit("console");
    reveal_strlit("pageErrors");
    reveal_strlit("network");
    reveal_strlit("performance");
    reveal_strlit("gl");
    reveal_strlit("errors");
    reveal_strlit("drawCalls");
    reveal_strlit("errorTotalCount");
    reveal_strlit("wall_us");
    reveal_strlit("gpu_us");
    reveal_strlit("viz_us");
    reveal_strlit("cc_us");
    reveal_strlit("by_category");
}

/// A run that saw nothing of its page says so with empty lists; a trace that
/// was not taken is all zero.
pub proof fn law_nothing_seen_is_told_as_nothing(
    selector: Seq<char>,
    end: RunEnd,
    stderr: Seq<char>,
    result: JsonTree,
    artifact: Option<Seq<char>>,
)
    requires
        json::field(result, "debug"@) is None,
        json::field(result, "trace"@) is None,
        json::field(result, "__cdpError"@) is None,
    ensures
        ({
            let a = run_answer(BrowserMode::Trace, selector, end, stderr, result, artifact);
            let debug = json::field(a, "debug"@)->0;
            let trace = json::field(a, "trace"@)->0;
            let none = Some(JsonTree::Array(Seq::<JsonTree>::empty()));
            &&& json::field(debug, "console"@) == none
            &&& json::field(debug, "pageErrors"@) == none
            &&& json::field(debug, "network"@) == none
            &&& json::field(debug, "performance"@) == Some(JsonTree::Null)
            &&& json::field(json::field(debug, "gl"@)->0, "errors"@) == none
            &&& json::field(json::field(debug, "gl"@)->0, "errorTotalCount"@) == Some(
                JsonTree::Number(text::decimal(0)),
            )
            &&& json::field(trace, "wall_us"@) == Some(JsonTree::Number(text::decimal(0)))
            &&& json::field(trace, "gpu_us"@) == Some(JsonTree::Number(text::decimal(0)))
            &&& json::field(trace, "viz_us"@) == Some(JsonTree::Number(text::decimal(0)))
            &&& json::field(trace, "cc_us"@) == Some(JsonTree::Number(text::decimal(0)))
        }),
{
    lemma_browser_names();
    lemma_seen_names();
}

/// A run that claims success without a page is told as such, with its mode.
pub proof fn law_false_success_is_told(
    selector: Seq<char>,
    end: RunEnd,
    stderr: Seq<char>,
    result: JsonTree,
    artifact: Option<Seq<char>>,
)
    requires
        end.exit_code == 0,
        !end.timed_out,
        json::field(result, "__cdpError"@) is None,
        json::field(result, "result"@) is None,
        json::field(result, "elements"@) is None,
    ensures
        json::field(
            run_answer(BrowserMode::Capture, selector, end, stderr, result, artifact),
            "stderr"@,
        ) == Some(
            JsonTree::Str(
                "browser dispatch returned success with no evidence a page was ever reached (empty result envelope, mode="@
                    + "capture"@
                    + ") -- treating as a false success rather than a silent no-op"@,
            ),
        ),
{
    lemma_browser_names();
}

/// A use of a session is noted at its time and changes nothing else of it; the
/// sessions of a directory are those whose path is the same.
pub proof fn law_use_of_a_session_is_noted(s: BrowserSession, now_ms: u64)
    ensures
        used_at(s, now_ms).last_used_ms == now_ms,
        used_at(s, now_ms).cwd == s.cwd,
        used_at(s, now_ms).session_id == s.session_id,
        used_at(s, now_ms).pid == s.pid,
        used_at(s, now_ms).port == s.port,
        used_at(s, now_ms).target_id == s.target_id,
        used_at(s, now_ms).owns_process == s.owns_process,
        is_in(s, None),
        is_in(s, Some(s.cwd@)),
        forall|d: Seq<char>| !path::same_path(s.cwd@, d) ==> !#[trigger] is_in(s, Some(d)),
{
}

/// A list holds a path whatever the case and the slashes of both.
pub proof fn law_paths_are_listed_in_any_case(list: Seq<String>, p: Seq<char>, i: int)
    requires
        0 <= i < list.len(),
    ensures
        text::lower(text::replaced(list[i]@, '\\', '/')) == text::lower(text::replaced(p, '\\', '/'))
            ==> lists_folded(list, p),
        (forall|k: int|
            0 <= k < list.len() ==> text::lower(text::replaced((#[trigger] list[k])@, '\\', '/'))
                != text::lower(text::replaced(p, '\\', '/'))) ==> !lists_folded(list, p),
{
    if text::lower(text::replaced(list[i]@, '\\', '/')) == text::lower(text::replaced(p, '\\', '/')) {
        assert(folded(list[i]@) == folded(p));
    }
}

} // verus!

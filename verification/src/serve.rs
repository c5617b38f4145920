//! Finding the session that serves a dispatch, step by step: the caller does
//! what a step says and hands back what came of it.
use crate::browser;
use crate::browser::Adoption;
use crate::browser_engine::{AcquiredEngine, Engine};
use crate::path;
use crate::sessions;
use crate::sessions::BrowserSession;
use crate::strmap::StrMap;
use crate::text;
use vstd::prelude::*;
use vstd::string::*;

verus! {

// ---------------------------------------------------------------------------
// Notes beside a profile
// ---------------------------------------------------------------------------
/// What is noted beside the profile of a browser that was launched, file by
/// file: its process, its port and its session.
pub fn session_notes(profile: &str, pid: u32, port: u16, session_id: &str) -> (r: Vec<
    (String, String),
>)
    ensures
        r@.len() == 3,
        r@[0].0@ == path::joined_path(profile@, "chrome.pid"@),
        r@[0].1@ == text::decimal(pid as nat),
        r@[1].0@ == path::joined_path(profile@, "chrome.port"@),
        r@[1].1@ == text::decimal(port as nat),
        r@[2].0@ == path::joined_path(profile@, "chrome.session-id"@),
        r@[2].1@ == session_id@,
{
    let mut out: Vec<(String, String)> = Vec::new();
    out.push((sessions::pid_sidecar_path(profile), text::u64_text(pid as u64)));
    out.push((sessions::port_sidecar_path(profile), text::u64_text(port as u64)));
    out.push((sessions::session_id_sidecar_path(profile), session_id.to_owned()));
    out
}

proof fn lemma_digits_stay(s: Seq<char>)
    requires
        text::all_digits(s),
    ensures
        text::trimmed(s) == s,
{
    if s.len() > 0 {
        assert(text::is_digit(s[0]));
        assert(text::is_digit(s.last()));
    }
}

/// What is noted of a browser is what it is adopted by: the session, the
/// process and the port read back as they were, whatever name is looked for and
/// whatever the profile is called.
pub proof fn law_notes_are_read_back(
    pid: u32,
    port: u16,
    session_id: Seq<char>,
    hint: Option<Seq<char>>,
    profile_name: Seq<char>,
)
    requires
        !text::is_blank(session_id),
        text::trimmed(session_id) == session_id,
    ensures
        browser::noted_browser(
            Some(session_id),
            hint,
            profile_name,
            Some(text::decimal(pid as nat)),
            Some(text::decimal(port as nat)),
        ) == Some((session_id, pid as nat, port as nat)),
{
    text::lemma_decimal(pid as nat);
    text::lemma_decimal(port as nat);
    lemma_digits_stay(text::decimal(pid as nat));
    lemma_digits_stay(text::decimal(port as nat));
    text::law_decimal_reads_back(pid as nat, u32::MAX as nat);
    text::law_decimal_reads_back(port as nat, 0xffff);
}

// ---------------------------------------------------------------------------
// Steps
// ---------------------------------------------------------------------------
/// What is done next to find a session.
pub enum ServeStep {
    /// The open session is looked at: is it alive?
    CheckAlive,
    /// The endpoint at the port is asked: does it answer?
    CheckEndpoint { port: u16 },
    /// The notes beside the profile are read: is there a browser to adopt?
    ReadNotes,
    /// A browser is launched, or an endpoint dialled.
    Acquire,
    /// The session is there. `target` is the page that it used last.
    Ready { serving_port: u16, target: Option<String> },
}

/// What is done next, as a value.
pub enum StepView {
    CheckAlive,
    CheckEndpoint(u16),
    ReadNotes,
    Acquire,
    Ready(u16, Option<Seq<char>>),
}

/// The value of a step.
pub open spec fn step_view(s: ServeStep) -> StepView {
    match s {
        ServeStep::CheckAlive => StepView::CheckAlive,
        ServeStep::CheckEndpoint { port } => StepView::CheckEndpoint(port),
        ServeStep::ReadNotes => StepView::ReadNotes,
        ServeStep::Acquire => StepView::Acquire,
        ServeStep::Ready { serving_port, target } => StepView::Ready(
            serving_port,
            text::opt_string_view(target),
        ),
    }
}

/// What is done where no open session serves: a browser that outlived its host
/// is looked for, unless the engine is one that is only dialled.
pub open spec fn without_session(engine: Engine) -> StepView {
    if engine == Engine::Steel {
        StepView::Acquire
    } else {
        StepView::ReadNotes
    }
}

fn no_session(engine: Engine) -> (r: ServeStep)
    ensures
        step_view(r) == without_session(engine),
{
    if engine == Engine::Steel {
        ServeStep::Acquire
    } else {
        ServeStep::ReadNotes
    }
}

/// The first step: the open session is looked at, where there is one.
pub fn begin_serving(sessions: &StrMap<BrowserSession>, key: &str, engine: Engine) -> (r: ServeStep)
    ensures
        step_view(r) == (if sessions@.dom().contains(key@) {
            StepView::CheckAlive
        } else {
            without_session(engine)
        }),
{
    if sessions.contains(key) {
        ServeStep::CheckAlive
    } else {
        no_session(engine)
    }
}

/// The step after an open session was looked at: its endpoint is asked where
/// it is alive, and it is forgotten where it is not.
pub fn session_checked(
    sessions: &mut StrMap<BrowserSession>,
    key: &str,
    engine: Engine,
    alive: bool,
) -> (r: ServeStep)
    ensures
        step_view(r) == (if alive && old(sessions)@.dom().contains(key@) {
            StepView::CheckEndpoint(old(sessions)@[key@].port)
        } else {
            without_session(engine)
        }),
        final(sessions)@ == (if r is CheckEndpoint {
            old(sessions)@
        } else {
            old(sessions)@.remove(key@)
        }),
        follows(StepView::CheckAlive, step_view(r), engine),
{
    match browser::reuse_candidate(sessions, key, alive) {
        Some(port) => ServeStep::CheckEndpoint { port },
        None => no_session(engine),
    }
}

/// The step after the endpoint of a session was asked: the session serves
/// where it answered. Where it did not, the session is taken out and given
/// back to be ended.
pub fn endpoint_checked(
    sessions: &mut StrMap<BrowserSession>,
    key: &str,
    engine: Engine,
    port: u16,
    responds: bool,
    now_ms: u64,
) -> (r: (ServeStep, Option<BrowserSession>))
    ensures
        ({
            let open = old(sessions)@.dom().contains(key@);
            if responds {
                &&& step_view(r.0) == StepView::Ready(
                    port,
                    if open {
                        text::opt_string_view(old(sessions)@[key@].target_id)
                    } else {
                        None
                    },
                )
                &&& r.1 is None
                &&& final(sessions)@ == (if open {
                    old(sessions)@.insert(key@, browser::used_at(old(sessions)@[key@], now_ms))
                } else {
                    old(sessions)@
                })
            } else {
                &&& step_view(r.0) == without_session(engine)
                &&& r.1 == (if open {
                    Some(old(sessions)@[key@])
                } else {
                    None
                })
                &&& final(sessions)@ == old(sessions)@.remove(key@)
            }
        }),
        follows(StepView::CheckEndpoint(port), step_view(r.0), engine),
{
    if responds {
        let target = browser::touch_session(sessions, key, now_ms);
        (ServeStep::Ready { serving_port: port, target }, None)
    } else {
        let stale = sessions.remove(key);
        (no_session(engine), stale)
    }
}

/// The step after the notes were read. `adoption` is what they say, where its
/// process is there and its endpoint answers; it becomes an open session,
/// unless one of its name is open and alive. It serves where it is the session
/// that is looked for.
pub fn notes_read(
    sessions: &mut StrMap<BrowserSession>,
    cwd: &str,
    session_id: &str,
    adoption: &Option<Adoption>,
    existing_alive: bool,
    now_ms: u64,
) -> (r: ServeStep)
    ensures
        match *adoption {
            None => r is Acquire && final(sessions)@ == old(sessions)@,
            Some(a) => {
                let k = sessions::key_of(cwd@, a.session_id@);
                let kept = existing_alive && old(sessions)@.dom().contains(k);
                &&& final(sessions)@.dom() == old(sessions)@.dom().insert(k)
                &&& final(sessions)@ == old(sessions)@.insert(k, final(sessions)@[k])
                &&& kept && a.session_id@ != session_id@ ==> final(sessions)@ == old(sessions)@
                &&& kept && a.session_id@ == session_id@ ==> final(sessions)@[k]
                    == browser::used_at(old(sessions)@[k], now_ms)
                &&& !kept ==> is_adopted(final(sessions)@[k], cwd@, a, now_ms)
                &&& step_view(r) == (if a.session_id@ == session_id@ {
                    StepView::Ready(final(sessions)@[k].port, None)
                } else {
                    StepView::Acquire
                })
            },
        },
        forall|engine: Engine| #[trigger] follows(StepView::ReadNotes, step_view(r), engine),
{
    match adoption {
        None => ServeStep::Acquire,
        Some(a) => {
            let ghost before = sessions@;
            let ghost k = sessions::key_of(cwd@, a.session_id@);
            browser::adopt(sessions, cwd, a, existing_alive, now_ms);
            let ghost adopted = sessions@;
            assert(adopted.dom().contains(k));
            if !text::str_eq(a.session_id.as_str(), session_id) {
                assert(adopted =~= before.insert(k, adopted[k]));
                return ServeStep::Acquire;
            }
            let key = sessions::session_key(cwd, a.session_id.as_str());
            let _ = browser::touch_session(sessions, key.as_str(), now_ms);
            assert(sessions@ =~= before.insert(k, sessions@[k]));
            match sessions.get(key.as_str()) {
                Some(s) => ServeStep::Ready { serving_port: s.port, target: None },
                None => ServeStep::Acquire,
            }
        },
    }
}

/// Whether a session is one that was adopted.
pub open spec fn is_adopted(s: BrowserSession, cwd: Seq<char>, a: Adoption, now_ms: u64) -> bool {
    &&& s.cwd@ == cwd
    &&& s.session_id@ == a.session_id@
    &&& s.pid == a.pid
    &&& s.port == a.port
    &&& s.last_used_ms == now_ms
    &&& s.target_id is None
    &&& s.owns_process
    &&& !s.launched_here
}

/// The step after a browser was launched or an endpoint dialled: it becomes
/// the open session of that name, and serves. A browser that was not launched
/// here has no process.
pub fn acquired(
    sessions: &mut StrMap<BrowserSession>,
    cwd: &str,
    session_id: &str,
    engine: &AcquiredEngine,
    now_ms: u64,
) -> (r: ServeStep)
    ensures
        step_view(r) == StepView::Ready(engine.port, None),
        ({
            let k = sessions::key_of(cwd@, session_id@);
            let s = final(sessions)@[k];
            &&& final(sessions)@ == old(sessions)@.insert(k, s)
            &&& s.cwd@ == cwd@
            &&& s.session_id@ == session_id@
            &&& s.port == engine.port
            &&& s.pid == (match engine.child {
                Some(pid) => pid,
                None => 0,
            })
            &&& s.last_used_ms == now_ms
            &&& s.target_id is None
            &&& s.owns_process == engine.owns_process
            &&& s.launched_here == engine.child.is_some()
        }),
        forall|e: Engine| #[trigger] follows(StepView::Acquire, step_view(r), e),
{
    let pid: u32 = match engine.child {
        Some(pid) => pid,
        None => 0,
    };
    let s = browser::new_session(
        cwd,
        session_id,
        pid,
        engine.port,
        engine.owns_process,
        engine.child.is_some(),
        now_ms,
    );
    sessions.insert(sessions::session_key(cwd, session_id), s);
    ServeStep::Ready { serving_port: engine.port, target: None }
}

/// How many steps there are at most from a step to a session.
pub open spec fn steps_left(s: StepView) -> nat {
    match s {
        StepView::CheckAlive => 4,
        StepView::CheckEndpoint(_) => 3,
        StepView::ReadNotes => 2,
        StepView::Acquire => 1,
        StepView::Ready(_, _) => 0,
    }
}

/// What can come of a step.
pub open spec fn follows(s: StepView, next: StepView, engine: Engine) -> bool {
    match s {
        StepView::CheckAlive => next is CheckEndpoint || next == without_session(engine),
        StepView::CheckEndpoint(port) => (next is Ready && next->Ready_0 == port) || next
            == without_session(engine),
        StepView::ReadNotes => next is Ready || next is Acquire,
        StepView::Acquire => next is Ready,
        StepView::Ready(_, _) => false,
    }
}

/// Every step leads nearer to a session, so that the search ends.
pub proof fn law_serving_ends(s: StepView, next: StepView, engine: Engine)
    requires
        follows(s, next, engine),
    ensures
        steps_left(next) < steps_left(s),
{
}

/// Takes out a session that is wedged: its script ran out of time, and its
/// page does not answer either. It is given back to be ended.
pub fn evict_if_wedged(
    sessions: &mut StrMap<BrowserSession>,
    key: &str,
    timed_out: bool,
    page_answers: bool,
) -> (r: Option<BrowserSession>)
    ensures
        ({
            let wedged = timed_out && !page_answers;
            &&& r == (if wedged && old(sessions)@.dom().contains(key@) {
                Some(old(sessions)@[key@])
            } else {
                None
            })
            &&& final(sessions)@ == (if wedged {
                old(sessions)@.remove(key@)
            } else {
                old(sessions)@
            })
        }),
{
    if timed_out && !page_answers {
        sessions.remove(key)
    } else {
        None
    }
}

/// Without an open session, notes of an earlier browser are read; a browser of
/// Steel leaves none and is dialled at once.
pub proof fn law_steel_has_no_notes(engine: Engine)
    ensures
        engine == Engine::Steel <==> without_session(engine) is Acquire,
        engine != Engine::Steel <==> without_session(engine) is ReadNotes,
{
}

} // verus!

//! The browser sessions that are open, by working directory and name.
use crate::path;
use crate::strmap::StrMap;
use crate::text;
use vstd::prelude::*;
use vstd::string::*;

verus! {

/// An open browser session.
pub struct BrowserSession {
    pub cwd: String,
    pub session_id: String,
    /// The process of the browser; zero where the host owns none.
    pub pid: u32,
    pub port: u16,
    pub last_used_ms: u64,
    /// The page that the session used last.
    pub target_id: Option<String>,
    /// Whether the host owns the process; a browser that is only dialled is
    /// left alone.
    pub owns_process: bool,
    /// Whether this process launched the browser; a session that was adopted
    /// knows its process by number alone.
    pub launched_here: bool,
}

/// The open sessions, by key.
pub type Sessions = Map<Seq<char>, BrowserSession>;

/// A name that is safe in a file name.
pub open spec fn sanitized(s: Seq<char>) -> Seq<char> {
    text::masked(s, "-_"@, '_')
}

pub fn sanitize(s: &str) -> (r: String)
    ensures
        r@ == sanitized(s@),
{
    text::mask(s, "-_", '_')
}

/// The key of a session: its directory and its name, parted by a character
/// that neither holds.
pub open spec fn key_of(cwd: Seq<char>, session_id: Seq<char>) -> Seq<char> {
    cwd + seq!['\0'] + session_id
}

pub fn session_key(cwd: &str, session_id: &str) -> (r: String)
    ensures
        r@ == key_of(cwd@, session_id@),
{
    let mut out = cwd.to_owned();
    out.push('\0');
    out.append(session_id);
    assert(out@ =~= key_of(cwd@, session_id@));
    out
}

/// Sessions of different names or directories have different keys, where no
/// directory holds the parting character.
pub proof fn law_session_keys_are_distinct(
    cwd1: Seq<char>,
    id1: Seq<char>,
    cwd2: Seq<char>,
    id2: Seq<char>,
)
    requires
        !text::has_char(cwd1, '\0'),
        !text::has_char(cwd2, '\0'),
        key_of(cwd1, id1) == key_of(cwd2, id2),
    ensures
        cwd1 == cwd2,
        id1 == id2,
{
    let k = key_of(cwd1, id1);
    text::lemma_cut_at(cwd1, '\0');
    text::lemma_cut_at(cwd2, '\0');
    assert forall|j: int| 0 <= j < cwd1.len() implies k[j] != '\0' by {
        assert(k[j] == cwd1[j]);
    }
    assert forall|j: int| 0 <= j < cwd2.len() implies key_of(cwd2, id2)[j] != '\0' by {
        assert(key_of(cwd2, id2)[j] == cwd2[j]);
    }
    text::lemma_cut_at_is(k, '\0', cwd1.len() as int);
    text::lemma_cut_at_is(key_of(cwd2, id2), '\0', cwd2.len() as int);
    assert(cwd1 =~= k.take(cwd1.len() as int));
    assert(cwd2 =~= key_of(cwd2, id2).take(cwd2.len() as int));
    assert(id1 =~= k.skip(cwd1.len() as int + 1));
    assert(id2 =~= key_of(cwd2, id2).skip(cwd2.len() as int + 1));
}

// ---------------------------------------------------------------------------
// Files
// ---------------------------------------------------------------------------
/// Where the profile of a session is kept.
pub open spec fn profile_dir(cwd: Seq<char>, session_id: Seq<char>) -> Seq<char> {
    path::joined2(cwd, ".gm"@, "browser-chrome-profile-"@ + sanitized(session_id))
}

pub fn browser_chrome_profile_dir(cwd: &str, session_id: &str) -> (r: String)
    ensures
        r@ == profile_dir(cwd@, session_id@),
{
    path::join2(
        cwd,
        ".gm",
        text::add2("browser-chrome-profile-", sanitize(session_id).as_str()).as_str(),
    )
}

/// Where the process of a session is noted.
pub fn pid_sidecar_path(profile: &str) -> (r: String)
    ensures
        r@ == path::joined_path(profile@, "chrome.pid"@),
{
    path::join(profile, "chrome.pid")
}

/// Where the port of a session is noted.
pub fn port_sidecar_path(profile: &str) -> (r: String)
    ensures
        r@ == path::joined_path(profile@, "chrome.port"@),
{
    path::join(profile, "chrome.port")
}

/// Where the name of a session is noted.
pub fn session_id_sidecar_path(profile: &str) -> (r: String)
    ensures
        r@ == path::joined_path(profile@, "chrome.session-id"@),
{
    path::join(profile, "chrome.session-id")
}

/// What ends a session: its process, and the files that note it.
pub struct KillPlan {
    pub pid: u32,
    pub files: Vec<String>,
}

/// What ends a session; nothing for a browser that is only dialled.
pub fn kill_plan(session: &BrowserSession) -> (r: Option<KillPlan>)
    ensures
        r is Some <==> session.owns_process,
        r matches Some(k) ==> k.pid == session.pid && text::string_views(k.files@) == seq![
            path::joined_path(profile_dir(session.cwd@, session.session_id@), "chrome.pid"@),
            path::joined_path(profile_dir(session.cwd@, session.session_id@), "chrome.port"@),
            path::joined_path(
                profile_dir(session.cwd@, session.session_id@),
                "chrome.session-id"@,
            ),
        ],
{
    if !session.owns_process {
        return None;
    }
    let dir = browser_chrome_profile_dir(session.cwd.as_str(), session.session_id.as_str());
    let mut files: Vec<String> = Vec::new();
    files.push(pid_sidecar_path(dir.as_str()));
    files.push(port_sidecar_path(dir.as_str()));
    files.push(session_id_sidecar_path(dir.as_str()));
    assert(text::string_views(files@) =~= seq![
        path::joined_path(dir@, "chrome.pid"@),
        path::joined_path(dir@, "chrome.port"@),
        path::joined_path(dir@, "chrome.session-id"@),
    ]);
    Some(KillPlan { pid: session.pid, files })
}

/// How it is found out whether a session is alive.
pub enum LivenessProbe {
    /// Its endpoint answers.
    Endpoint { port: u16 },
    /// The process that was launched here has not ended.
    OwnChild,
    /// The process of that number is there.
    Process { pid: u32 },
}

/// How it is found out whether a session is alive.
pub fn liveness_probe(session: &BrowserSession) -> (r: LivenessProbe)
    ensures
        r == (if !session.owns_process {
            LivenessProbe::Endpoint { port: session.port }
        } else if session.launched_here {
            LivenessProbe::OwnChild
        } else {
            LivenessProbe::Process { pid: session.pid }
        }),
{
    if !session.owns_process {
        LivenessProbe::Endpoint { port: session.port }
    } else if session.launched_here {
        LivenessProbe::OwnChild
    } else {
        LivenessProbe::Process { pid: session.pid }
    }
}

// ---------------------------------------------------------------------------
// Ending sessions
// ---------------------------------------------------------------------------
/// Which sessions are to end.
pub enum Ending<'a> {
    /// Those of a directory that were not used for longer than a time.
    Idle { cwd: &'a str, timeout_ms: u64, now_ms: u64 },
    /// Those whose directory is not among the known ones.
    Unknown { roots: &'a Vec<String> },
    /// All.
    All,
}

/// How long a session was not used.
pub open spec fn idle_ms(s: BrowserSession, now_ms: u64) -> int {
    if now_ms >= s.last_used_ms {
        now_ms - s.last_used_ms
    } else {
        0
    }
}

/// Whether a session is to end.
pub open spec fn ends(e: Ending<'_>, s: BrowserSession) -> bool {
    match e {
        Ending::Idle { cwd, timeout_ms, now_ms } => path::same_path(s.cwd@, cwd@) && idle_ms(s, now_ms)
            > timeout_ms,
        Ending::Unknown { roots } => !path::lists_path(roots@, s.cwd@),
        Ending::All => true,
    }
}

/// Whether `ended` are the sessions under `keys`, one by one, each key once.
pub open spec fn under_keys(
    before: Sessions,
    keys: Seq<Seq<char>>,
    ended: Seq<BrowserSession>,
) -> bool {
    &&& keys.no_duplicates()
    &&& keys.len() == ended.len()
    &&& forall|i: int|
        0 <= i < keys.len() ==> before.dom().contains(#[trigger] keys[i]) && before[keys[i]]
            == ended[i]
}

/// Whether `ended` are the sessions that were there before and are no more,
/// each once.
pub open spec fn just_gone(before: Sessions, after: Sessions, ended: Seq<BrowserSession>) -> bool {
    exists|keys: Seq<Seq<char>>|
        {
            &&& #[trigger] under_keys(before, keys, ended)
            &&& forall|k: Seq<char>|
                #[trigger] keys.contains(k) <==> before.dom().contains(k) && !after.dom().contains(k)
        }
}

/// Whether `after` and `ended` part the sessions: those that stay, and those
/// that are to end, each once.
pub open spec fn parted(
    before: Sessions,
    after: Sessions,
    ended: Seq<BrowserSession>,
    e: Ending<'_>,
) -> bool {
    &&& forall|k: Seq<char>| (#[trigger] after.dom().contains(k)) <==> before.dom().contains(k) && !ends(e, before[k])
    &&& forall|k: Seq<char>| (#[trigger] after.dom().contains(k)) ==> after[k] == before[k]
    &&& just_gone(before, after, ended)
}

/// Whether a text is among the first `n`.
pub open spec fn among_first(keys: Seq<Seq<char>>, n: int, t: Seq<char>) -> bool {
    exists|a: int| 0 <= a < n && #[trigger] keys[a] == t
}

fn session_ends(e: &Ending<'_>, s: &BrowserSession) -> (r: bool)
    ensures
        r == ends(*e, *s),
{
    match e {
        Ending::Idle { cwd, timeout_ms, now_ms } => path::same(s.cwd.as_str(), cwd)
            && now_ms.saturating_sub(s.last_used_ms) > *timeout_ms,
        Ending::Unknown { roots } => !path::list_contains_path(roots, s.cwd.as_str()),
        Ending::All => true,
    }
}

/// Takes out the sessions that are to end.
pub fn end_sessions(sessions: &mut StrMap<BrowserSession>, e: Ending<'_>) -> (r: Vec<BrowserSession>)
    ensures
        parted(old(sessions)@, final(sessions)@, r@, e),
{
    let ghost before = sessions@;
    let n: usize = sessions.len();
    let ghost keys = sessions.keys();
    let mut ending: Vec<String> = Vec::new();
    for i in 0..n
        invariant
            n == sessions.keys().len(),
            keys == sessions.keys(),
            before == sessions@,
            forall|k: Seq<char>| before.dom().contains(k) <==> keys.contains(k),
            forall|j: int|
                0 <= j < ending@.len() ==> before.dom().contains((#[trigger] ending@[j])@) && ends(
                    e,
                    before[ending@[j]@],
                ),
            forall|j: int|
                0 <= j < i && ends(e, before[#[trigger] keys[j]]) ==> text::lists(ending@, keys[j]),
            keys.no_duplicates(),
            text::distinct_texts(ending@),
            forall|j: int|
                0 <= j < ending@.len() ==> among_first(keys, i as int, (#[trigger] ending@[j])@),
    {
        let ghost so_far = ending@;
        let k = sessions.key_at(i).clone();
        if session_ends(&e, sessions.value_at(i)) {
            ending.push(k);
        }
        proof {
            assert forall|a: int, b: int| 0 <= a < b < ending@.len() implies (
            #[trigger] ending@[a])@ != (#[trigger] ending@[b])@ by {
                if b == so_far.len() {
                    assert(ending@[a] == so_far[a]);
                    assert(among_first(keys, i as int, so_far[a]@));
                    let x = choose|x: int| 0 <= x < i && keys[x] == so_far[a]@;
                    assert(keys[x] != keys[i as int]);
                } else {
                    assert(ending@[a] == so_far[a] && ending@[b] == so_far[b]);
                }
            }
            assert forall|j: int| 0 <= j < ending@.len() implies among_first(
                keys,
                i + 1,
                (#[trigger] ending@[j])@,
            ) by {
                if j < so_far.len() {
                    assert(ending@[j] == so_far[j]);
                    assert(among_first(keys, i as int, so_far[j]@));
                    let a = choose|a: int| 0 <= a < i && keys[a] == so_far[j]@;
                    assert(keys[a] == ending@[j]@);
                } else {
                    assert(keys[i as int] == ending@[j]@);
                }
            }
            assert forall|j: int|
                0 <= j < i + 1 && ends(e, before[#[trigger] keys[j]]) implies text::lists(
                ending@,
                keys[j],
            ) by {
                if j < i {
                    let a = choose|a: int| 0 <= a < so_far.len() && (#[trigger] so_far[a])@ == keys[j];
                    assert(ending@[a]@ == keys[j]);
                } else {
                    assert(ending@[so_far.len() as int]@ == keys[j]);
                }
            }
        }
    }
    let mut out: Vec<BrowserSession> = Vec::new();
    for i in 0..ending.len()
        invariant
            forall|j: int|
                0 <= j < ending@.len() ==> before.dom().contains((#[trigger] ending@[j])@) && ends(
                    e,
                    before[ending@[j]@],
                ),
            forall|k: Seq<char>| (#[trigger] sessions@.dom().contains(k)) <==> before.dom().contains(k) && !text::lists(
                    ending@.take(i as int),
                    k,
                ),
            forall|k: Seq<char>| (#[trigger] sessions@.dom().contains(k)) ==> sessions@[k] == before[k],
            out@.len() == i,
            forall|j: int| 0 <= j < i ==> #[trigger] out@[j] == before[ending@[j]@],
            text::distinct_texts(ending@),
    {
        let ghost head = ending@.take(i as int);
        let ghost more = ending@.take(i + 1);
        let ghost now = sessions@;
        let ghost k0 = ending@[i as int]@;
        assert(before.dom().contains(k0));
        assert(!text::lists(head, k0)) by {
            if text::lists(head, k0) {
                let a = choose|a: int| 0 <= a < head.len() && (#[trigger] head[a])@ == k0;
                assert(ending@[a]@ != ending@[i as int]@);
            }
        }
        assert(now.dom().contains(k0));
        let taken = sessions.remove(ending[i].as_str());
        match taken {
            Some(s) => {
                out.push(s);
            },
            None => {},
        }
        proof {
            assert(more[i as int] == ending@[i as int]);
            assert forall|k: Seq<char>| text::lists(more, k) == (text::lists(head, k) || k == k0) by {
                if text::lists(head, k) {
                    let a = choose|a: int| 0 <= a < head.len() && (#[trigger] head[a])@ == k;
                    assert(more[a]@ == k);
                }
                if k == k0 {
                    assert(more[i as int]@ == k);
                }
                if text::lists(more, k) {
                    let a = choose|a: int| 0 <= a < more.len() && (#[trigger] more[a])@ == k;
                    if a < i {
                        assert(head[a]@ == k);
                    }
                }
            }
            assert forall|k: Seq<char>| (#[trigger] sessions@.dom().contains(k)) <==> before.dom().contains(k) && !text::lists(
                    more,
                    k,
                ) by {
                assert(now.dom().contains(k) <==> before.dom().contains(k) && !text::lists(
                    head,
                    k,
                ));
            }
            assert forall|k: Seq<char>| (#[trigger] sessions@.dom().contains(k)) implies sessions@[k]
                == before[k] by {
                assert(now.dom().contains(k));
            }
        }
    }
    proof {
        assert(ending@.take(ending@.len() as int) =~= ending@);
        assert forall|k: Seq<char>| (#[trigger] before.dom().contains(k)) && ends(e, before[k]) implies text::lists(ending@, k) by {
            assert(keys.contains(k));
            let j = choose|j: int| 0 <= j < keys.len() && keys[j] == k;
            assert(ends(e, before[keys[j]]));
        }
        assert forall|k: Seq<char>| (#[trigger] sessions@.dom().contains(k)) <==> before.dom().contains(k) && !ends(e, before[k]) by {
            if before.dom().contains(k) && text::lists(ending@, k) {
                let a = choose|a: int| 0 <= a < ending@.len() && (#[trigger] ending@[a])@ == k;
                assert(ends(e, before[ending@[a]@]));
            }
        }
        let gone = text::string_views(ending@);
        assert forall|a: int, b: int| 0 <= a < gone.len() && 0 <= b < gone.len() && a != b implies gone[a]
            != gone[b] by {
            if a < b {
                assert(ending@[a]@ != ending@[b]@);
            } else {
                assert(ending@[b]@ != ending@[a]@);
            }
        }
        assert forall|a: int| 0 <= a < gone.len() implies before.dom().contains(#[trigger] gone[a])
            && before[gone[a]] == out@[a] by {
            assert(gone[a] == ending@[a]@);
            assert(before.dom().contains(ending@[a]@));
        }
        assert(under_keys(before, gone, out@));
        assert forall|k: Seq<char>| #[trigger] gone.contains(k) <==> before.dom().contains(k)
            && !sessions@.dom().contains(k) by {
            if gone.contains(k) {
                let a = choose|a: int| 0 <= a < gone.len() && gone[a] == k;
                assert(ending@[a]@ == k);
            }
            if before.dom().contains(k) && !sessions@.dom().contains(k) {
                let a = choose|a: int| 0 <= a < ending@.len() && (#[trigger] ending@[a])@ == k;
                assert(gone[a] == k);
            }
        }
    }
    out
}

/// Takes out all sessions, without ending them: their browsers run on and can
/// be adopted again.
pub fn close_all_sessions(sessions: &mut StrMap<BrowserSession>) -> (r: Vec<BrowserSession>)
    ensures
        final(sessions)@ == Map::<Seq<char>, BrowserSession>::empty(),
        just_gone(old(sessions)@, final(sessions)@, r@),
{
    let r = end_sessions(sessions, Ending::All);
    assert(sessions@ =~= Map::<Seq<char>, BrowserSession>::empty());
    r
}

/// Whether a session of one of the known directories was idle for too long.
pub open spec fn idle_in(
    roots: Seq<String>,
    timeouts: Seq<u64>,
    n: int,
    s: BrowserSession,
    now_ms: u64,
) -> bool {
    exists|i: int|
        0 <= i < n && path::same_path((#[trigger] roots[i])@, s.cwd@) && idle_ms(s, now_ms) > timeouts[i]
}

/// What went in two steps went, each once.
proof fn lemma_gone_in_steps(
    before: Sessions,
    now: Sessions,
    after: Sessions,
    first: Seq<BrowserSession>,
    second: Seq<BrowserSession>,
)
    requires
        just_gone(before, now, first),
        just_gone(now, after, second),
        forall|k: Seq<char>| (#[trigger] now.dom().contains(k)) ==> before.dom().contains(k)
            && now[k] == before[k],
        forall|k: Seq<char>| (#[trigger] after.dom().contains(k)) ==> now.dom().contains(k),
    ensures
        just_gone(before, after, first + second),
{
    let a = choose|keys: Seq<Seq<char>>|
        {
            &&& #[trigger] under_keys(before, keys, first)
            &&& forall|k: Seq<char>|
                #[trigger] keys.contains(k) <==> before.dom().contains(k) && !now.dom().contains(k)
        };
    let b = choose|keys: Seq<Seq<char>>|
        {
            &&& #[trigger] under_keys(now, keys, second)
            &&& forall|k: Seq<char>|
                #[trigger] keys.contains(k) <==> now.dom().contains(k) && !after.dom().contains(k)
        };
    let all = a + b;
    assert forall|i: int, j: int| 0 <= i < all.len() && 0 <= j < all.len() && i != j implies all[i]
        != all[j] by {
        if i < a.len() && j >= a.len() {
            assert(a.contains(all[i]));
            assert(b[j - a.len()] == all[j]);
            assert(b.contains(all[j]));
        } else if i >= a.len() && j < a.len() {
            assert(a.contains(all[j]));
            assert(b[i - a.len()] == all[i]);
            assert(b.contains(all[i]));
        } else if i >= a.len() {
            assert(b[i - a.len()] != b[j - a.len()]);
        }
    }
    assert forall|i: int| 0 <= i < all.len() implies before.dom().contains(#[trigger] all[i])
        && before[all[i]] == (first + second)[i] by {
        if i < a.len() {
            assert(all[i] == a[i]);
        } else {
            assert(all[i] == b[i - a.len()]);
        }
    }
    assert(under_keys(before, all, first + second));
    assert forall|k: Seq<char>| #[trigger] all.contains(k) <==> before.dom().contains(k)
        && !after.dom().contains(k) by {
        if all.contains(k) {
            let i = choose|i: int| 0 <= i < all.len() && all[i] == k;
            if i < a.len() {
                assert(a[i] == k);
                assert(a.contains(k));
            } else {
                assert(b[i - a.len()] == k);
                assert(b.contains(k));
            }
        }
        if before.dom().contains(k) && !after.dom().contains(k) {
            if now.dom().contains(k) {
                assert(b.contains(k));
                let i = choose|i: int| 0 <= i < b.len() && b[i] == k;
                assert(all[a.len() + i] == k);
            } else {
                assert(a.contains(k));
                let i = choose|i: int| 0 <= i < a.len() && a[i] == k;
                assert(all[i] == k);
            }
        }
    }
}

/// Ends the sessions of every known directory that were idle for longer than
/// its time, and those whose directory is not known any more. Gives those
/// that ended.
pub fn reap_idle_sessions_and_os_orphans_across_every_known_project_root(
    sessions: &mut StrMap<BrowserSession>,
    roots: &Vec<String>,
    idle_timeouts_ms: &Vec<u64>,
    now_ms: u64,
) -> (r: Vec<BrowserSession>)
    requires
        roots@.len() == idle_timeouts_ms@.len(),
    ensures
        forall|k: Seq<char>| (#[trigger] final(sessions)@.dom().contains(k)) <==> old(sessions)@.dom().contains(k)
                && path::lists_path(roots@, old(sessions)@[k].cwd@) && !idle_in(
                roots@,
                idle_timeouts_ms@,
                roots@.len() as int,
                old(sessions)@[k],
                now_ms,
            ),
        forall|k: Seq<char>| (#[trigger] final(sessions)@.dom().contains(k)) ==> final(sessions)@[k] == old(sessions)@[k],
        just_gone(old(sessions)@, final(sessions)@, r@),
{
    let ghost before = sessions@;
    let mut out: Vec<BrowserSession> = Vec::new();
    proof {
        let none = Seq::<Seq<char>>::empty();
        assert(under_keys(before, none, out@));
        assert forall|k: Seq<char>| #[trigger] none.contains(k) <==> before.dom().contains(k)
            && !before.dom().contains(k) by {}
    }
    for i in 0..roots.len()
        invariant
            roots@.len() == idle_timeouts_ms@.len(),
            forall|k: Seq<char>| (#[trigger] sessions@.dom().contains(k)) <==> before.dom().contains(k) && !idle_in(
                    roots@,
                    idle_timeouts_ms@,
                    i as int,
                    before[k],
                    now_ms,
                ),
            forall|k: Seq<char>| (#[trigger] sessions@.dom().contains(k)) ==> sessions@[k] == before[k],
            just_gone(before, sessions@, out@),
    {
        let ghost now = sessions@;
        let ghost so_far = out@;
        let mut ended = end_sessions(
            sessions,
            Ending::Idle { cwd: roots[i].as_str(), timeout_ms: idle_timeouts_ms[i], now_ms },
        );
        let ghost just = ended@;
        out.append(&mut ended);
        proof {
            lemma_gone_in_steps(before, now, sessions@, so_far, just);
            assert forall|s: BrowserSession| idle_in(
                roots@,
                idle_timeouts_ms@,
                i + 1,
                s,
                now_ms,
            ) == (idle_in(roots@, idle_timeouts_ms@, i as int, s, now_ms) || (path::same_path(
                roots@[i as int]@,
                s.cwd@,
            ) && idle_ms(s, now_ms) > idle_timeouts_ms@[i as int])) by {
                if idle_in(roots@, idle_timeouts_ms@, i as int, s, now_ms) {
                    let j = choose|j: int|
                        0 <= j < i && path::same_path((#[trigger] roots@[j])@, s.cwd@) && idle_ms(s, now_ms)
                            > idle_timeouts_ms@[j];
                    assert(path::same_path(roots@[j]@, s.cwd@));
                }
                if idle_in(roots@, idle_timeouts_ms@, i + 1, s, now_ms) {
                    let j = choose|j: int|
                        0 <= j < i + 1 && path::same_path((#[trigger] roots@[j])@, s.cwd@) && idle_ms(s, now_ms)
                            > idle_timeouts_ms@[j];
                    if j < i {
                        assert(path::same_path(roots@[j]@, s.cwd@));
                    }
                }
            }
            assert forall|k: Seq<char>| (#[trigger] sessions@.dom().contains(k)) <==> before.dom().contains(k) && !idle_in(
                    roots@,
                    idle_timeouts_ms@,
                    i + 1,
                    before[k],
                    now_ms,
                ) by {
                assert(now.dom().contains(k) <==> before.dom().contains(k) && !idle_in(
                    roots@,
                    idle_timeouts_ms@,
                    i as int,
                    before[k],
                    now_ms,
                ));
                assert(now.dom().contains(k) ==> now[k] == before[k]);
            }
            assert forall|k: Seq<char>| (#[trigger] sessions@.dom().contains(k)) implies sessions@[k]
                == before[k] by {
                assert(now.dom().contains(k));
            }
        }
    }
    let ghost now = sessions@;
    let ghost so_far = out@;
    let mut ended = end_sessions(sessions, Ending::Unknown { roots });
    let ghost just = ended@;
    out.append(&mut ended);
    proof {
        lemma_gone_in_steps(before, now, sessions@, so_far, just);
        assert forall|k: Seq<char>| (#[trigger] sessions@.dom().contains(k)) <==> before.dom().contains(k) && path::lists_path(
                roots@,
                before[k].cwd@,
            ) && !idle_in(roots@, idle_timeouts_ms@, roots@.len() as int, before[k], now_ms) by {
            assert(now.dom().contains(k) ==> now[k] == before[k]);
            assert(now.dom().contains(k) <==> before.dom().contains(k) && !idle_in(
                roots@,
                idle_timeouts_ms@,
                roots@.len() as int,
                before[k],
                now_ms,
            ));
        }
        assert forall|k: Seq<char>| (#[trigger] sessions@.dom().contains(k)) implies sessions@[k]
            == before[k] by {
            assert(now.dom().contains(k));
        }
    }
    out
}

/// The profile of a session lies in `.gm` under its directory and is named
/// after it; what is no letter, digit, `-` or `_` in the name is `_`.
pub proof fn law_profile_is_named_after_its_session(cwd: Seq<char>, session_id: Seq<char>, i: int)
    requires
        cwd.len() > 0,
        cwd.last() != '/',
        0 <= i < session_id.len(),
    ensures
        profile_dir(cwd, session_id) == cwd + "/.gm/browser-chrome-profile-"@ + sanitized(session_id),
        sanitized(session_id).len() == session_id.len(),
        text::is_alnum(session_id[i]) || session_id[i] == '-' || session_id[i] == '_' ==> sanitized(
            session_id,
        )[i] == session_id[i],
        !text::is_alnum(session_id[i]) && session_id[i] != '-' ==> sanitized(session_id)[i] == '_',
{
    reveal_strlit("-_");
    reveal_strlit(".gm");
    reveal_strlit("browser-chrome-profile-");
    reveal_strlit("/.gm/browser-chrome-profile-");
    assert("-_"@[0] == '-' && "-_"@[1] == '_');
    assert("-_"@.contains('-') && "-_"@.contains('_'));
    let base = cwd.push('/') + ".gm"@;
    assert(base.last() == 'm');
    assert(("browser-chrome-profile-"@ + sanitized(session_id))[0] == 'b');
    assert(profile_dir(cwd, session_id) =~= cwd + "/.gm/browser-chrome-profile-"@ + sanitized(
        session_id,
    ));
}

/// A session ends for idleness where it belongs to the directory and was not
/// used for longer than the time; one that was used just now never does.
pub proof fn law_idle_sessions_end(s: BrowserSession, cwd: &str, timeout_ms: u64, now_ms: u64)
    requires
        cwd@ == s.cwd@,
    ensures
        ends(Ending::Idle { cwd, timeout_ms, now_ms }, s) <==> now_ms > s.last_used_ms + timeout_ms,
        ends(Ending::All, s),
{
}

/// A session of another directory does not end with the idle ones of this.
pub proof fn law_other_directories_stay(s: BrowserSession, cwd: &str, timeout_ms: u64, now_ms: u64)
    requires
        !path::same_path(s.cwd@, cwd@),
    ensures
        !ends(Ending::Idle { cwd, timeout_ms, now_ms }, s),
{
}

/// A session ends with its directory: where that is among the known ones it
/// stays, and where it is not it ends.
pub proof fn law_sessions_end_with_their_directory(s: BrowserSession, roots: &Vec<String>)
    ensures
        (exists|i: int| 0 <= i < roots@.len() && path::same_path((#[trigger] roots@[i])@, s.cwd@)) ==> !ends(
            Ending::Unknown { roots },
            s,
        ),
        (forall|i: int| 0 <= i < roots@.len() ==> !path::same_path((#[trigger] roots@[i])@, s.cwd@)) ==> ends(
            Ending::Unknown { roots },
            s,
        ),
{
}

/// Each directory has its own time: a session is idle where it was unused for
/// longer than the time of a directory that is its own.
pub proof fn law_each_directory_has_its_time(
    roots: Seq<String>,
    timeouts: Seq<u64>,
    s: BrowserSession,
    now_ms: u64,
)
    requires
        roots.len() == timeouts.len(),
    ensures
        idle_in(roots, timeouts, roots.len() as int, s, now_ms) <==> exists|i: int|
            0 <= i < roots.len() && path::same_path((#[trigger] roots[i])@, s.cwd@) && now_ms
                > s.last_used_ms + timeouts[i],
{
}

} // verus!

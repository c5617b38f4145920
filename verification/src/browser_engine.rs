//! Which browser serves a dispatch.
use crate::imports;
use crate::json;
use crate::json::Json;
use crate::path;
use crate::text;
use vstd::prelude::*;
use vstd::string::*;

verus! {

/// The browsers that can serve a dispatch.
#[derive(Debug, Clone, Copy, PartialEq, Eq, Structural)]
pub enum Engine {
    Chrome,
    Lightpanda,
    Steel,
}

/// A browser that was launched or dialled.
pub struct AcquiredEngine {
    /// The process that was launched, if one was.
    pub child: Option<u32>,
    pub port: u16,
    pub owns_process: bool,
}

/// What a project's browser configuration says.
pub struct BrowserEngineFileConfig {
    pub engine: Option<String>,
    pub lightpanda_path: Option<String>,
    pub steel_endpoint: Option<String>,
}

/// Where a project's browser configuration is.
pub fn browser_config_path(cwd: &str) -> (r: String)
    ensures
        r@ == path::joined2(cwd@, ".gm"@, "browser-config.json"@),
{
    path::join2(cwd, ".gm", "browser-config.json")
}

/// An optional text, unless it is blank.
pub open spec fn not_blank(o: Option<Seq<char>>) -> Option<Seq<char>> {
    match o {
        Some(s) => if text::is_blank(s) {
            None
        } else {
            Some(s)
        },
        None => None,
    }
}

/// The endpoint of a running browser that is configured: the one that is set,
/// or the one in the project's configuration.
pub open spec fn steel_endpoint(set: Option<Seq<char>>, configured: Option<Seq<char>>) -> Option<
    Seq<char>,
> {
    imports::first_of(not_blank(set), not_blank(configured))
}

pub fn steel_endpoint_override(set: Option<&str>, config: &BrowserEngineFileConfig) -> (r: Option<
    String,
>)
    ensures
        text::opt_string_view(r) == steel_endpoint(
            text::opt_view(set),
            text::opt_string_view(config.steel_endpoint),
        ),
{
    match set {
        Some(v) => if !text::blank(v) {
            return Some(v.to_owned());
        },
        None => {},
    }
    match &config.steel_endpoint {
        Some(v) => if text::blank(v.as_str()) {
            None
        } else {
            Some(v.clone())
        },
        None => None,
    }
}

/// Whether Lightpanda can run: it runs natively here, or a wrapper for it is
/// there.
pub fn lightpanda_reachable(native: bool, wrapper_exists: bool) -> (r: bool)
    ensures
        r == (native || wrapper_exists),
{
    native || wrapper_exists
}

/// The browser that serves a dispatch: a configured endpoint always wins. Then
/// Lightpanda serves a dispatch that asks for it, where it can run, and Chrome
/// every other one.
pub open spec fn engine_for(
    endpoint: Option<Seq<char>>,
    requested: Option<Seq<char>>,
    lightpanda_reachable: bool,
) -> Engine {
    if endpoint is Some {
        Engine::Steel
    } else if requested == Some("lightpanda"@) && lightpanda_reachable {
        Engine::Lightpanda
    } else {
        Engine::Chrome
    }
}

/// Picks the browser for a dispatch.
pub fn select_engine(
    steel_set: Option<&str>,
    config: &BrowserEngineFileConfig,
    requested: Option<&str>,
    lightpanda_reachable: bool,
) -> (r: Engine)
    ensures
        r == engine_for(
            steel_endpoint(text::opt_view(steel_set), text::opt_string_view(config.steel_endpoint)),
            text::opt_view(requested),
            lightpanda_reachable,
        ),
{
    if steel_endpoint_override(steel_set, config).is_some() {
        return Engine::Steel;
    }
    let wants_lightpanda = match requested {
        Some(e) => text::str_eq(e, "lightpanda"),
        None => false,
    };
    if wants_lightpanda && lightpanda_reachable {
        Engine::Lightpanda
    } else {
        Engine::Chrome
    }
}

/// A dispatch that asks for nothing, or for something unknown, is served by
/// Chrome, unless an endpoint is configured: never by a browser that it did not
/// ask for.
pub proof fn law_unknown_requests_get_chrome(requested: Option<Seq<char>>, reachable: bool)
    requires
        requested != Some("lightpanda"@),
    ensures
        engine_for(None, requested, reachable) == Engine::Chrome,
{
}

/// Whether the host starts and owns the process of a browser; an endpoint is
/// only dialled.
pub fn owns_process(engine: Engine) -> (r: bool)
    ensures
        r == (engine != Engine::Steel),
{
    engine != Engine::Steel
}

/// The browser that an envelope asks for.
pub fn requested_engine_from_envelope(v: &Json) -> (r: Option<String>)
    ensures
        text::opt_string_view(r) == json::field_str(json::tree(*v), "engine"@),
{
    match v.str_field("engine") {
        Some(s) => Some(s.to_owned()),
        None => None,
    }
}

// ---------------------------------------------------------------------------
// Endpoints
// ---------------------------------------------------------------------------
/// An address without the scheme before it.
pub open spec fn without_scheme(s: Seq<char>) -> Seq<char> {
    match text::after_prefix(s, "http://"@) {
        Some(r) => r,
        None => match text::after_prefix(s, "ws://"@) {
            Some(r) => r,
            None => match text::after_prefix(s, "https://"@) {
                Some(r) => r,
                None => match text::after_prefix(s, "wss://"@) {
                    Some(r) => r,
                    None => s,
                },
            },
        },
    }
}

/// The port at the end of an endpoint, if there is one.
pub open spec fn endpoint_port(endpoint: Seq<char>) -> Option<nat> {
    let host_port = text::before_char(without_scheme(text::trimmed(endpoint)), '/');
    let port = match text::last_cut(host_port, ':') {
        Some((_, p)) => p,
        None => host_port,
    };
    text::parsed_uint(port, 0xffff)
}

fn cut_scheme(s: &str) -> (r: &str)
    ensures
        r@ == without_scheme(s@),
{
    match text::strip_prefix(s, "http://") {
        Some(r) => r,
        None => match text::strip_prefix(s, "ws://") {
            Some(r) => r,
            None => match text::strip_prefix(s, "https://") {
                Some(r) => r,
                None => match text::strip_prefix(s, "wss://") {
                    Some(r) => r,
                    None => s,
                },
            },
        },
    }
}

/// The error for an endpoint without a port.
pub open spec fn bad_endpoint(endpoint: Seq<char>) -> Seq<char> {
    "steel_endpoint '"@ + endpoint
        + "' does not end in a valid port number (expected host:port, e.g. 127.0.0.1:9223)"@
}

/// The port of an endpoint.
pub fn parse_steel_port(endpoint: &str) -> (r: Result<u16, String>)
    ensures
        match r {
            Ok(p) => endpoint_port(endpoint@) == Some(p as nat),
            Err(e) => endpoint_port(endpoint@) is None && e@ == bad_endpoint(endpoint@),
        },
{
    let (host_port, _) = text::cut(cut_scheme(text::trim(endpoint)), '/');
    let port = match text::rcut(host_port, ':') {
        Some((_, p)) => p,
        None => host_port,
    };
    match text::parse_uint(port, 0xffff) {
        Some(p) => Ok(p as u16),
        None => Err(
            text::add3(
                "steel_endpoint '",
                endpoint,
                "' does not end in a valid port number (expected host:port, e.g. 127.0.0.1:9223)",
            ),
        ),
    }
}

/// The error for an endpoint that does not answer.
pub fn steel_unreachable(endpoint: &str, port: u16, waited_ms: u64) -> (r: String)
    ensures
        r@ == "configured steel-browser endpoint '"@ + endpoint@ + "' (CDP port "@ + text::decimal(
            port as nat,
        ) + ") did not respond within "@ + text::decimal(waited_ms as nat)
            + "ms -- confirm the container is running (`docker run -p 3000:3000 -p 9223:9223 ghcr.io/steel-dev/steel-browser`) and that GM_STEEL_BROWSER_URL / .gm/browser-config.json's steel_endpoint points at its real host:port"@,
{
    let head = text::add5(
        "configured steel-browser endpoint '",
        endpoint,
        "' (CDP port ",
        text::u64_text(port as u64).as_str(),
        ") did not respond within ",
    );
    text::add3(
        head.as_str(),
        text::u64_text(waited_ms).as_str(),
        "ms -- confirm the container is running (`docker run -p 3000:3000 -p 9223:9223 ghcr.io/steel-dev/steel-browser`) and that GM_STEEL_BROWSER_URL / .gm/browser-config.json's steel_endpoint points at its real host:port",
    )
}

// ---------------------------------------------------------------------------
// Launching
// ---------------------------------------------------------------------------
/// The last `n` of a list, the last first.
pub open spec fn last_reversed(list: Seq<Seq<char>>, n: nat) -> Seq<Seq<char>>
    decreases n,
{
    if n == 0 || list.len() == 0 {
        Seq::empty()
    } else {
        seq![list.last()] + last_reversed(list.drop_last(), (n - 1) as nat)
    }
}

/// The last `n` lines of a log, the last first.
pub open spec fn log_tail(log: Seq<char>, n: nat) -> Seq<char> {
    text::joined(last_reversed(text::lines(log), n), " | "@)
}

/// The last `n` lines of a log, the last first.
pub fn tail_of_log(log: &str, n: usize) -> (r: String)
    ensures
        r@ == log_tail(log@, n as nat),
{
    let lines = text::lines_of(log);
    let ghost all = text::views(lines@);
    let mut out: Vec<&str> = Vec::new();
    let mut k: usize = 0;
    let mut at: usize = lines.len();
    assert(all.take(at as int) =~= all);
    assert(text::views(out@) + last_reversed(all, n as nat) =~= last_reversed(all, n as nat));
    while k < n && at > 0
        invariant
            all == text::views(lines@),
            k <= n,
            at <= lines@.len(),
            text::views(out@) + last_reversed(all.take(at as int), (n - k) as nat) == last_reversed(
                all,
                n as nat,
            ),
        decreases at,
    {
        let ghost before = out@;
        let ghost head = all.take(at as int);
        let s: &str = lines[at - 1];
        assert(head.last() == s@);
        assert(head.drop_last() =~= all.take(at - 1));
        out.push(s);
        assert(text::views(out@) =~= text::views(before).push(s@));
        assert(text::views(before) + (seq![s@] + last_reversed(all.take(at - 1), (n - k - 1) as nat))
            =~= text::views(out@) + last_reversed(all.take(at - 1), (n - k - 1) as nat));
        at -= 1;
        k += 1;
    }
    assert(text::views(out@) + Seq::<Seq<char>>::empty() =~= text::views(out@));
    let count: usize = out.len();
    assert(text::views(out@).take(count as int) =~= text::views(out@));
    text::join_strs(&out, count, " | ")
}

/// The error of a browser that was launched and did not answer: with the end
/// of its log, where it wrote one.
pub open spec fn not_ready(log: Option<Seq<char>>, waited_ms: nat) -> Seq<char> {
    let head = "lightpanda CDP endpoint did not become ready within "@ + text::decimal(waited_ms);
    match log {
        Some(l) => if log_tail(l, 5).len() > 0 {
            head + "ms (recent lightpanda output: "@ + log_tail(l, 5) + ")"@
        } else {
            head + "ms (lightpanda produced no output at all)"@
        },
        None => head + "ms (lightpanda produced no output at all)"@,
    }
}

pub fn lightpanda_not_ready(log: Option<&str>, waited_ms: u64) -> (r: String)
    ensures
        r@ == not_ready(text::opt_view(log), waited_ms as nat),
{
    let head = text::add2(
        "lightpanda CDP endpoint did not become ready within ",
        text::u64_text(waited_ms).as_str(),
    );
    match log {
        Some(l) => {
            let tail = tail_of_log(l, 5);
            if !tail.as_str().is_empty() {
                return text::add4(
                    head.as_str(),
                    "ms (recent lightpanda output: ",
                    tail.as_str(),
                    ")",
                );
            }
        },
        None => {},
    }
    text::add2(head.as_str(), "ms (lightpanda produced no output at all)")
}

/// The arguments with which Lightpanda is launched.
pub fn lightpanda_args(port: u16) -> (r: Vec<String>)
    ensures
        text::string_views(r@) == seq![
            "serve"@,
            "--host"@,
            "127.0.0.1"@,
            "--port"@,
            text::decimal(port as nat),
        ],
{
    let mut out: Vec<String> = Vec::new();
    out.push("serve".to_owned());
    out.push("--host".to_owned());
    out.push("127.0.0.1".to_owned());
    out.push("--port".to_owned());
    out.push(text::u64_text(port as u64));
    assert(text::string_views(out@) =~= seq![
        "serve"@,
        "--host"@,
        "127.0.0.1"@,
        "--port"@,
        text::decimal(port as nat),
    ]);
    out
}

/// Where Lightpanda is set to be: the path that is set, or the one in the
/// project's configuration, each where there is a file.
pub fn lightpanda_path_override(
    set: Option<&str>,
    set_exists: bool,
    config: &BrowserEngineFileConfig,
    configured_exists: bool,
) -> (r: Option<String>)
    ensures
        text::opt_string_view(r) == imports::first_of(
            if set_exists {
                text::opt_view(set)
            } else {
                None
            },
            if configured_exists {
                text::opt_string_view(config.lightpanda_path)
            } else {
                None
            },
        ),
{
    match set {
        Some(p) => if set_exists {
            return Some(p.to_owned());
        },
        None => {},
    }
    match &config.lightpanda_path {
        Some(p) => if configured_exists {
            Some(p.clone())
        } else {
            None
        },
        None => None,
    }
}

/// The endpoint that is set goes before the configured one; a blank one counts
/// for none.
pub proof fn law_set_endpoint_goes_first(set: Seq<char>, configured: Seq<char>)
    ensures
        !text::is_blank(set) ==> steel_endpoint(Some(set), Some(configured)) == Some(set),
        text::is_blank(set) && !text::is_blank(configured) ==> steel_endpoint(
            Some(set),
            Some(configured),
        ) == Some(configured),
        !text::is_blank(configured) ==> steel_endpoint(None, Some(configured)) == Some(configured),
        text::is_blank(set) && text::is_blank(configured) ==> steel_endpoint(
            Some(set),
            Some(configured),
        ) is None,
        steel_endpoint(None, None) is None,
{
}

/// An endpoint means Steel; else Lightpanda serves who asks for it where it can
/// be reached, and Chrome serves all others.
pub proof fn law_engine_is_the_one_asked_for(
    endpoint: Option<Seq<char>>,
    requested: Option<Seq<char>>,
    reachable: bool,
)
    ensures
        engine_for(endpoint, requested, reachable) == Engine::Steel <==> endpoint is Some,
        engine_for(endpoint, requested, reachable) == Engine::Lightpanda <==> endpoint is None && requested
            == Some("lightpanda"@) && reachable,
        engine_for(endpoint, requested, reachable) == Engine::Chrome <==> endpoint is None && !(requested
            == Some("lightpanda"@) && reachable),
{
}

/// The port of an endpoint is the number behind its host, with or without a
/// scheme before and a path behind it.
pub proof fn law_port_stands_behind_the_host(host: Seq<char>, port: u16, tail: Seq<char>)
    requires
        host.len() > 0,
        forall|i: int| 0 <= i < host.len() ==> text::is_alnum(#[trigger] host[i]) || host[i] == '.',
        tail.len() == 0 || (tail[0] == '/' && !text::is_space(tail.last())),
    ensures
        endpoint_port(host.push(':') + text::decimal(port as nat) + tail) == Some(port as nat),
        endpoint_port("http://"@ + (host.push(':') + text::decimal(port as nat) + tail)) == Some(
            port as nat,
        ),
        endpoint_port("ws://"@ + (host.push(':') + text::decimal(port as nat) + tail)) == Some(
            port as nat,
        ),
        endpoint_port("https://"@ + (host.push(':') + text::decimal(port as nat) + tail)) == Some(
            port as nat,
        ),
        endpoint_port("wss://"@ + (host.push(':') + text::decimal(port as nat) + tail)) == Some(
            port as nat,
        ),
{
    reveal_strlit("http://");
    reveal_strlit("ws://");
    reveal_strlit("https://");
    reveal_strlit("wss://");
    let d = text::decimal(port as nat);
    let hp = host.push(':') + d;
    let s = hp + tail;
    text::lemma_decimal(port as nat);
    text::law_decimal_reads_back(port as nat, 0xffff);
    assert(text::is_digit(d[0]) && text::is_digit(d[d.len() - 1]));
    assert(text::is_alnum(host[0]) || host[0] == '.');
    assert forall|j: int| 0 <= j < hp.len() implies hp[j] != '/' by {
        if j < host.len() {
            assert(text::is_alnum(host[j]) || host[j] == '.');
        } else if j > host.len() {
            assert(text::is_digit(d[j - host.len() - 1]));
        }
    }
    assert forall|j: int| 0 <= j < hp.len() implies s[j] != '/' by {
        assert(s[j] == hp[j]);
    }
    assert(s.last() == (if tail.len() == 0 {
        d[d.len() - 1]
    } else {
        tail.last()
    }));
    text::lemma_cut_at_is(s, '/', hp.len() as int);
    assert(text::before_char(s, '/') =~= hp);
    assert forall|j: int| 0 <= j < d.len() implies #[trigger] d[j] != ':' by {
        assert(text::is_digit(d[j]));
    }
    text::lemma_last_cut_is(host, ':', d);
    assert(s[0] == host[0]);
    lemma_bare_has_no_scheme(s, host.len() as int);
    assert(text::trimmed(s) == s);
    assert(endpoint_port(s) == Some(port as nat));
    lemma_scheme_goes("http://"@, s);
    lemma_scheme_goes("ws://"@, s);
    lemma_scheme_goes("https://"@, s);
    lemma_scheme_goes("wss://"@, s);
}

/// A host without a slash before its colon carries no scheme.
proof fn lemma_bare_has_no_scheme(s: Seq<char>, at: int)
    requires
        0 <= at < s.len(),
        s[at] == ':',
        forall|j: int| 0 <= j < at ==> s[j] != '/' && s[j] != ':',
        at + 1 < s.len() ==> s[at + 1] != '/',
    ensures
        without_scheme(s) == s,
{
    reveal_strlit("http://");
    reveal_strlit("ws://");
    reveal_strlit("https://");
    reveal_strlit("wss://");
    if "http://"@.is_prefix_of(s) {
        assert(s[4] == "http://"@[4] && s[5] == "http://"@[5]);
        assert forall|j: int| 0 <= j < 4 implies s[j] != ':' by {
            assert(s[j] == "http://"@[j]);
        }
        assert(at == 4);
    }
    if "ws://"@.is_prefix_of(s) {
        assert(s[2] == "ws://"@[2] && s[3] == "ws://"@[3]);
        assert forall|j: int| 0 <= j < 2 implies s[j] != ':' by {
            assert(s[j] == "ws://"@[j]);
        }
        assert(at == 2);
    }
    if "https://"@.is_prefix_of(s) {
        assert(s[5] == "https://"@[5] && s[6] == "https://"@[6]);
        assert forall|j: int| 0 <= j < 5 implies s[j] != ':' by {
            assert(s[j] == "https://"@[j]);
        }
        assert(at == 5);
    }
    if "wss://"@.is_prefix_of(s) {
        assert(s[3] == "wss://"@[3] && s[4] == "wss://"@[4]);
        assert forall|j: int| 0 <= j < 3 implies s[j] != ':' by {
            assert(s[j] == "wss://"@[j]);
        }
        assert(at == 3);
    }
}

proof fn lemma_scheme_goes(scheme: Seq<char>, s: Seq<char>)
    requires
        scheme == "http://"@ || scheme == "ws://"@ || scheme == "https://"@ || scheme == "wss://"@,
        s.len() > 0,
        !text::is_space(s.last()),
    ensures
        without_scheme(text::trimmed(scheme + s)) == s,
{
    reveal_strlit("http://");
    reveal_strlit("ws://");
    reveal_strlit("https://");
    reveal_strlit("wss://");
    let all = scheme + s;
    assert(all[0] == scheme[0] && all.last() == s.last());
    assert(text::trimmed(all) == all);
    assert(all.subrange(0, scheme.len() as int) =~= scheme);
    assert(all.skip(scheme.len() as int) =~= s);
    if "http://"@.is_prefix_of(all) {
        assert(all[4] == "http://"@[4] && all[1] == "http://"@[1]);
    }
    if "ws://"@.is_prefix_of(all) {
        assert(all[2] == "ws://"@[2] && all[0] == "ws://"@[0]);
    }
    if "https://"@.is_prefix_of(all) {
        assert(all[4] == "https://"@[4] && all[1] == "https://"@[1]);
    }
    if "wss://"@.is_prefix_of(all) {
        assert(all[2] == "wss://"@[2] && all[0] == "wss://"@[0]);
    }
}

/// The tail of a log is its last lines, the latest first.
pub proof fn law_log_tail_is_the_latest(list: Seq<Seq<char>>, n: nat, i: int)
    requires
        0 <= i < n,
        i < list.len(),
    ensures
        last_reversed(list, n).len() == (if n <= list.len() {
            n
        } else {
            list.len()
        }),
        last_reversed(list, n)[i] == list[list.len() - 1 - i],
    decreases n,
{
    if i == 0 {
        if n > 1 && list.len() > 1 {
            law_log_tail_is_the_latest(list.drop_last(), (n - 1) as nat, 0);
        } else {
            assert(last_reversed(list.drop_last(), (n - 1) as nat).len() == 0);
        }
    } else {
        law_log_tail_is_the_latest(list.drop_last(), (n - 1) as nat, i - 1);
    }
}

/// A browser that did not get ready is told by how long it was waited for, and
/// by its last five lines where it wrote any.
pub proof fn law_unready_browser_is_told(log: Seq<char>, waited_ms: nat)
    ensures
        not_ready(None, waited_ms) == "lightpanda CDP endpoint did not become ready within "@
            + text::decimal(waited_ms) + "ms (lightpanda produced no output at all)"@,
        ({
            let tail = text::joined(last_reversed(text::lines(log), 5), " | "@);
            tail.len() > 0 ==> not_ready(Some(log), waited_ms)
                == "lightpanda CDP endpoint did not become ready within "@ + text::decimal(waited_ms)
                + "ms (recent lightpanda output: "@ + tail + ")"@
        }),
{
}

} // verus!

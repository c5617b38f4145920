//! The lines that may stand before the script of a browser dispatch.
use crate::text;
use vstd::prelude::*;
use vstd::string::*;

verus! {

// ---------------------------------------------------------------------------
// One line
// ---------------------------------------------------------------------------
/// What follows `key` at the start of a body, leading white space aside.
pub open spec fn after_key(body: Seq<char>, key: Seq<char>) -> Option<Seq<char>> {
    text::after_prefix(text::trimmed_start(body), key)
}

pub fn strip_key<'a>(body: &'a str, key: &str) -> (r: Option<&'a str>)
    ensures
        text::opt_view(r) == after_key(body@, key@),
{
    text::strip_prefix(text::trim_start(body), key)
}

/// The rest of a body behind a key is shorter than the body.
pub proof fn lemma_after_key(body: Seq<char>, key: Seq<char>)
    requires
        key.len() > 0,
        after_key(body, key) is Some,
    ensures
        after_key(body, key)->0.len() < body.len(),
        text::after_char(after_key(body, key)->0, '\n').len() < body.len(),
{
    text::lemma_trimmed_start(body);
    text::lemma_cut_at(after_key(body, key)->0, '\n');
}

/// A line `sessionId=...`: the session that it names, if it names one, and
/// what follows. It needs a line end.
pub open spec fn session_id_line(body: Seq<char>) -> (Option<Seq<char>>, Seq<char>) {
    match after_key(body, "sessionId="@) {
        None => (None, body),
        Some(rest) => if !text::has_char(rest, '\n') {
            (None, body)
        } else {
            let id = text::trimmed(text::before_char(rest, '\n'));
            (
                if id.len() == 0 {
                    None
                } else {
                    Some(id)
                },
                text::after_char(rest, '\n'),
            )
        },
    }
}

pub fn strip_session_id_prefix(body: &str) -> (r: (Option<String>, &str))
    ensures
        (text::opt_string_view(r.0), r.1@) == session_id_line(body@),
{
    match strip_key(body, "sessionId=") {
        None => (None, body),
        Some(rest) => match text::cut(rest, '\n') {
            (_, None) => (None, body),
            (line, Some(remainder)) => {
                let id = text::trim(line);
                if id.is_empty() {
                    (None, remainder)
                } else {
                    (Some(id.to_owned()), remainder)
                }
            },
        },
    }
}

/// A line `timeout=...`: the number that it names, and what follows. It needs
/// a line end and a number.
pub open spec fn timeout_line(body: Seq<char>) -> Option<(nat, Seq<char>)> {
    match after_key(body, "timeout="@) {
        None => None,
        Some(rest) => if !text::has_char(rest, '\n') {
            None
        } else {
            match text::parsed_uint(
                text::trimmed(text::before_char(rest, '\n')),
                u64::MAX as nat,
            ) {
                Some(ms) => Some((ms, text::after_char(rest, '\n'))),
                None => None,
            }
        },
    }
}

pub fn strip_timeout_prefix(body: &str) -> (r: Option<(u64, &str)>)
    ensures
        match r {
            Some((ms, rest)) => timeout_line(body@) == Some((ms as nat, rest@)),
            None => timeout_line(body@) is None,
        },
{
    match strip_key(body, "timeout=") {
        None => None,
        Some(rest) => match text::cut(rest, '\n') {
            (_, None) => None,
            (line, Some(remainder)) => match text::parse_u64(text::trim(line)) {
                Some(ms) => Some((ms, remainder)),
                None => None,
            },
        },
    }
}

/// What a key is given on its line, trimmed, and what follows the line.
pub open spec fn value_line(body: Seq<char>, key: Seq<char>) -> Option<(Seq<char>, Seq<char>)> {
    match after_key(body, key) {
        None => None,
        Some(rest) => Some(
            (text::trimmed(text::before_char(rest, '\n')), text::after_char(rest, '\n')),
        ),
    }
}

fn strip_value<'a>(body: &'a str, key: &str) -> (r: Option<(String, &'a str)>)
    ensures
        match r {
            Some((v, rest)) => value_line(body@, key@) == Some((v@, rest@)),
            None => value_line(body@, key@) is None,
        },
{
    match strip_key(body, key) {
        None => None,
        Some(rest) => match text::cut(rest, '\n') {
            (line, Some(remainder)) => Some((text::trim(line).to_owned(), remainder)),
            (line, None) => {
                let n: usize = rest.unicode_len();
                assert(rest@.subrange(n as int, n as int) =~= Seq::<char>::empty());
                Some((text::trim(line).to_owned(), rest.substring_char(n, n)))
            },
        },
    }
}

/// A line `dom=...`: the selector, and what follows.
pub open spec fn dom_line(body: Seq<char>) -> Option<(Seq<char>, Seq<char>)> {
    value_line(body, "dom="@)
}

pub fn strip_dom_prefix(body: &str) -> (r: Option<(String, &str)>)
    ensures
        match r {
            Some((v, rest)) => dom_line(body@) == Some((v@, rest@)),
            None => dom_line(body@) is None,
        },
{
    strip_value(body, "dom=")
}

/// What is run when nothing but an address is given.
pub open spec fn address_script() -> Seq<char> {
    "return {url: location.href};"@
}

/// An address line: `url=...`, or an address itself. Gives the address, the
/// script that goes with it, and what follows. An address that is all there is
/// comes with a script that tells where the page went.
pub open spec fn url_line(body: Seq<char>) -> Option<(Seq<char>, Seq<char>, Seq<char>)> {
    match value_line(body, "url="@) {
        Some((u, rest)) => Some((u, Seq::empty(), rest)),
        None => {
            let t = text::trimmed_start(body);
            if "http://"@.is_prefix_of(t) || "https://"@.is_prefix_of(t) {
                Some(
                    (
                        text::trimmed(text::before_char(t, '\n')),
                        if text::has_char(t, '\n') {
                            Seq::empty()
                        } else {
                            address_script()
                        },
                        text::after_char(t, '\n'),
                    ),
                )
            } else {
                None
            }
        },
    }
}

pub fn strip_url_prefix(body: &str) -> (r: Option<(String, String, &str)>)
    ensures
        match r {
            Some((u, script, rest)) => url_line(body@) == Some((u@, script@, rest@)),
            None => url_line(body@) is None,
        },
{
    match strip_value(body, "url=") {
        Some((u, rest)) => {
            let none = String::new();
            assert(none@ =~= Seq::<char>::empty());
            Some((u, none, rest))
        },
        None => {
            let t = text::trim_start(body);
            if text::starts_with(t, "http://") || text::starts_with(t, "https://") {
                match text::cut(t, '\n') {
                    (line, Some(rest)) => {
                        let none = String::new();
                        assert(none@ =~= Seq::<char>::empty());
                        Some((text::trim(line).to_owned(), none, rest))
                    },
                    (line, None) => {
                        let n: usize = t.unicode_len();
                        assert(t@.subrange(n as int, n as int) =~= Seq::<char>::empty());
                        Some(
                            (
                                text::trim(line).to_owned(),
                                "return {url: location.href};".to_owned(),
                                t.substring_char(n, n),
                            ),
                        )
                    },
                }
            } else {
                None
            }
        },
    }
}

// ---------------------------------------------------------------------------
// Modes
// ---------------------------------------------------------------------------
/// What a browser dispatch is for.
#[derive(Debug, Clone, Copy, PartialEq, Eq, Structural)]
pub enum BrowserMode {
    Default,
    Capture,
    Profile,
    Trace,
    Screenshot,
    Dom,
}

/// The name of a mode.
pub open spec fn mode_name(mode: BrowserMode) -> Seq<char> {
    match mode {
        BrowserMode::Default => "default"@,
        BrowserMode::Capture => "capture"@,
        BrowserMode::Profile => "profile"@,
        BrowserMode::Trace => "trace"@,
        BrowserMode::Screenshot => "screenshot"@,
        BrowserMode::Dom => "dom"@,
    }
}

pub fn mode_label(mode: BrowserMode) -> (r: &'static str)
    ensures
        r@ == mode_name(mode),
{
    match mode {
        BrowserMode::Default => "default",
        BrowserMode::Capture => "capture",
        BrowserMode::Profile => "profile",
        BrowserMode::Trace => "trace",
        BrowserMode::Screenshot => "screenshot",
        BrowserMode::Dom => "dom",
    }
}

/// A mode line: the mode, the name or selector that comes with it, and what
/// follows.
pub open spec fn mode_line(body: Seq<char>) -> Option<(BrowserMode, Seq<char>, Seq<char>)> {
    match after_key(body, "capture\n"@) {
        Some(rest) => Some((BrowserMode::Capture, Seq::empty(), rest)),
        None => match after_key(body, "profile\n"@) {
            Some(rest) => Some((BrowserMode::Profile, Seq::empty(), rest)),
            None => match after_key(body, "trace\n"@) {
                Some(rest) => Some((BrowserMode::Trace, Seq::empty(), rest)),
                None => match after_key(body, "screenshot\n"@) {
                    Some(rest) => Some((BrowserMode::Screenshot, Seq::empty(), rest)),
                    None => match value_line(body, "screenshot="@) {
                        Some((name, rest)) => Some((BrowserMode::Screenshot, name, rest)),
                        None => match dom_line(body) {
                            Some((selector, rest)) => Some((BrowserMode::Dom, selector, rest)),
                            None => None,
                        },
                    },
                },
            },
        },
    }
}

fn bare(mode: BrowserMode, rest: &str) -> (r: Option<(BrowserMode, String, &str)>)
    ensures
        r matches Some(t) && t.0 == mode && t.1@ == Seq::<char>::empty() && t.2@ == rest@,
{
    let none = String::new();
    assert(none@ =~= Seq::<char>::empty());
    Some((mode, none, rest))
}

pub fn strip_mode_prefix(body: &str) -> (r: Option<(BrowserMode, String, &str)>)
    ensures
        match r {
            Some((m, name, rest)) => mode_line(body@) == Some((m, name@, rest@)),
            None => mode_line(body@) is None,
        },
{
    match strip_key(body, "capture\n") {
        Some(rest) => {
            return bare(BrowserMode::Capture, rest);
        },
        None => {},
    }
    match strip_key(body, "profile\n") {
        Some(rest) => {
            return bare(BrowserMode::Profile, rest);
        },
        None => {},
    }
    match strip_key(body, "trace\n") {
        Some(rest) => {
            return bare(BrowserMode::Trace, rest);
        },
        None => {},
    }
    match strip_key(body, "screenshot\n") {
        Some(rest) => {
            return bare(BrowserMode::Screenshot, rest);
        },
        None => {},
    }
    match strip_value(body, "screenshot=") {
        Some((name, rest)) => {
            return Some((BrowserMode::Screenshot, name, rest));
        },
        None => {},
    }
    match strip_dom_prefix(body) {
        Some((selector, rest)) => Some((BrowserMode::Dom, selector, rest)),
        None => None,
    }
}

// ---------------------------------------------------------------------------
// Viewports
// ---------------------------------------------------------------------------
/// The size of a page: width and height, the text of the scale where one is
/// given, and whether the page is that of a mobile device.
pub struct Viewport {
    pub width: u32,
    pub height: u32,
    pub scale: Option<String>,
    pub mobile: bool,
}

/// A viewport as a value.
#[verifier::ext_equal]
pub struct ViewportView {
    pub width: nat,
    pub height: nat,
    pub scale: Option<Seq<char>>,
    pub mobile: bool,
}

impl View for Viewport {
    type V = ViewportView;

    open spec fn view(&self) -> ViewportView {
        ViewportView {
            width: self.width as nat,
            height: self.height as nat,
            scale: text::opt_string_view(self.scale),
            mobile: self.mobile,
        }
    }
}

/// A viewport as it is written: `<width>x<height>`, then `@<scale>`, then
/// `!mobile`, the last two at will. Neither side may be zero.
pub open spec fn viewport_of(spec_text: Seq<char>) -> Option<ViewportView> {
    let (sized, mobile) = match text::before_suffix(spec_text, "!mobile"@) {
        Some(s) => (s, true),
        None => (spec_text, false),
    };
    let dims = text::trimmed(text::before_char(sized, '@'));
    let scale = if text::has_char(sized, '@') {
        Some(text::trimmed(text::after_char(sized, '@')))
    } else {
        None
    };
    if !text::has_char(dims, 'x') {
        None
    } else {
        match (
            text::parsed_uint(text::trimmed(text::before_char(dims, 'x')), u32::MAX as nat),
            text::parsed_uint(text::trimmed(text::after_char(dims, 'x')), u32::MAX as nat),
        ) {
            (Some(width), Some(height)) => if width > 0 && height > 0 {
                Some(ViewportView { width, height, scale, mobile })
            } else {
                None
            },
            _ => None,
        }
    }
}

/// A line `viewport=...`: the viewport, and what follows. It needs a line end
/// and a viewport.
pub open spec fn viewport_line(body: Seq<char>) -> Option<(ViewportView, Seq<char>)> {
    match after_key(body, "viewport="@) {
        None => None,
        Some(rest) => if !text::has_char(rest, '\n') {
            None
        } else {
            match viewport_of(text::before_char(rest, '\n')) {
                Some(v) => Some((v, text::after_char(rest, '\n'))),
                None => None,
            }
        },
    }
}

fn parse_viewport(spec_text: &str) -> (r: Option<Viewport>)
    ensures
        match r {
            Some(v) => viewport_of(spec_text@) == Some(v@),
            None => viewport_of(spec_text@) is None,
        },
{
    let (sized, mobile) = match text::strip_suffix(spec_text, "!mobile") {
        Some(s) => (s, true),
        None => (spec_text, false),
    };
    let (dims, scale_text) = text::cut(sized, '@');
    let scale = match scale_text {
        Some(s) => Some(text::trim(s).to_owned()),
        None => None,
    };
    match text::cut(text::trim(dims), 'x') {
        (_, None) => None,
        (w, Some(h)) => match (text::parse_u32(text::trim(w)), text::parse_u32(text::trim(h))) {
            (Some(width), Some(height)) => if width > 0 && height > 0 {
                Some(Viewport { width, height, scale, mobile })
            } else {
                None
            },
            _ => None,
        },
    }
}

pub fn strip_viewport_width_height_scale_mobile_prefix(body: &str) -> (r: Option<(Viewport, &str)>)
    ensures
        match r {
            Some((v, rest)) => viewport_line(body@) == Some((v@, rest@)),
            None => viewport_line(body@) is None,
        },
{
    match strip_key(body, "viewport=") {
        None => None,
        Some(rest) => match text::cut(rest, '\n') {
            (_, None) => None,
            (line, Some(remainder)) => match parse_viewport(line) {
                Some(v) => Some((v, remainder)),
                None => None,
            },
        },
    }
}

// ---------------------------------------------------------------------------
// All lines
// ---------------------------------------------------------------------------
/// What the lines before a script say.
pub struct ScriptPrefixes {
    pub timeout_ms: Option<u64>,
    pub mode: BrowserMode,
    pub mode_name: String,
    pub viewport: Option<Viewport>,
    pub start_url: Option<String>,
    pub url_script: String,
}

/// What the lines before a script say, as a value.
#[verifier::ext_equal]
pub struct PrefixView {
    pub timeout_ms: Option<nat>,
    pub mode: BrowserMode,
    pub mode_name: Seq<char>,
    pub viewport: Option<ViewportView>,
    pub start_url: Option<Seq<char>>,
    pub url_script: Seq<char>,
}

/// The view of an optional viewport.
pub open spec fn opt_viewport(o: Option<Viewport>) -> Option<ViewportView> {
    match o {
        Some(v) => Some(v@),
        None => None,
    }
}

impl View for ScriptPrefixes {
    type V = PrefixView;

    open spec fn view(&self) -> PrefixView {
        PrefixView {
            timeout_ms: crate::imports::opt_nat(self.timeout_ms),
            mode: self.mode,
            mode_name: self.mode_name@,
            viewport: opt_viewport(self.viewport),
            start_url: text::opt_string_view(self.start_url),
            url_script: self.url_script@,
        }
    }
}

/// No line says anything.
pub open spec fn no_prefixes() -> PrefixView {
    PrefixView {
        timeout_ms: None,
        mode: BrowserMode::Default,
        mode_name: Seq::empty(),
        viewport: None,
        start_url: None,
        url_script: Seq::empty(),
    }
}

/// Takes a time, mode or viewport line off a body.
pub open spec fn setting_line(p: PrefixView, body: Seq<char>) -> Option<(PrefixView, Seq<char>)> {
    match timeout_line(body) {
        Some((ms, rest)) => Some((PrefixView { timeout_ms: Some(ms), ..p }, rest)),
        None => match mode_line(body) {
            Some((mode, mode_name, rest)) => Some((PrefixView { mode, mode_name, ..p }, rest)),
            None => match viewport_line(body) {
                Some((v, rest)) => Some((PrefixView { viewport: Some(v), ..p }, rest)),
                None => None,
            },
        },
    }
}

/// Takes one line off a body, if it is one of those that may stand before a
/// script. Only the first address counts; a second one belongs to the script.
pub open spec fn one_line(p: PrefixView, body: Seq<char>) -> Option<(PrefixView, Seq<char>)> {
    match setting_line(p, body) {
        Some(x) => Some(x),
        None => if p.start_url is None {
            match url_line(body) {
                Some((u, url_script, rest)) => Some(
                    (PrefixView { start_url: Some(u), url_script, ..p }, rest),
                ),
                None => None,
            }
        } else {
            None
        },
    }
}

/// A line that was taken off leaves a shorter body.
pub proof fn lemma_one_line_shrinks(p: PrefixView, body: Seq<char>)
    requires
        one_line(p, body) is Some,
    ensures
        (one_line(p, body)->0).1.len() < body.len(),
{
    reveal_strlit("timeout=");
    reveal_strlit("capture\n");
    reveal_strlit("profile\n");
    reveal_strlit("trace\n");
    reveal_strlit("screenshot\n");
    reveal_strlit("screenshot=");
    reveal_strlit("dom=");
    reveal_strlit("viewport=");
    reveal_strlit("url=");
    reveal_strlit("http://");
    reveal_strlit("https://");
    if timeout_line(body) is Some {
        lemma_after_key(body, "timeout="@);
    } else if mode_line(body) is Some {
        if after_key(body, "capture\n"@) is Some {
            lemma_after_key(body, "capture\n"@);
        } else if after_key(body, "profile\n"@) is Some {
            lemma_after_key(body, "profile\n"@);
        } else if after_key(body, "trace\n"@) is Some {
            lemma_after_key(body, "trace\n"@);
        } else if after_key(body, "screenshot\n"@) is Some {
            lemma_after_key(body, "screenshot\n"@);
        } else if after_key(body, "screenshot="@) is Some {
            lemma_after_key(body, "screenshot="@);
        } else {
            lemma_after_key(body, "dom="@);
        }
    } else if viewport_line(body) is Some {
        lemma_after_key(body, "viewport="@);
    } else if after_key(body, "url="@) is Some {
        lemma_after_key(body, "url="@);
    } else {
        let t = text::trimmed_start(body);
        text::lemma_trimmed_start(body);
        text::lemma_cut_at(t, '\n');
        assert(t.len() > 0);
    }
}

/// Takes all lines off a body that may stand before a script.
pub open spec fn all_lines(p: PrefixView, body: Seq<char>) -> (PrefixView, Seq<char>)
    decreases body.len(),
    via all_lines_shrink
{
    match one_line(p, body) {
        Some((q, rest)) => all_lines(q, rest),
        None => (p, body),
    }
}

#[via_fn]
proof fn all_lines_shrink(p: PrefixView, body: Seq<char>) {
    if one_line(p, body) is Some {
        lemma_one_line_shrinks(p, body);
    }
}

/// Parts the lines before a script from the script.
pub fn strip_all(body: &str) -> (r: (ScriptPrefixes, &str))
    ensures
        (r.0@, r.1@) == all_lines(no_prefixes(), body@),
{
    let mut p = ScriptPrefixes {
        timeout_ms: None,
        mode: BrowserMode::Default,
        mode_name: String::new(),
        viewport: None,
        start_url: None,
        url_script: String::new(),
    };
    assert(p@ =~= no_prefixes());
    let mut rest: &str = body;
    loop
        invariant
            all_lines(p@, rest@) == all_lines(no_prefixes(), body@),
        decreases rest@.len(),
    {
        let ghost before = p@;
        proof {
            if one_line(before, rest@) is Some {
                lemma_one_line_shrinks(before, rest@);
            }
        }
        match strip_timeout_prefix(rest) {
            Some((ms, after)) => {
                p.timeout_ms = Some(ms);
                rest = after;
                continue;
            },
            None => {},
        }
        match strip_mode_prefix(rest) {
            Some((mode, name, after)) => {
                p.mode = mode;
                p.mode_name = name;
                rest = after;
                continue;
            },
            None => {},
        }
        match strip_viewport_width_height_scale_mobile_prefix(rest) {
            Some((v, after)) => {
                p.viewport = Some(v);
                rest = after;
                continue;
            },
            None => {},
        }
        if p.start_url.is_none() {
            match strip_url_prefix(rest) {
                Some((u, script, after)) => {
                    p.start_url = Some(u);
                    p.url_script = script;
                    rest = after;
                    continue;
                },
                None => {},
            }
        }
        return (p, rest);
    }
}

// ---------------------------------------------------------------------------
// Laws
// ---------------------------------------------------------------------------
/// What follows a value and a line end.
proof fn lemma_value_cut(value: Seq<char>, rest: Seq<char>)
    requires
        !text::has_char(value, '\n'),
    ensures
        text::before_char(value + seq!['\n'] + rest, '\n') == value,
        text::after_char(value + seq!['\n'] + rest, '\n') == rest,
        text::has_char(value + seq!['\n'] + rest, '\n'),
{
    let s = value + seq!['\n'] + rest;
    text::lemma_cut_at(value, '\n');
    assert forall|j: int| 0 <= j < value.len() implies s[j] != '\n' by {
        assert(s[j] == value[j]);
    }
    text::lemma_cut_at_is(s, '\n', value.len() as int);
    assert(s.take(value.len() as int) =~= value);
    assert(s.skip(value.len() as int + 1) =~= rest);
}

/// Whether a key on one line is there depends on that line alone.
proof fn lemma_key_local(line: Seq<char>, key: Seq<char>, rest: Seq<char>)
    requires
        line.len() > 0,
        key.len() > 0,
        !text::is_space(line[0]),
        forall|i: int| 0 <= i < key.len() ==> #[trigger] key[i] != '\n',
    ensures
        after_key(line + seq!['\n'] + rest, key) == (if key.is_prefix_of(line) {
            Some(line.skip(key.len() as int) + seq!['\n'] + rest)
        } else {
            None
        }),
{
    let body = line + seq!['\n'] + rest;
    assert(body[0] == line[0]);
    assert(text::trimmed_start(body) == body);
    if key.is_prefix_of(line) {
        assert(key =~= body.subrange(0, key.len() as int));
        assert(body.skip(key.len() as int) =~= line.skip(key.len() as int) + seq!['\n'] + rest);
    } else if key.is_prefix_of(body) {
        if key.len() > line.len() {
            assert(body.subrange(0, key.len() as int)[line.len() as int] == '\n');
            assert(key[line.len() as int] == '\n');
        } else {
            assert(key =~= line.subrange(0, key.len() as int));
        }
    }
}

/// Whether a line is a bare word depends on that line alone.
proof fn lemma_word_local(line: Seq<char>, word: Seq<char>, rest: Seq<char>)
    requires
        line.len() > 0,
        !text::is_space(line[0]),
        !text::has_char(line, '\n'),
        forall|i: int| 0 <= i < word.len() ==> #[trigger] word[i] != '\n',
    ensures
        after_key(line + seq!['\n'] + rest, word.push('\n')) == (if line == word {
            Some(rest)
        } else {
            None
        }),
{
    let body = line + seq!['\n'] + rest;
    let key = word.push('\n');
    text::lemma_cut_at(line, '\n');
    assert(body[0] == line[0]);
    assert(text::trimmed_start(body) == body);
    if line == word {
        assert(key =~= body.subrange(0, key.len() as int));
        assert(body.skip(key.len() as int) =~= rest);
    } else if key.is_prefix_of(body) {
        let head = body.subrange(0, key.len() as int);
        assert(head == key);
        if word.len() < line.len() {
            assert(head[word.len() as int] == line[word.len() as int]);
        } else if word.len() > line.len() {
            assert(head[line.len() as int] == '\n');
            assert(key[line.len() as int] == word[line.len() as int]);
        } else {
            assert forall|i: int| 0 <= i < line.len() implies line[i] == word[i] by {
                assert(head[i] == key[i]);
            }
            assert(line =~= word);
        }
    }
}

/// Where each key of a line stands.
proof fn lemma_line_keys(line: Seq<char>, rest: Seq<char>)
    requires
        line.len() > 0,
        !text::is_space(line[0]),
        !text::has_char(line, '\n'),
    ensures
        ({
            let body = line + seq!['\n'] + rest;
            &&& after_key(body, "timeout="@) == keyed_line(line, "timeout="@, rest)
            &&& after_key(body, "screenshot="@) == keyed_line(line, "screenshot="@, rest)
            &&& after_key(body, "dom="@) == keyed_line(line, "dom="@, rest)
            &&& after_key(body, "viewport="@) == keyed_line(line, "viewport="@, rest)
            &&& after_key(body, "url="@) == keyed_line(line, "url="@, rest)
            &&& after_key(body, "http://"@) == keyed_line(line, "http://"@, rest)
            &&& after_key(body, "https://"@) == keyed_line(line, "https://"@, rest)
            &&& after_key(body, "capture\n"@) == (if line == "capture"@ {
                Some(rest)
            } else {
                None
            })
            &&& after_key(body, "profile\n"@) == (if line == "profile"@ {
                Some(rest)
            } else {
                None
            })
            &&& after_key(body, "trace\n"@) == (if line == "trace"@ {
                Some(rest)
            } else {
                None
            })
            &&& after_key(body, "screenshot\n"@) == (if line == "screenshot"@ {
                Some(rest)
            } else {
                None
            })
        }),
{
    reveal_strlit("timeout=");
    reveal_strlit("screenshot=");
    reveal_strlit("dom=");
    reveal_strlit("viewport=");
    reveal_strlit("url=");
    reveal_strlit("http://");
    reveal_strlit("https://");
    reveal_strlit("capture\n");
    reveal_strlit("profile\n");
    reveal_strlit("trace\n");
    reveal_strlit("screenshot\n");
    reveal_strlit("capture");
    reveal_strlit("profile");
    reveal_strlit("trace");
    reveal_strlit("screenshot");
    assert("capture\n"@ =~= "capture"@.push('\n'));
    assert("profile\n"@ =~= "profile"@.push('\n'));
    assert("trace\n"@ =~= "trace"@.push('\n'));
    assert("screenshot\n"@ =~= "screenshot"@.push('\n'));
    lemma_key_local(line, "timeout="@, rest);
    lemma_key_local(line, "screenshot="@, rest);
    lemma_key_local(line, "dom="@, rest);
    lemma_key_local(line, "viewport="@, rest);
    lemma_key_local(line, "url="@, rest);
    lemma_key_local(line, "http://"@, rest);
    lemma_key_local(line, "https://"@, rest);
    lemma_word_local(line, "capture"@, rest);
    lemma_word_local(line, "profile"@, rest);
    lemma_word_local(line, "trace"@, rest);
    lemma_word_local(line, "screenshot"@, rest);
}

/// What follows a key that stands at the start of a line.
spec fn keyed_line(line: Seq<char>, key: Seq<char>, rest: Seq<char>) -> Option<Seq<char>> {
    if key.is_prefix_of(line) {
        Some(line.skip(key.len() as int) + seq!['\n'] + rest)
    } else {
        None
    }
}

/// What stands at the start of a body decides how its white space ends.
proof fn lemma_trimmed_start_of_line(line: Seq<char>, tail: Seq<char>)
    requires
        text::trimmed_start(line).len() > 0,
    ensures
        text::trimmed_start(line + tail) == text::trimmed_start(line) + tail,
        !text::has_char(line, '\n') ==> !text::has_char(text::trimmed_start(line), '\n'),
    decreases line.len(),
{
    if line.len() > 0 && text::is_space(line[0]) {
        assert((line + tail).skip(1) =~= line.skip(1) + tail);
        text::lemma_cut_at(line, '\n');
        text::lemma_cut_at(line.skip(1), '\n');
        if !text::has_char(line, '\n') && text::has_char(line.skip(1), '\n') {
            let i = text::cut_at(line.skip(1), '\n') as int;
            assert(line.skip(1)[i] == line[i + 1]);
        }
        lemma_trimmed_start_of_line(line.skip(1), tail);
    } else {
        assert((line + tail)[0] == line[0]);
    }
}

/// Whether a text is one line that says something.
pub open spec fn is_one_line(line: Seq<char>) -> bool {
    !text::has_char(line, '\n') && text::trimmed_start(line).len() > 0
}

/// What a line says depends on that line alone.
proof fn lemma_line_local(line: Seq<char>, rest: Seq<char>)
    requires
        is_one_line(line),
    ensures
        ({
            let body = line + seq!['\n'] + rest;
            let alone = line + seq!['\n'];
            &&& timeout_line(body) == (match timeout_line(alone) {
                Some((ms, _)) => Some((ms, rest)),
                None => None,
            })
            &&& mode_line(body) == (match mode_line(alone) {
                Some((mode, name, _)) => Some((mode, name, rest)),
                None => None,
            })
            &&& viewport_line(body) == (match viewport_line(alone) {
                Some((v, _)) => Some((v, rest)),
                None => None,
            })
            &&& url_line(body) == (match url_line(alone) {
                Some((u, script, _)) => Some((u, script, rest)),
                None => None,
            })
        }),
{
    let core = text::trimmed_start(line);
    let nothing = Seq::<char>::empty();
    let body = line + seq!['\n'] + rest;
    let alone = line + seq!['\n'];
    lemma_trimmed_start_of_line(line, seq!['\n'] + rest);
    lemma_trimmed_start_of_line(line, seq!['\n']);
    text::lemma_trimmed_start(line);
    assert(body =~= line + (seq!['\n'] + rest));
    assert(core + (seq!['\n'] + rest) =~= core + seq!['\n'] + rest);
    assert(core + seq!['\n'] =~= core + seq!['\n'] + nothing);
    assert((core + seq!['\n'] + rest)[0] == core[0]);
    assert((core + seq!['\n'] + nothing)[0] == core[0]);
    assert forall|key: Seq<char>|
        after_key(body, key) == after_key(core + seq!['\n'] + rest, key) && after_key(alone, key)
            == after_key(core + seq!['\n'] + nothing, key) by {}
    assert forall|r: Seq<char>, key: Seq<char>|
        key.is_prefix_of(core) implies text::before_char(
        core.skip(key.len() as int) + seq!['\n'] + r,
        '\n',
    ) == core.skip(key.len() as int) && text::after_char(
        #[trigger] (core.skip(key.len() as int) + seq!['\n'] + r),
        '\n',
    ) == r && text::has_char(core.skip(key.len() as int) + seq!['\n'] + r, '\n') by {
        let v = core.skip(key.len() as int);
        text::lemma_cut_at(core, '\n');
        text::lemma_cut_at(v, '\n');
        if text::has_char(v, '\n') {
            let i = text::cut_at(v, '\n') as int;
            assert(v[i] == core[i + key.len()]);
        }
        lemma_value_cut(v, r);
    }
    lemma_value_cut(core, rest);
    lemma_value_cut(core, nothing);
    lemma_line_keys(core, rest);
    lemma_line_keys(core, nothing);
}

/// What a line before a script is about.
pub enum LineKind {
    Time,
    Mode,
    Viewport,
    Address,
}

/// What a line is about, if it is one of those that may stand before a script.
pub open spec fn line_kind(line: Seq<char>) -> Option<LineKind> {
    let alone = line + seq!['\n'];
    if timeout_line(alone) is Some {
        Some(LineKind::Time)
    } else if mode_line(alone) is Some {
        Some(LineKind::Mode)
    } else if viewport_line(alone) is Some {
        Some(LineKind::Viewport)
    } else if url_line(alone) is Some {
        Some(LineKind::Address)
    } else {
        None
    }
}

/// The lines before a script stack in any order: two lines that are about
/// different things say the same, whichever comes first. An address that comes
/// behind another one belongs to the script, and so stays where it is.
pub proof fn law_lines_stack_in_any_order(
    p: PrefixView,
    first: Seq<char>,
    second: Seq<char>,
    rest: Seq<char>,
)
    requires
        is_one_line(first) && line_kind(first) is Some,
        is_one_line(second) && line_kind(second) is Some,
        line_kind(first) != line_kind(second),
        p.start_url is None || (line_kind(first) != Some(LineKind::Address) && line_kind(second)
            != Some(LineKind::Address)),
    ensures
        all_lines(p, first + seq!['\n'] + (second + seq!['\n'] + rest)) == all_lines(
            p,
            second + seq!['\n'] + (first + seq!['\n'] + rest),
        ),
{
    let one = first + seq!['\n'] + rest;
    let two = second + seq!['\n'] + rest;
    lemma_line_local(first, two);
    lemma_line_local(first, rest);
    lemma_line_local(second, one);
    lemma_line_local(second, rest);
    let p_first = (one_line(p, first + seq!['\n'] + two)->0).0;
    let p_second = (one_line(p, second + seq!['\n'] + one)->0).0;
    assert(one_line(p, first + seq!['\n'] + two) == Some((p_first, two)));
    assert(one_line(p, second + seq!['\n'] + one) == Some((p_second, one)));
    let both = (one_line(p_first, two)->0).0;
    assert(one_line(p_first, two) == Some((both, rest)));
    assert(one_line(p_second, one) == Some((both, rest)));
    assert(all_lines(p, first + seq!['\n'] + two) == all_lines(p_first, two));
    assert(all_lines(p_first, two) == all_lines(both, rest));
    assert(all_lines(p, second + seq!['\n'] + one) == all_lines(p_second, one));
    assert(all_lines(p_second, one) == all_lines(both, rest));
}

/// A text without white space at its ends is left alone by trimming.
proof fn lemma_trimmed_is(s: Seq<char>)
    requires
        s.len() > 0 ==> !text::is_space(s[0]) && !text::is_space(s.last()),
    ensures
        text::trimmed(s) == s,
{
}

/// How the keys begin.
proof fn lemma_keys_begin()
    ensures
        "timeout="@.len() == 8 && "timeout="@[0] == 't' && "timeout="@[1] == 'i',
        "screenshot="@.len() == 11 && "screenshot="@[0] == 's',
        "screenshot"@.len() == 10 && "screenshot"@[0] == 's',
        "dom="@.len() == 4 && "dom="@[0] == 'd',
        "viewport="@.len() == 9 && "viewport="@[0] == 'v',
        "url="@.len() == 4 && "url="@[0] == 'u',
        "http://"@.len() == 7 && "http://"@[0] == 'h' && "http://"@[4] == ':',
        "https://"@.len() == 8 && "https://"@[0] == 'h' && "https://"@[4] == 's',
        "capture"@.len() == 7 && "capture"@[0] == 'c',
        "profile"@.len() == 7 && "profile"@[0] == 'p',
        "trace"@.len() == 5 && "trace"@[0] == 't' && "trace"@[1] == 'r',
        "capture"@.last() == 'e' && "profile"@.last() == 'e' && "trace"@.last() == 'e'
            && "screenshot"@.last() == 't',
        forall|i: int| 0 <= i < 8 ==> #[trigger] "timeout="@[i] != '\n',
        forall|i: int| 0 <= i < 11 ==> #[trigger] "screenshot="@[i] != '\n',
        forall|i: int| 0 <= i < 10 ==> #[trigger] "screenshot"@[i] != '\n',
        forall|i: int| 0 <= i < 4 ==> #[trigger] "dom="@[i] != '\n',
        forall|i: int| 0 <= i < 9 ==> #[trigger] "viewport="@[i] != '\n',
        forall|i: int| 0 <= i < 4 ==> #[trigger] "url="@[i] != '\n',
        forall|i: int| 0 <= i < 7 ==> #[trigger] "http://"@[i] != '\n',
        forall|i: int| 0 <= i < 8 ==> #[trigger] "https://"@[i] != '\n',
        forall|i: int| 0 <= i < 7 ==> #[trigger] "capture"@[i] != '\n',
        forall|i: int| 0 <= i < 7 ==> #[trigger] "profile"@[i] != '\n',
        forall|i: int| 0 <= i < 5 ==> #[trigger] "trace"@[i] != '\n',
{
    reveal_strlit("timeout=");
    reveal_strlit("screenshot=");
    reveal_strlit("screenshot");
    reveal_strlit("dom=");
    reveal_strlit("viewport=");
    reveal_strlit("url=");
    reveal_strlit("http://");
    reveal_strlit("https://");
    reveal_strlit("capture");
    reveal_strlit("profile");
    reveal_strlit("trace");
}

/// Texts without a character have none together.
proof fn lemma_no_char_in_both(a: Seq<char>, b: Seq<char>, c: char)
    requires
        forall|i: int| 0 <= i < a.len() ==> #[trigger] a[i] != c,
        forall|i: int| 0 <= i < b.len() ==> #[trigger] b[i] != c,
    ensures
        !text::has_char(a + b, c),
{
    let s = a + b;
    text::lemma_cut_at(s, c);
    if text::has_char(s, c) {
        let i = text::cut_at(s, c) as int;
        if i < a.len() {
            assert(s[i] == a[i]);
        } else {
            assert(s[i] == b[i - a.len()]);
        }
    }
}

/// A line that gives a key its value, before a rest.
proof fn lemma_keyed(key: Seq<char>, value: Seq<char>, rest: Seq<char>)
    requires
        key.len() > 0,
        !text::is_space(key[0]),
        forall|i: int| 0 <= i < key.len() ==> #[trigger] key[i] != '\n',
        !text::has_char(value, '\n'),
    ensures
        ({
            let line = key + value;
            &&& line[0] == key[0]
            &&& !text::has_char(line, '\n')
            &&& key.is_prefix_of(line)
            &&& line.skip(key.len() as int) == value
            &&& text::before_char(value + seq!['\n'] + rest, '\n') == value
            &&& text::after_char(value + seq!['\n'] + rest, '\n') == rest
            &&& text::has_char(value + seq!['\n'] + rest, '\n')
        }),
{
    text::lemma_cut_at(value, '\n');
    lemma_no_char_in_both(key, value, '\n');
    lemma_value_cut(value, rest);
    assert((key + value).skip(key.len() as int) =~= value);
    assert(key =~= (key + value).subrange(0, key.len() as int));
}

/// A line `timeout=` with a number sets the time, and leaves what follows.
pub proof fn law_time_line_is_found(p: PrefixView, ms: nat, rest: Seq<char>)
    requires
        ms <= u64::MAX,
    ensures
        all_lines(p, "timeout="@ + text::decimal(ms) + seq!['\n'] + rest) == all_lines(
            PrefixView { timeout_ms: Some(ms), ..p },
            rest,
        ),
{
    let d = text::decimal(ms);
    lemma_keys_begin();
    text::lemma_decimal(ms);
    text::law_decimal_reads_back(ms, u64::MAX as nat);
    text::lemma_cut_at(d, '\n');
    assert(!text::has_char(d, '\n')) by {
        if text::has_char(d, '\n') {
            assert(text::is_digit(d[text::cut_at(d, '\n') as int]));
        }
    }
    assert(text::is_digit(d[0]) && text::is_digit(d[d.len() - 1]));
    lemma_trimmed_is(d);
    lemma_keyed("timeout="@, d, rest);
    let line = "timeout="@ + d;
    lemma_line_keys(line, rest);
    let body = line + seq!['\n'] + rest;
    assert(timeout_line(body) == Some((ms, rest)));
    assert(one_line(p, body) == Some((PrefixView { timeout_ms: Some(ms), ..p }, rest)));
}

/// A line that is the name of a mode sets the mode, without a name of its own.
pub proof fn law_mode_line_is_found(p: PrefixView, word: Seq<char>, mode: BrowserMode, rest: Seq<char>)
    requires
        (word == "capture"@ && mode == BrowserMode::Capture) || (word == "profile"@ && mode
            == BrowserMode::Profile) || (word == "trace"@ && mode == BrowserMode::Trace) || (word
            == "screenshot"@ && mode == BrowserMode::Screenshot),
    ensures
        all_lines(p, word + seq!['\n'] + rest) == all_lines(
            PrefixView { mode, mode_name: Seq::empty(), ..p },
            rest,
        ),
{
    lemma_keys_begin();
    let none = Seq::<char>::empty();
    lemma_no_char_in_both(word, none, '\n');
    assert(word + none =~= word);
    lemma_line_keys(word, rest);
    let body = word + seq!['\n'] + rest;
    assert(!("timeout="@.is_prefix_of(word))) by {
        if "timeout="@.is_prefix_of(word) {
            assert("timeout="@[0] == word[0] && "timeout="@[1] == word[1]);
        }
    }
    assert(timeout_line(body) is None);
    assert(mode_line(body) == Some((mode, none, rest)));
    assert(one_line(p, body) == Some((PrefixView { mode, mode_name: none, ..p }, rest)));
}

/// A line `screenshot=` or `dom=` sets the mode and gives it a name or a
/// selector.
pub proof fn law_named_mode_line_is_found(
    p: PrefixView,
    key: Seq<char>,
    mode: BrowserMode,
    name: Seq<char>,
    rest: Seq<char>,
)
    requires
        (key == "screenshot="@ && mode == BrowserMode::Screenshot) || (key == "dom="@ && mode
            == BrowserMode::Dom),
        !text::has_char(name, '\n'),
        name.len() > 0 ==> !text::is_space(name[0]) && !text::is_space(name.last()),
    ensures
        all_lines(p, key + name + seq!['\n'] + rest) == all_lines(
            PrefixView { mode, mode_name: name, ..p },
            rest,
        ),
{
    lemma_keys_begin();
    lemma_keyed(key, name, rest);
    lemma_trimmed_is(name);
    let line = key + name;
    lemma_line_keys(line, rest);
    let body = line + seq!['\n'] + rest;
    assert(!("timeout="@.is_prefix_of(line))) by {
        if "timeout="@.is_prefix_of(line) {
            assert("timeout="@[0] == line[0]);
        }
    }
    assert(line != "capture"@ && line != "profile"@ && line != "trace"@);
    assert(line != "screenshot"@) by {
        if line == "screenshot"@ {
            assert(line.len() == key.len() + name.len());
        }
    }
    if key == "dom="@ {
        assert(!("screenshot="@.is_prefix_of(line))) by {
            if "screenshot="@.is_prefix_of(line) {
                assert("screenshot="@[0] == line[0]);
            }
        }
    }
    assert(timeout_line(body) is None);
    assert(mode_line(body) == Some((mode, name, rest)));
    assert(one_line(p, body) == Some((PrefixView { mode, mode_name: name, ..p }, rest)));
}

/// A line `url=`, or an address itself, says where the page starts, and leaves
/// what follows as the script. Only the first one does.
pub proof fn law_address_line_is_found(p: PrefixView, key: Seq<char>, value: Seq<char>, rest: Seq<char>)
    requires
        key == "url="@ || key == "http://"@ || key == "https://"@,
        p.start_url is None,
        !text::has_char(value, '\n'),
        value.len() > 0 ==> !text::is_space(value[0]) && !text::is_space(value.last()),
    ensures
        all_lines(p, key + value + seq!['\n'] + rest) == all_lines(
            PrefixView {
                start_url: Some(
                    if key == "url="@ {
                        value
                    } else {
                        key + value
                    },
                ),
                url_script: Seq::empty(),
                ..p
            },
            rest,
        ),
{
    lemma_keys_begin();
    reveal_strlit("http://");
    reveal_strlit("https://");
    lemma_keyed(key, value, rest);
    lemma_trimmed_is(value);
    let line = key + value;
    let body = line + seq!['\n'] + rest;
    assert(line.last() == if value.len() > 0 {
        value.last()
    } else {
        key.last()
    });
    lemma_line_keys(line, rest);
    assert forall|other: Seq<char>|
        other.len() > 0 && other[0] != key[0] implies !#[trigger] other.is_prefix_of(line) by {
        if other.is_prefix_of(line) {
            assert(other[0] == line[0]);
        }
    }
    assert(line[0] == key[0]);
    assert(timeout_line(body) is None);
    assert(mode_line(body) is None);
    assert(viewport_line(body) is None);
    if key != "url="@ {
        assert(!("url="@.is_prefix_of(line)));
        assert(body[0] == line[0]);
        assert(text::trimmed_start(body) == body);
        lemma_value_cut(line, rest);
        lemma_trimmed_is(line);
        assert(key.is_prefix_of(body)) by {
            assert(key =~= body.subrange(0, key.len() as int));
        }
    }
    let u = if key == "url="@ {
        value
    } else {
        key + value
    };
    assert(url_line(body) == Some((u, Seq::<char>::empty(), rest)));
    assert(one_line(p, body) == Some(
        (PrefixView { start_url: Some(u), url_script: Seq::empty(), ..p }, rest),
    ));
}

/// Whether a script begins with none of the words that a line before a script
/// begins with.
pub open spec fn is_plain(script: Seq<char>) -> bool {
    let t = text::trimmed_start(script);
    &&& !"timeout="@.is_prefix_of(t)
    &&& !"capture\n"@.is_prefix_of(t)
    &&& !"profile\n"@.is_prefix_of(t)
    &&& !"trace\n"@.is_prefix_of(t)
    &&& !"screenshot\n"@.is_prefix_of(t)
    &&& !"screenshot="@.is_prefix_of(t)
    &&& !"dom="@.is_prefix_of(t)
    &&& !"viewport="@.is_prefix_of(t)
    &&& !"url="@.is_prefix_of(t)
    &&& !"http://"@.is_prefix_of(t)
    &&& !"https://"@.is_prefix_of(t)
}

/// A script that begins like no line before a script stays whole.
pub proof fn law_plain_script_is_left(p: PrefixView, script: Seq<char>)
    requires
        is_plain(script),
    ensures
        all_lines(p, script) == (p, script),
{
    assert(one_line(p, script) is None);
}

/// A line that names a session is taken off, with the session it names; other
/// scripts are left as they are.
pub proof fn law_session_line_is_taken_off(id: Seq<char>, rest: Seq<char>)
    requires
        id.len() > 0,
        !text::has_char(id, '\n'),
        text::trimmed(id) == id,
    ensures
        session_id_line("sessionId="@ + id + seq!['\n'] + rest) == (Some(id), rest),
        rest.len() > 0 && !text::is_space(rest[0]) && rest[0] != 's' ==> session_id_line(rest) == (
            None::<Seq<char>>,
            rest,
        ),
{
    reveal_strlit("sessionId=");
    let key = "sessionId="@;
    let body = key + id + seq!['\n'] + rest;
    assert(body[0] == 's');
    assert(text::trimmed_start(body) == body);
    assert(body.subrange(0, key.len() as int) =~= key);
    assert(body.skip(key.len() as int) =~= id + seq!['\n'] + rest);
    lemma_value_cut(id, rest);
    if rest.len() > 0 && !text::is_space(rest[0]) && rest[0] != 's' {
        assert(text::trimmed_start(rest) == rest);
        assert(!key.is_prefix_of(rest)) by {
            if key.is_prefix_of(rest) {
                assert(rest[0] == key[0]);
            }
        }
    }
}

/// A viewport is a width, an `x` and a height, and is that of a phone where
/// `!mobile` stands behind it; a side of no length is no viewport.
pub proof fn law_viewport_is_width_by_height(width: nat, height: nat)
    requires
        width <= u32::MAX,
        height <= u32::MAX,
    ensures
        width > 0 && height > 0 ==> viewport_of(text::decimal(width).push('x') + text::decimal(height))
            == Some(ViewportView { width, height, scale: None, mobile: false }),
        width > 0 && height > 0 ==> viewport_of(
            text::decimal(width).push('x') + text::decimal(height) + "!mobile"@,
        ) == Some(ViewportView { width, height, scale: None, mobile: true }),
        width == 0 || height == 0 ==> viewport_of(
            text::decimal(width).push('x') + text::decimal(height),
        ) is None,
{
    reveal_strlit("!mobile");
    let w = text::decimal(width);
    let h = text::decimal(height);
    let s = w.push('x') + h;
    text::lemma_decimal(width);
    text::lemma_decimal(height);
    text::law_decimal_reads_back(width, u32::MAX as nat);
    text::law_decimal_reads_back(height, u32::MAX as nat);
    assert(text::is_digit(w[0]) && text::is_digit(w[w.len() - 1]));
    assert(text::is_digit(h[0]) && text::is_digit(h[h.len() - 1]));
    lemma_trimmed_is(w);
    lemma_trimmed_is(h);
    assert(s[0] == w[0] && s.last() == h[h.len() - 1]);
    lemma_trimmed_is(s);
    assert forall|j: int| 0 <= j < s.len() implies s[j] != '@' by {
        if j < w.len() {
            assert(text::is_digit(w[j]));
        } else if j > w.len() {
            assert(text::is_digit(h[j - w.len() - 1]));
        }
    }
    text::lemma_cut_at_is(s, '@', s.len() as int);
    assert(s.take(s.len() as int) =~= s);
    assert forall|j: int| 0 <= j < w.len() implies s[j] != 'x' by {
        assert(text::is_digit(w[j]));
    }
    text::lemma_cut_at_is(s, 'x', w.len() as int);
    assert(text::before_char(s, 'x') =~= w);
    assert(text::after_char(s, 'x') =~= h);
    let m = "!mobile"@;
    let long = s + m;
    assert(long.subrange(long.len() - m.len(), long.len() as int) =~= m);
    assert(text::before_suffix(long, m) is Some);
    assert(long.take(long.len() - m.len()) =~= s);
    assert(!m.is_suffix_of(s)) by {
        if m.is_suffix_of(s) {
            assert(s.last() == m[6]);
        }
    }
}

/// A line of a viewport sets the viewport.
pub proof fn law_viewport_line_is_found(value: Seq<char>, rest: Seq<char>)
    requires
        !text::has_char(value, '\n'),
    ensures
        viewport_of(value) is Some ==> viewport_line("viewport="@ + value + seq!['\n'] + rest) == Some(
            (viewport_of(value)->0, rest),
        ),
{
    reveal_strlit("viewport=");
    let key = "viewport="@;
    let body = key + value + seq!['\n'] + rest;
    assert(body[0] == 'v');
    assert(text::trimmed_start(body) == body);
    assert(body.subrange(0, key.len() as int) =~= key);
    assert(body.skip(key.len() as int) =~= value + seq!['\n'] + rest);
    lemma_value_cut(value, rest);
}

} // verus!

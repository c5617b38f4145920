//! Driving pages of the browser that runs as a plugin.
use crate::dispatch_origin;
use crate::dispatch_origin::{DispatchOrigin, OriginView};
use crate::imports;
use crate::json;
use crate::json::{Json, JsonTree};
use crate::prefixes;
use crate::text;
use vstd::prelude::*;
use vstd::string::*;

verus! {

// ---------------------------------------------------------------------------
// Session commands
// ---------------------------------------------------------------------------
/// A command about sessions at the start of a body.
pub enum SessionCommand<'a> {
    New,
    List,
    Close(&'a str),
    Reset(&'a str),
    Absent,
}

/// A command about sessions, as a value.
pub enum CommandView {
    New,
    List,
    Close(Seq<char>),
    Reset(Seq<char>),
    Absent,
}

/// The value of a command.
pub open spec fn command_view(c: SessionCommand<'_>) -> CommandView {
    match c {
        SessionCommand::New => CommandView::New,
        SessionCommand::List => CommandView::List,
        SessionCommand::Close(id) => CommandView::Close(id@),
        SessionCommand::Reset(id) => CommandView::Reset(id@),
        SessionCommand::Absent => CommandView::Absent,
    }
}

/// The command on the first line of a body, and what follows that line; the
/// whole body where there is none.
pub open spec fn command_in(body: Seq<char>) -> (CommandView, Seq<char>) {
    let t = text::trimmed_start(body);
    let line = text::trimmed_end(text::before_char(t, '\n'));
    let rest = text::after_char(t, '\n');
    if line == "session new"@ || "session new "@.is_prefix_of(line) {
        (CommandView::New, rest)
    } else if line == "session list"@ {
        (CommandView::List, rest)
    } else {
        match text::after_prefix(line, "session close "@) {
            Some(id) => (CommandView::Close(text::trimmed(id)), rest),
            None => match text::after_prefix(line, "session reset "@) {
                Some(id) => (CommandView::Reset(text::trimmed(id)), rest),
                None => (CommandView::Absent, body),
            },
        }
    }
}

/// Reads the command on the first line of a body.
pub fn parse_session_command(body: &str) -> (r: (SessionCommand<'_>, &str))
    ensures
        (command_view(r.0), r.1@) == command_in(body@),
{
    let t = text::trim_start(body);
    let n: usize = t.unicode_len();
    let (first, tail) = text::cut(t, '\n');
    let rest: &str = match tail {
        Some(s) => s,
        None => {
            assert(t@.subrange(n as int, n as int) =~= Seq::<char>::empty());
            t.substring_char(n, n)
        },
    };
    let line = text::trim_end(first);
    if text::str_eq(line, "session new") || text::starts_with(line, "session new ") {
        return (SessionCommand::New, rest);
    }
    if text::str_eq(line, "session list") {
        return (SessionCommand::List, rest);
    }
    match text::strip_prefix(line, "session close ") {
        Some(id) => {
            return (SessionCommand::Close(text::trim(id)), rest);
        },
        None => {},
    }
    match text::strip_prefix(line, "session reset ") {
        Some(id) => {
            return (SessionCommand::Reset(text::trim(id)), rest);
        },
        None => {},
    }
    (SessionCommand::Absent, body)
}

// ---------------------------------------------------------------------------
// Replies
// ---------------------------------------------------------------------------
/// A reply that refuses, with its reason.
pub open spec fn refusal(error: Seq<char>) -> JsonTree {
    json::obj2("ok"@, JsonTree::Bool(false), "error"@, JsonTree::Str(error))
}

fn refuse(error: &str) -> (r: Json)
    ensures
        json::tree(r) == refusal(error@),
{
    json::object2("ok", json::boolean(false), "error", json::str(error))
}

/// What is told of a page when the plugin keeps no pages apart.
pub const PARTITION_NOTE: &'static str = "this oxibrowser plugin predates per-page partitioning, so every gm session shares one page -- update the oxibrowser plugin";

/// A reply with the page and the session it belongs to. Where the plugin did
/// not name the page, the reply says that pages are not kept apart. Anything
/// but an object is left alone.
pub open spec fn attributed(reply: JsonTree, page: Seq<char>, gm_session: Option<Seq<char>>) -> JsonTree {
    if !(reply is Object) {
        reply
    } else {
        let r = if json::field(reply, "page"@) is Some {
            reply
        } else {
            json::with_field(
                json::with_field(reply, "page_partition_unsupported"@, JsonTree::Bool(true)),
                "page_partition_note"@,
                JsonTree::Str(PARTITION_NOTE@),
            )
        };
        json::with_field(
            json::with_field(r, "session_id"@, JsonTree::Str(page)),
            "gm_session"@,
            json::opt_str_tree(gm_session),
        )
    }
}

fn opt_ref(o: &Option<String>) -> (r: Option<&str>)
    ensures
        text::opt_view(r) == text::opt_string_view(*o),
{
    match o {
        Some(s) => Some(s.as_str()),
        None => None,
    }
}

/// Adds to a reply the page and the session it belongs to.
pub fn attribute(reply: Json, page: &str, gm_session: &Option<String>) -> (r: Json)
    ensures
        json::tree(r) == attributed(json::tree(reply), page@, text::opt_string_view(*gm_session)),
{
    if !reply.is_object() {
        return reply;
    }
    let reply = if reply.get("page").is_some() {
        reply
    } else {
        reply.with("page_partition_unsupported", json::boolean(true)).with(
            "page_partition_note",
            json::str(PARTITION_NOTE),
        )
    };
    reply.with("session_id", json::str(page)).with(
        "gm_session",
        json::opt_str(opt_ref(gm_session)),
    )
}

/// The body of a call to the plugin, with the page that it is about.
pub fn call_body(body: Json, page: &str) -> (r: Json)
    ensures
        json::tree(r) == json::with_field(json::tree(body), "page"@, JsonTree::Str(page@)),
{
    body.with("page", json::str(page))
}

/// What the plugin answered, given what its response reads as: the value, or
/// the text where it is no JSON; `ok` for an empty response; the error.
pub open spec fn answer_of(
    result: Result<Seq<char>, Seq<char>>,
    parsed: Result<JsonTree, Seq<char>>,
) -> JsonTree {
    match result {
        Ok(s) => if s.len() == 0 {
            json::obj1("ok"@, JsonTree::Bool(true))
        } else {
            match parsed {
                Ok(t) => t,
                Err(_) => JsonTree::Str(s),
            }
        },
        Err(e) => refusal(e),
    }
}

/// What the plugin answered.
pub fn plugin_answer(result: Result<String, String>) -> (r: Json)
    ensures
        json::tree(r) == (match imports::result_view(result) {
            Ok(s) => answer_of(Ok(s), json::parsed_json(s)),
            Err(e) => answer_of(Err(e), json::read_err(e)),
        }),
{
    match result {
        Ok(s) => {
            if s.as_str().is_empty() {
                return json::object1("ok", json::boolean(true));
            }
            match json::parse(s.as_str()) {
                Ok(j) => j,
                Err(_) => Json::Str(s),
            }
        },
        Err(e) => refuse(e.as_str()),
    }
}

/// What the driver answers where the plugin is not registered.
pub fn not_registered_answer() -> (r: Json)
    ensures
        json::tree(r) == refusal(
            "oxibrowser plugin not registered for this project (check .agentplug/plugins.txt)"@,
        ),
{
    refuse("oxibrowser plugin not registered for this project (check .agentplug/plugins.txt)")
}

/// One page in the list of sessions: with its session, alive, and whether it
/// is the one that the caller uses without naming one.
pub open spec fn listed_page(entry: JsonTree, implicit: Seq<char>) -> JsonTree {
    let page = imports::or_default(json::field_str(entry, "page"@), Seq::empty());
    json::with_field(
        json::with_field(
            json::with_field(entry, "session_id"@, JsonTree::Str(page)),
            "alive"@,
            JsonTree::Bool(true),
        ),
        "is_caller_implicit_session"@,
        JsonTree::Bool(page == implicit),
    )
}

/// The pages that a reply lists.
pub open spec fn pages_in(reply: JsonTree) -> Seq<JsonTree> {
    match json::field(reply, "data"@) {
        Some(data) => match json::field(data, "pages"@) {
            Some(JsonTree::Array(s)) => s,
            _ => Seq::empty(),
        },
        None => Seq::empty(),
    }
}

/// The pages of a list, one by one.
pub open spec fn listed_pages(pages: Seq<JsonTree>, implicit: Seq<char>) -> Seq<JsonTree> {
    Seq::new(pages.len(), |i: int| listed_page(pages[i], implicit))
}

/// A reply whose pages were taken out of it.
pub open spec fn without_pages(reply: JsonTree) -> JsonTree {
    match json::field(reply, "data"@) {
        Some(data) => match json::field(data, "pages"@) {
            Some(JsonTree::Array(_)) => json::with_field(
                reply,
                "data"@,
                json::with_field(data, "pages"@, JsonTree::Array(Seq::empty())),
            ),
            _ => reply,
        },
        None => reply,
    }
}

/// The list of sessions that a caller gets, from what the plugin answered.
pub open spec fn session_list_of(
    reply: JsonTree,
    gm_session: Option<Seq<char>>,
    implicit: Seq<char>,
) -> JsonTree {
    json::with_field(
        json::with_field(
            json::with_field(
                without_pages(reply),
                "sessions"@,
                JsonTree::Array(listed_pages(pages_in(reply), implicit)),
            ),
            "caller_gm_session"@,
            json::opt_str_tree(gm_session),
        ),
        "caller_implicit_session"@,
        JsonTree::Str(implicit),
    )
}

fn page_entry(entry: &Json, implicit: &str) -> (r: Json)
    ensures
        json::tree(r) == listed_page(json::tree(*entry), implicit@),
{
    let page: String = match entry.str_field("page") {
        Some(p) => p.to_owned(),
        None => {
            let none = String::new();
            assert(none@ =~= Seq::<char>::empty());
            none
        },
    };
    let is_implicit = text::str_eq(page.as_str(), implicit);
    entry.copy().with("session_id", json::str(page.as_str())).with(
        "alive",
        json::boolean(true),
    ).with("is_caller_implicit_session", json::boolean(is_implicit))
}

/// Turns the plugin's list of pages into the caller's list of sessions.
pub fn session_list(reply: Json, gm_session: &Option<String>, implicit: &str) -> (r: Json)
    ensures
        json::tree(r) == session_list_of(
            json::tree(reply),
            text::opt_string_view(*gm_session),
            implicit@,
        ),
{
    let mut sessions: Vec<Json> = Vec::new();
    let ghost pages = pages_in(json::tree(reply));
    let mut emptied: Option<Json> = None;
    assert(json::trees(sessions@) =~= listed_pages(Seq::empty(), implicit@));
    match reply.get("data") {
        Some(data) => match data.get("pages") {
            Some(Json::Array(a)) => {
                proof {
                    json::lemma_trees(a@);
                }
                for i in 0..a.len()
                    invariant
                        sessions@.len() == i,
                        forall|k: int|
                            0 <= k < i ==> json::tree(#[trigger] sessions@[k]) == listed_page(
                                json::tree(a@[k]),
                                implicit@,
                            ),
                {
                    sessions.push(page_entry(&a[i], implicit));
                }
                proof {
                    json::lemma_trees(sessions@);
                    assert forall|k: int| 0 <= k < sessions@.len() implies json::trees(
                        sessions@,
                    )[k] == listed_pages(pages, implicit@)[k] by {
                        assert(json::trees(sessions@)[k] == json::tree(sessions@[k]));
                        assert(json::trees(a@)[k] == json::tree(a@[k]));
                    }
                    assert(json::trees(sessions@) =~= listed_pages(pages, implicit@));
                }
                let none: Vec<Json> = Vec::new();
                assert(json::trees(none@) =~= Seq::<JsonTree>::empty());
                emptied = Some(data.copy().with("pages", Json::Array(none)));
            },
            _ => {},
        },
        None => {},
    }
    assert(json::trees(sessions@) == listed_pages(pages, implicit@));
    let reply = match emptied {
        Some(data) => reply.with("data", data),
        None => reply,
    };
    reply.with("sessions", Json::Array(sessions)).with(
        "caller_gm_session",
        json::opt_str(opt_ref(gm_session)),
    ).with("caller_implicit_session", json::str(implicit))
}

// ---------------------------------------------------------------------------
// Which page, and what on it
// ---------------------------------------------------------------------------
/// What a dispatch does first.
pub enum OxiPlan {
    /// Nothing: this is the answer.
    Answer(Json),
    /// Lists the pages.
    List { page: String },
    /// Closes a page.
    Close { page: String },
    /// Closes a page, and goes on with a script on it where there is one.
    Reset { page: String, then_run: Option<String> },
    /// Runs a script on a page.
    Run { page: String, script: String },
}

/// What a dispatch does first, as a value.
pub enum OxiMove {
    Answer(JsonTree),
    List(Seq<char>),
    Close(Seq<char>),
    Reset(Seq<char>, Option<Seq<char>>),
    Run(Seq<char>, Seq<char>),
}

/// The value of a plan.
pub open spec fn oxi_move(p: OxiPlan) -> OxiMove {
    match p {
        OxiPlan::Answer(j) => OxiMove::Answer(json::tree(j)),
        OxiPlan::List { page } => OxiMove::List(page@),
        OxiPlan::Close { page } => OxiMove::Close(page@),
        OxiPlan::Reset { page, then_run } => OxiMove::Reset(page@, text::opt_string_view(then_run)),
        OxiPlan::Run { page, script } => OxiMove::Run(page@, script@),
    }
}

/// What is told of a new session.
pub const NEW_SESSION_NOTE: &'static str = "oxibrowser opens a page on its first navigate/evaluate; session new reports the page this gm session owns";

/// The answer to a new session: the page that the session owns.
pub open spec fn new_session_answer(page: Seq<char>, gm_session: Option<Seq<char>>) -> JsonTree {
    attributed(
        json::obj3(
            "ok"@,
            JsonTree::Bool(true),
            "page"@,
            JsonTree::Str(page),
            "note"@,
            JsonTree::Str(NEW_SESSION_NOTE@),
        ),
        page,
        gm_session,
    )
}

/// The refusal of lines behind a command that ends a dispatch.
pub open spec fn terminal_refusal(command: Seq<char>) -> JsonTree {
    refusal(
        "'"@ + command
            + "' is a terminal session command and the lines after it were not evaluated -- send them as their own dispatch, or stack them under 'session new'/'session reset <id>'"@,
    )
}

/// The refusal of a command without the session it is about.
pub open spec fn missing_id_refusal(implicit: Seq<char>) -> JsonTree {
    refusal(
        "session close/reset requires an explicit id, e.g. 'session close "@ + implicit
            + "' for this gm session's own page"@,
    )
}

/// What a dispatch does first: lines behind `session list` or `session close`
/// are refused, lines behind `session new` or `session reset` are run, and a
/// body without a command is run on the caller's page.
pub open spec fn oxi_plan(body: Seq<char>, o: OriginView, guest: Seq<char>) -> OxiMove {
    let (explicit, after_sid) = prefixes::session_id_line(body);
    let implicit = dispatch_origin::implicit_session(o, guest);
    let own = dispatch_origin::page_session_of(o, explicit, guest);
    let (command, rest) = command_in(after_sid);
    let trailing = !text::is_blank(rest);
    match command {
        CommandView::New => if trailing {
            OxiMove::Run(own, rest)
        } else {
            OxiMove::Answer(new_session_answer(own, o.gm_session))
        },
        CommandView::List => if trailing {
            OxiMove::Answer(terminal_refusal("session list"@))
        } else {
            OxiMove::List(own)
        },
        CommandView::Close(id) => if id.len() == 0 {
            OxiMove::Answer(missing_id_refusal(implicit))
        } else if trailing {
            OxiMove::Answer(terminal_refusal("session close <id>"@))
        } else {
            OxiMove::Close(id)
        },
        CommandView::Reset(id) => if id.len() == 0 {
            OxiMove::Answer(missing_id_refusal(implicit))
        } else if trailing {
            OxiMove::Reset(id, Some(rest))
        } else {
            OxiMove::Reset(id, None)
        },
        CommandView::Absent => OxiMove::Run(own, after_sid),
    }
}

fn refuse_terminal(command: &str) -> (r: OxiPlan)
    ensures
        oxi_move(r) == OxiMove::Answer(terminal_refusal(command@)),
{
    let error = text::add3(
        "'",
        command,
        "' is a terminal session command and the lines after it were not evaluated -- send them as their own dispatch, or stack them under 'session new'/'session reset <id>'",
    );
    OxiPlan::Answer(refuse(error.as_str()))
}

fn refuse_missing_id(implicit: &str) -> (r: OxiPlan)
    ensures
        oxi_move(r) == OxiMove::Answer(missing_id_refusal(implicit@)),
{
    let error = text::add3(
        "session close/reset requires an explicit id, e.g. 'session close ",
        implicit,
        "' for this gm session's own page",
    );
    OxiPlan::Answer(refuse(error.as_str()))
}

/// Plans a dispatch.
pub fn plan(body: &str, origin: &DispatchOrigin, guest_session: &str) -> (r: OxiPlan)
    ensures
        oxi_move(r) == oxi_plan(body@, origin@, guest_session@),
{
    let (explicit, after_sid) = prefixes::strip_session_id_prefix(body);
    let implicit = origin.implicit_page_session(guest_session);
    let own = origin.page_session(explicit, guest_session);
    let (command, rest) = parse_session_command(after_sid);
    let trailing = !text::blank(rest);
    match command {
        SessionCommand::New => if trailing {
            OxiPlan::Run { page: own, script: rest.to_owned() }
        } else {
            let answer = json::object3(
                "ok",
                json::boolean(true),
                "page",
                json::str(own.as_str()),
                "note",
                json::str(NEW_SESSION_NOTE),
            );
            OxiPlan::Answer(attribute(answer, own.as_str(), &origin.gm_session))
        },
        SessionCommand::List => if trailing {
            refuse_terminal("session list")
        } else {
            OxiPlan::List { page: own }
        },
        SessionCommand::Close(id) => if id.is_empty() {
            refuse_missing_id(implicit.as_str())
        } else if trailing {
            refuse_terminal("session close <id>")
        } else {
            OxiPlan::Close { page: id.to_owned() }
        },
        SessionCommand::Reset(id) => if id.is_empty() {
            refuse_missing_id(implicit.as_str())
        } else if trailing {
            OxiPlan::Reset { page: id.to_owned(), then_run: Some(rest.to_owned()) }
        } else {
            OxiPlan::Reset { page: id.to_owned(), then_run: None }
        },
        SessionCommand::Absent => OxiPlan::Run { page: own, script: after_sid.to_owned() },
    }
}

// ---------------------------------------------------------------------------
// The lines of a script
// ---------------------------------------------------------------------------
/// What a mode is refused with.
pub open spec fn unsupported_mode(mode: Seq<char>) -> JsonTree {
    json::obj3(
        "ok"@,
        JsonTree::Bool(false),
        "error"@,
        JsonTree::Str(
            "browser (oxibrowser) does not support the '"@ + mode + "' mode yet"@,
        ),
        "note"@,
        JsonTree::Str(
            "use the cdp verb for real-Chrome/playwright-style capabilities like screenshots, CPU profiling, and tracing"@,
        ),
    )
}

/// What a viewport is refused with.
pub open spec fn unsupported_viewport() -> JsonTree {
    json::obj3(
        "ok"@,
        JsonTree::Bool(false),
        "error"@,
        JsonTree::Str("browser (oxibrowser) does not support viewport overrides yet"@),
        "note"@,
        JsonTree::Str("use the cdp verb for real-Chrome/playwright-style viewport control"@),
    )
}

/// Whether a body starts with a mode, on a line of its own.
pub open spec fn starts_with_mode(t: Seq<char>, mode: Seq<char>) -> bool {
    t == mode || (mode + "\n"@).is_prefix_of(t)
}

/// How a body that asks for what this browser lacks is refused, if it does.
pub open spec fn unsupported(body: Seq<char>) -> Option<JsonTree> {
    let t = text::trimmed_start(body);
    if starts_with_mode(t, "screenshot"@) || "screenshot="@.is_prefix_of(t) {
        Some(unsupported_mode("screenshot"@))
    } else if starts_with_mode(t, "capture"@) {
        Some(unsupported_mode("capture"@))
    } else if starts_with_mode(t, "profile"@) {
        Some(unsupported_mode("profile"@))
    } else if starts_with_mode(t, "trace"@) {
        Some(unsupported_mode("trace"@))
    } else if "viewport="@.is_prefix_of(t) {
        Some(unsupported_viewport())
    } else {
        None
    }
}

fn is_mode(t: &str, mode: &str) -> (r: bool)
    ensures
        r == starts_with_mode(t@, mode@),
{
    text::str_eq(t, mode) || text::starts_with(t, text::add2(mode, "\n").as_str())
}

fn refuse_mode(mode: &str) -> (r: Option<Json>)
    ensures
        imports::opt_tree(r) == Some(unsupported_mode(mode@)),
{
    let error = text::add3("browser (oxibrowser) does not support the '", mode, "' mode yet");
    Some(
        json::object3(
            "ok",
            json::boolean(false),
            "error",
            json::str(error.as_str()),
            "note",
            json::str(
                "use the cdp verb for real-Chrome/playwright-style capabilities like screenshots, CPU profiling, and tracing",
            ),
        ),
    )
}

/// Refuses a body that asks for what this browser lacks.
pub fn rejects_unsupported_mode(body: &str) -> (r: Option<Json>)
    ensures
        imports::opt_tree(r) == unsupported(body@),
{
    let t = text::trim_start(body);
    if is_mode(t, "screenshot") || text::starts_with(t, "screenshot=") {
        return refuse_mode("screenshot");
    }
    if is_mode(t, "capture") {
        return refuse_mode("capture");
    }
    if is_mode(t, "profile") {
        return refuse_mode("profile");
    }
    if is_mode(t, "trace") {
        return refuse_mode("trace");
    }
    if text::starts_with(t, "viewport=") {
        return Some(
            json::object3(
                "ok",
                json::boolean(false),
                "error",
                json::str("browser (oxibrowser) does not support viewport overrides yet"),
                "note",
                json::str("use the cdp verb for real-Chrome/playwright-style viewport control"),
            ),
        );
    }
    None
}

/// A line that asks for the page as markdown, and what follows.
pub open spec fn markdown_line(body: Seq<char>) -> Option<Seq<char>> {
    let t = text::trimmed_start(body);
    if t == "extract-markdown"@ {
        Some(Seq::empty())
    } else {
        text::after_prefix(t, "extract-markdown\n"@)
    }
}

pub fn strip_extract_markdown_prefix(body: &str) -> (r: Option<&str>)
    ensures
        text::opt_view(r) == markdown_line(body@),
{
    let t = text::trim_start(body);
    if text::str_eq(t, "extract-markdown") {
        let n: usize = t.unicode_len();
        assert(t@.subrange(n as int, n as int) =~= Seq::<char>::empty());
        return Some(t.substring_char(n, n));
    }
    text::strip_prefix(t, "extract-markdown\n")
}

/// What the lines of a script ask for.
pub struct OxiScript {
    pub dom_selector: Option<String>,
    pub url: Option<String>,
    pub extract_markdown: bool,
    pub rest: String,
}

/// What the lines of a script ask for, as a value.
#[verifier::ext_equal]
pub struct OxiView {
    pub dom_selector: Option<Seq<char>>,
    pub url: Option<Seq<char>>,
    pub extract_markdown: bool,
}

/// Nothing is asked for.
pub open spec fn nothing_asked() -> OxiView {
    OxiView { dom_selector: None, url: None, extract_markdown: false }
}

/// Takes one line off a script, if it is one of those that may stand before
/// it.
pub open spec fn oxi_line(v: OxiView, body: Seq<char>) -> Option<(OxiView, Seq<char>)> {
    match prefixes::timeout_line(body) {
        Some((_, rest)) => Some((v, rest)),
        None => match prefixes::dom_line(body) {
            Some((s, rest)) => Some((OxiView { dom_selector: Some(s), ..v }, rest)),
            None => match markdown_line(body) {
                Some(rest) => Some((OxiView { extract_markdown: true, ..v }, rest)),
                None => match prefixes::url_line(body) {
                    Some((u, _, rest)) => Some((OxiView { url: Some(u), ..v }, rest)),
                    None => None,
                },
            },
        },
    }
}

/// A line that was taken off leaves a shorter script.
pub proof fn lemma_oxi_line_shrinks(v: OxiView, body: Seq<char>)
    requires
        oxi_line(v, body) is Some,
    ensures
        (oxi_line(v, body)->0).1.len() < body.len(),
{
    reveal_strlit("timeout=");
    reveal_strlit("dom=");
    reveal_strlit("extract-markdown");
    reveal_strlit("extract-markdown\n");
    reveal_strlit("url=");
    reveal_strlit("http://");
    reveal_strlit("https://");
    text::lemma_trimmed_start(body);
    if prefixes::timeout_line(body) is Some {
        prefixes::lemma_after_key(body, "timeout="@);
    } else if prefixes::dom_line(body) is Some {
        prefixes::lemma_after_key(body, "dom="@);
    } else if markdown_line(body) is Some {
        if text::trimmed_start(body) != "extract-markdown"@ {
            prefixes::lemma_after_key(body, "extract-markdown\n"@);
        }
    } else if prefixes::after_key(body, "url="@) is Some {
        prefixes::lemma_after_key(body, "url="@);
    } else {
        let t = text::trimmed_start(body);
        text::lemma_cut_at(t, '\n');
        assert(t.len() > 0);
    }
}

/// Takes all lines off a script; a line that asks for what this browser lacks
/// refuses the whole.
pub open spec fn oxi_lines(v: OxiView, body: Seq<char>) -> Result<(OxiView, Seq<char>), JsonTree>
    decreases body.len(),
    via oxi_lines_shrink
{
    match unsupported(body) {
        Some(no) => Err(no),
        None => match oxi_line(v, body) {
            Some((w, rest)) => oxi_lines(w, rest),
            None => Ok((v, body)),
        },
    }
}

#[via_fn]
proof fn oxi_lines_shrink(v: OxiView, body: Seq<char>) {
    if oxi_line(v, body) is Some {
        lemma_oxi_line_shrinks(v, body);
    }
}

/// What the lines before a script ask for. The script itself is what is left
/// behind them.
pub open spec fn asked_for(s: OxiScript) -> OxiView {
    OxiView {
        dom_selector: text::opt_string_view(s.dom_selector),
        url: text::opt_string_view(s.url),
        extract_markdown: s.extract_markdown,
    }
}

/// Parts the lines before a script from the script, or refuses it.
pub fn parse_script(body: &str) -> (r: Result<OxiScript, Json>)
    ensures
        match r {
            Ok(s) => oxi_lines(nothing_asked(), body@) == Ok::<_, JsonTree>(
                (asked_for(s), s.rest@),
            ),
            Err(j) => oxi_lines(nothing_asked(), body@) == Err::<(OxiView, Seq<char>), _>(
                json::tree(j),
            ),
        },
{
    let mut dom_selector: Option<String> = None;
    let mut url: Option<String> = None;
    let mut extract_markdown = false;
    let mut rest: &str = body;
    let ghost mut v = nothing_asked();
    loop
        invariant
            v == (OxiView {
                dom_selector: text::opt_string_view(dom_selector),
                url: text::opt_string_view(url),
                extract_markdown,
            }),
            oxi_lines(v, rest@) == oxi_lines(nothing_asked(), body@),
        decreases rest@.len(),
    {
        proof {
            if oxi_line(v, rest@) is Some {
                lemma_oxi_line_shrinks(v, rest@);
            }
        }
        match rejects_unsupported_mode(rest) {
            Some(no) => {
                return Err(no);
            },
            None => {},
        }
        match prefixes::strip_timeout_prefix(rest) {
            Some((_, after)) => {
                rest = after;
                continue;
            },
            None => {},
        }
        match prefixes::strip_dom_prefix(rest) {
            Some((s, after)) => {
                proof {
                    v = OxiView { dom_selector: Some(s@), ..v };
                }
                dom_selector = Some(s);
                rest = after;
                continue;
            },
            None => {},
        }
        match strip_extract_markdown_prefix(rest) {
            Some(after) => {
                proof {
                    v = OxiView { extract_markdown: true, ..v };
                }
                extract_markdown = true;
                rest = after;
                continue;
            },
            None => {},
        }
        match prefixes::strip_url_prefix(rest) {
            Some((u, _, after)) => {
                proof {
                    v = OxiView { url: Some(u@), ..v };
                }
                url = Some(u);
                rest = after;
                continue;
            },
            None => {},
        }
        return Ok(OxiScript { dom_selector, url, extract_markdown, rest: rest.to_owned() });
    }
}

// ---------------------------------------------------------------------------
// After the address
// ---------------------------------------------------------------------------
/// What a script does on its page once the address is reached.
pub enum OxiStep {
    /// Nothing more: this is the answer.
    Answer(Json),
    /// Calls a verb of the plugin.
    Call { verb: &'static str, body: Json },
}

/// The value of a step: an answer, or a verb with its body.
pub open spec fn step_view(s: OxiStep) -> Result<JsonTree, (Seq<char>, JsonTree)> {
    match s {
        OxiStep::Answer(j) => Ok(json::tree(j)),
        OxiStep::Call { verb, body } => Err((verb@, json::tree(body))),
    }
}

/// The answer to a script that only went to an address.
pub open spec fn navigated_answer(page: Seq<char>, nav: JsonTree, gm_session: Option<Seq<char>>) -> JsonTree {
    attributed(
        json::obj4(
            "ok"@,
            JsonTree::Bool(true),
            "navigated"@,
            JsonTree::Bool(true),
            "page"@,
            JsonTree::Str(page),
            "url"@,
            nav,
        ),
        page,
        gm_session,
    )
}

/// What follows the navigation, given what the plugin answered to it where
/// there was one: a navigation that failed is the answer; then the selector,
/// the markdown or the script is asked for.
pub open spec fn next_step(
    v: OxiView,
    rest: Seq<char>,
    nav: Option<JsonTree>,
    page: Seq<char>,
    gm_session: Option<Seq<char>>,
) -> Result<JsonTree, (Seq<char>, JsonTree)> {
    if nav is Some && json::field_bool(nav->0, "ok"@) != Some(true) {
        Ok(nav->0)
    } else if v.dom_selector is Some {
        Err(("dom-query"@, json::obj1("selector"@, JsonTree::Str(v.dom_selector->0))))
    } else if v.extract_markdown {
        Err(("extract-markdown"@, json::no_fields()))
    } else if !text::is_blank(rest) {
        Err(("evaluate"@, json::obj1("expression"@, JsonTree::Str(rest))))
    } else if nav is Some {
        Ok(navigated_answer(page, nav->0, gm_session))
    } else {
        Ok(
            refusal(
                "browser body resolved to an empty script after prefix parsing -- nothing would be evaluated"@,
            ),
        )
    }
}

/// Decides what follows the navigation.
pub fn step_after_navigation(
    script: &OxiScript,
    nav: Option<Json>,
    page: &str,
    gm_session: &Option<String>,
) -> (r: OxiStep)
    ensures
        step_view(r) == next_step(
            asked_for(*script),
            script.rest@,
            imports::opt_tree(nav),
            page@,
            text::opt_string_view(*gm_session),
        ),
{
    let failed = match &nav {
        Some(n) => match n.bool_field("ok") {
            Some(b) => !b,
            None => true,
        },
        None => false,
    };
    if failed {
        match nav {
            Some(n) => {
                return OxiStep::Answer(n);
            },
            None => {},
        }
    }
    match &script.dom_selector {
        Some(s) => {
            return OxiStep::Call {
                verb: "dom-query",
                body: json::object1("selector", json::str(s.as_str())),
            };
        },
        None => {},
    }
    if script.extract_markdown {
        return OxiStep::Call { verb: "extract-markdown", body: json::object() };
    }
    if !text::blank(script.rest.as_str()) {
        return OxiStep::Call {
            verb: "evaluate",
            body: json::object1("expression", json::str(script.rest.as_str())),
        };
    }
    match nav {
        Some(n) => {
            let answer = json::object4(
                "ok",
                json::boolean(true),
                "navigated",
                json::boolean(true),
                "page",
                json::str(page),
                "url",
                n,
            );
            OxiStep::Answer(attribute(answer, page, gm_session))
        },
        None => OxiStep::Answer(
            refuse(
                "browser body resolved to an empty script after prefix parsing -- nothing would be evaluated",
            ),
        ),
    }
}

/// The options of a dispatch that goes to a running browser instead, given
/// what they read as: with that browser named.
pub open spec fn redirected_options(parsed: Result<JsonTree, Seq<char>>) -> JsonTree {
    let steel = JsonTree::Str("steel"@);
    match parsed {
        Ok(t) => if t is Object {
            json::with_field(t, "engine"@, steel)
        } else {
            json::obj1("engine"@, steel)
        },
        Err(_) => json::obj1("engine"@, steel),
    }
}

/// The options of a dispatch that goes to a running browser instead.
pub fn redirect_to_steel(opts: &str) -> (r: Json)
    ensures
        json::tree(r) == redirected_options(json::parsed_json(opts@)),
{
    match json::parse(opts) {
        Ok(j) => if j.is_object() {
            j.with("engine", json::str("steel"))
        } else {
            json::object1("engine", json::str("steel"))
        },
        Err(_) => json::object1("engine", json::str("steel")),
    }
}

/// Lines that follow `session list` or `session close` are never run.
pub proof fn law_terminal_commands_run_nothing(body: Seq<char>, o: OriginView, guest: Seq<char>)
    requires
        command_in(prefixes::session_id_line(body).1).0 is List || command_in(
            prefixes::session_id_line(body).1,
        ).0 is Close,
    ensures
        !(oxi_plan(body, o, guest) is Run) && !(oxi_plan(body, o, guest) is Reset),
{
}

/// The names of the fields differ.
proof fn lemma_reply_names()
    ensures
        "ok"@.len() == 2,
        "error"@.len() == 5,
        "page"@.len() == 4,
        "note"@.len() == 4,
        "navigated"@.len() == 9,
        "url"@.len() == 3,
        "session_id"@.len() == 10,
        "gm_session"@.len() == 10,
        "page_partition_unsupported"@.len() == 26,
        "page_partition_note"@.len() == 19,
        "sessions"@.len() == 8,
        "data"@.len() == 4,
        "pages"@.len() == 5,
        "alive"@.len() == 5,
        "is_caller_implicit_session"@.len() == 26,
        "caller_gm_session"@.len() == 17,
        "caller_implicit_session"@.len() == 23,
        "selector"@.len() == 8,
        "expression"@.len() == 10,
        "error"@[0] == 'e' && "pages"@[0] == 'p',
        "error"@[0] == 'e' && "alive"@[0] == 'a',
        "page"@[0] == 'p' && "note"@[0] == 'n',
        "page"@[0] == 'p' && "data"@[0] == 'd',
        "note"@[0] == 'n' && "data"@[0] == 'd',
        "session_id"@[0] == 's' && "gm_session"@[0] == 'g',
        "session_id"@[0] == 's' && "expression"@[0] == 'e',
        "gm_session"@[0] == 'g' && "expression"@[0] == 'e',
        "page_partition_unsupported"@[0] == 'p' && "is_caller_implicit_session"@[0] == 'i',
        "sessions"@[2] == 's' && "selector"@[2] == 'l',
        "pages"@[0] == 'p' && "alive"@[0] == 'a',
{
    reveal_strlit("ok");
    reveal_strlit("error");
    reveal_strlit("page");
    reveal_strlit("note");
    reveal_strlit("navigated");
    reveal_strlit("url");
    reveal_strlit("session_id");
    reveal_strlit("gm_session");
    reveal_strlit("page_partition_unsupported");
    reveal_strlit("page_partition_note");
    reveal_strlit("sessions");
    reveal_strlit("data");
    reveal_strlit("pages");
    reveal_strlit("alive");
    reveal_strlit("is_caller_implicit_session");
    reveal_strlit("caller_gm_session");
    reveal_strlit("caller_implicit_session");
    reveal_strlit("selector");
    reveal_strlit("expression");
}

/// A session command stands on the first line, and what follows it is handed
/// on; `close` and `reset` name a session.
pub proof fn law_session_commands_are_read(id: Seq<char>, rest: Seq<char>)
    requires
        id.len() > 0,
        !text::has_char(id, '\n'),
        !text::is_space(id[0]),
        !text::is_space(id.last()),
    ensures
        command_in("session new"@ + seq!['\n'] + rest) == (CommandView::New, rest),
        command_in("session list"@ + seq!['\n'] + rest) == (CommandView::List, rest),
        command_in("session close "@ + id + seq!['\n'] + rest) == (CommandView::Close(id), rest),
        command_in("session reset "@ + id + seq!['\n'] + rest) == (CommandView::Reset(id), rest),
{
    reveal_strlit("session new");
    reveal_strlit("session new ");
    reveal_strlit("session list");
    reveal_strlit("session close ");
    reveal_strlit("session reset ");
    lemma_command_line("session new"@, rest);
    lemma_command_line("session list"@, rest);
    text::lemma_cut_at(id, '\n');
    let close = "session close "@ + id;
    let reset = "session reset "@ + id;
    assert(close.last() == id.last() && reset.last() == id.last());
    assert forall|j: int| 0 <= j < close.len() implies close[j] != '\n' by {
        if j >= 14 {
            assert(close[j] == id[j - 14]);
        }
    }
    assert forall|j: int| 0 <= j < reset.len() implies reset[j] != '\n' by {
        if j >= 14 {
            assert(reset[j] == id[j - 14]);
        }
    }
    lemma_command_line(close, rest);
    lemma_command_line(reset, rest);
    assert(text::trimmed(id) == id);
    assert("session list"@[8] == 'l' && "session new"@[8] == 'n' && "session new "@[8] == 'n');
    assert(close[8] == 'c' && reset[8] == 'r');
    assert(close.subrange(0, 14) =~= "session close "@);
    assert(reset.subrange(0, 14) =~= "session reset "@);
    assert(close.skip(14) =~= id);
    assert(reset.skip(14) =~= id);
    assert(!"session new "@.is_prefix_of(close) && !"session new "@.is_prefix_of(reset)
        && !"session new "@.is_prefix_of("session list"@)) by {
        if "session new "@.is_prefix_of(close) {
            assert(close[8] == 'n');
        }
        if "session new "@.is_prefix_of(reset) {
            assert(reset[8] == 'n');
        }
        if "session new "@.is_prefix_of("session list"@) {
            assert("session list"@[8] == 'n');
        }
    }
    assert(close != "session new"@ && close != "session list"@) by {
        if close == "session list"@ {
            assert(close[8] == 'l');
        }
        if close == "session new"@ {
            assert(close[8] == 'n');
        }
    }
    assert(reset != "session new"@ && reset != "session list"@) by {
        if reset == "session list"@ {
            assert(reset[8] == 'l');
        }
        if reset == "session new"@ {
            assert(reset[8] == 'n');
        }
    }
    assert(!"session close "@.is_prefix_of(reset)) by {
        if "session close "@.is_prefix_of(reset) {
            assert(reset[8] == "session close "@[8]);
        }
    }
}

proof fn lemma_command_line(line: Seq<char>, rest: Seq<char>)
    requires
        line.len() > 0,
        !text::is_space(line[0]),
        !text::is_space(line.last()),
        forall|j: int| 0 <= j < line.len() ==> line[j] != '\n',
    ensures
        ({
            let t = text::trimmed_start(line + seq!['\n'] + rest);
            &&& text::trimmed_end(text::before_char(t, '\n')) == line
            &&& text::after_char(t, '\n') == rest
        }),
{
    let body = line + seq!['\n'] + rest;
    text::lemma_cut_at(line, '\n');
    assert(body[0] == line[0]);
    assert(text::trimmed_start(body) == body);
    text::lemma_line_cut(line, rest);
}

/// A script that starts with another letter holds no session command.
pub proof fn law_plain_script_is_no_command(body: Seq<char>)
    requires
        body.len() > 0,
        !text::is_space(body[0]),
        body[0] != 's',
    ensures
        command_in(body) == (CommandView::Absent, body),
{
    reveal_strlit("session new");
    reveal_strlit("session new ");
    reveal_strlit("session list");
    reveal_strlit("session close ");
    reveal_strlit("session reset ");
    assert(text::trimmed_start(body) == body);
    text::lemma_cut_at(body, '\n');
    let cut = text::before_char(body, '\n');
    lemma_trimmed_end_starts(cut);
    let line = text::trimmed_end(cut);
    if line.len() > 0 {
        assert(line[0] == cut[0]);
        assert(line[0] != 's');
    }
    assert(!"session new "@.is_prefix_of(line)) by {
        if "session new "@.is_prefix_of(line) {
            assert(line[0] == "session new "@[0]);
        }
    }
    assert(!"session close "@.is_prefix_of(line)) by {
        if "session close "@.is_prefix_of(line) {
            assert(line[0] == "session close "@[0]);
        }
    }
    assert(!"session reset "@.is_prefix_of(line)) by {
        if "session reset "@.is_prefix_of(line) {
            assert(line[0] == "session reset "@[0]);
        }
    }
}

proof fn lemma_trimmed_end_starts(s: Seq<char>)
    ensures
        text::trimmed_end(s).len() <= s.len(),
        text::trimmed_end(s).len() > 0 ==> text::trimmed_end(s)[0] == s[0],
    decreases s.len(),
{
    if s.len() > 0 && text::is_space(s.last()) {
        lemma_trimmed_end_starts(s.drop_last());
    }
}

/// What each command does: a new session runs what follows it or is answered at
/// once, a list and a close stand alone, a reset runs what follows it, and a
/// plain script runs on the page of the caller.
pub proof fn law_commands_are_carried_out(body: Seq<char>, o: OriginView, guest: Seq<char>)
    ensures
        ({
            let (explicit, script) = prefixes::session_id_line(body);
            let own = dispatch_origin::page_session_of(o, explicit, guest);
            let (command, rest) = command_in(script);
            let blank = text::is_blank(rest);
            let plan = oxi_plan(body, o, guest);
            &&& command is Absent ==> plan == OxiMove::Run(own, script)
            &&& command is New && !blank ==> plan == OxiMove::Run(own, rest)
            &&& command is New && blank ==> plan is Answer && json::field(plan->Answer_0, "ok"@) == Some(
                JsonTree::Bool(true),
            ) && json::field(plan->Answer_0, "page"@) == Some(JsonTree::Str(own)) && json::field(
                plan->Answer_0,
                "session_id"@,
            ) == Some(JsonTree::Str(own))
            &&& command is List && blank ==> plan == OxiMove::List(own)
            &&& command is Close && command->Close_0.len() > 0 && blank ==> plan == OxiMove::Close(
                command->Close_0,
            )
            &&& command is Reset && command->Reset_0.len() > 0 && blank ==> plan == OxiMove::Reset(
                command->Reset_0,
                None,
            )
            &&& command is Reset && command->Reset_0.len() > 0 && !blank ==> plan == OxiMove::Reset(
                command->Reset_0,
                Some(rest),
            )
            &&& (command is List || command is Close) && !blank ==> plan is Answer && json::field(
                plan->Answer_0,
                "ok"@,
            ) == Some(JsonTree::Bool(false))
            &&& command is Close && command->Close_0.len() == 0 ==> plan is Answer && json::field(
                plan->Answer_0,
                "ok"@,
            ) == Some(JsonTree::Bool(false))
            &&& command is Reset && command->Reset_0.len() == 0 ==> plan is Answer && json::field(
                plan->Answer_0,
                "ok"@,
            ) == Some(JsonTree::Bool(false))
        }),
{
    lemma_reply_names();
}

/// A reply is marked with its page and the session of its caller and is else as
/// it was; a reply that names no page is noted as shared.
pub proof fn law_reply_is_marked(
    reply: JsonTree,
    page: Seq<char>,
    gm_session: Seq<char>,
    other: Seq<char>,
)
    requires
        reply is Object,
    ensures
        json::field(attributed(reply, page, Some(gm_session)), "session_id"@) == Some(
            JsonTree::Str(page),
        ),
        json::field(attributed(reply, page, Some(gm_session)), "gm_session"@) == Some(
            JsonTree::Str(gm_session),
        ),
        json::field(attributed(reply, page, None), "gm_session"@) == Some(JsonTree::Null),
        json::field(reply, "page"@) is None ==> json::field(
            attributed(reply, page, Some(gm_session)),
            "page_partition_unsupported"@,
        ) == Some(JsonTree::Bool(true)),
        json::field(reply, "page"@) is Some ==> json::field(
            attributed(reply, page, Some(gm_session)),
            "page_partition_unsupported"@,
        ) == json::field(reply, "page_partition_unsupported"@),
        other != "session_id"@ && other != "gm_session"@ && other != "page_partition_unsupported"@
            && other != "page_partition_note"@ ==> json::field(
            attributed(reply, page, Some(gm_session)),
            other,
        ) == json::field(reply, other),
{
    lemma_reply_names();
}

/// A failed call is refused with its error; an empty result is a success, and
/// any other is the JSON or the text it is.
pub proof fn law_results_are_answered(s: Seq<char>, t: JsonTree, e: Seq<char>)
    requires
        s.len() > 0,
    ensures
        json::field(answer_of(Err(e), Ok(t)), "ok"@) == Some(JsonTree::Bool(false)),
        json::field(answer_of(Err(e), Ok(t)), "error"@) == Some(JsonTree::Str(e)),
        json::field(answer_of(Ok(Seq::empty()), Ok(t)), "ok"@) == Some(JsonTree::Bool(true)),
        answer_of(Ok(s), Ok(t)) == t,
        answer_of(Ok(s), Err(e)) == JsonTree::Str(s),
{
    lemma_reply_names();
}

/// A list of sessions tells of each page that it is alive, its name, and
/// whether it is the caller's own; it tells who asked.
pub proof fn law_sessions_are_listed(
    reply: JsonTree,
    data: JsonTree,
    pages: Seq<JsonTree>,
    gm_session: Seq<char>,
    implicit: Seq<char>,
    i: int,
    page: Seq<char>,
)
    requires
        json::field(reply, "data"@) == Some(data),
        json::field(data, "pages"@) == Some(JsonTree::Array(pages)),
        0 <= i < pages.len(),
        json::field(pages[i], "page"@) == Some(JsonTree::Str(page)),
    ensures
        ({
            let list = session_list_of(reply, Some(gm_session), implicit);
            let sessions = json::field(list, "sessions"@)->0->Array_0;
            &&& json::field(list, "sessions"@) == Some(JsonTree::Array(sessions))
            &&& sessions.len() == pages.len()
            &&& json::field(sessions[i], "session_id"@) == Some(JsonTree::Str(page))
            &&& json::field(sessions[i], "alive"@) == Some(JsonTree::Bool(true))
            &&& json::field(sessions[i], "is_caller_implicit_session"@) == Some(
                JsonTree::Bool(page == implicit),
            )
            &&& json::field(list, "caller_gm_session"@) == Some(JsonTree::Str(gm_session))
            &&& json::field(list, "caller_implicit_session"@) == Some(JsonTree::Str(implicit))
        }),
{
    lemma_reply_names();
}

/// What this browser cannot do is refused by name; the modes of a real Chrome
/// and its viewport are.
pub proof fn law_modes_of_chrome_are_refused(mode: Seq<char>, rest: Seq<char>)
    requires
        mode == "screenshot"@ || mode == "capture"@ || mode == "profile"@ || mode == "trace"@,
    ensures
        unsupported(mode + seq!['\n'] + rest) is Some,
        json::field(unsupported(mode + seq!['\n'] + rest)->0, "ok"@) == Some(JsonTree::Bool(false)),
        json::field(unsupported(mode + seq!['\n'] + rest)->0, "error"@) == Some(
            JsonTree::Str("browser (oxibrowser) does not support the '"@ + mode + "' mode yet"@),
        ),
        json::field(unsupported(mode)->0, "error"@) == Some(
            JsonTree::Str("browser (oxibrowser) does not support the '"@ + mode + "' mode yet"@),
        ),
        json::field(unsupported("viewport="@ + rest)->0, "error"@) == Some(
            JsonTree::Str("browser (oxibrowser) does not support viewport overrides yet"@),
        ),
{
    lemma_reply_names();
    reveal_strlit("screenshot");
    reveal_strlit("screenshot=");
    reveal_strlit("capture");
    reveal_strlit("profile");
    reveal_strlit("trace");
    reveal_strlit("viewport=");
    reveal_strlit("\n");
    let body = mode + seq!['\n'] + rest;
    assert(body[0] == mode[0]);
    assert(text::trimmed_start(body) == body);
    assert(text::trimmed_start(mode) == mode);
    assert((mode + "\n"@).is_prefix_of(body)) by {
        assert(body.subrange(0, (mode + "\n"@).len() as int) =~= mode + "\n"@);
    }
    lemma_mode_is_one(body, mode);
    lemma_mode_is_one(mode, mode);
    let v = "viewport="@ + rest;
    assert(v[0] == 'v');
    assert(text::trimmed_start(v) == v);
    assert("viewport="@.is_prefix_of(v)) by {
        assert(v.subrange(0, 9) =~= "viewport="@);
    }
    assert(!starts_with_mode(v, "screenshot"@) && !"screenshot="@.is_prefix_of(v)
        && !starts_with_mode(v, "capture"@) && !starts_with_mode(v, "profile"@)
        && !starts_with_mode(v, "trace"@)) by {
        if starts_with_mode(v, "screenshot"@) {
            lemma_starts(v, "screenshot"@);
        }
        if "screenshot="@.is_prefix_of(v) {
            assert(v[0] == "screenshot="@[0]);
        }
        if starts_with_mode(v, "capture"@) {
            lemma_starts(v, "capture"@);
        }
        if starts_with_mode(v, "profile"@) {
            lemma_starts(v, "profile"@);
        }
        if starts_with_mode(v, "trace"@) {
            lemma_starts(v, "trace"@);
        }
    }
}

proof fn lemma_starts(t: Seq<char>, mode: Seq<char>)
    requires
        starts_with_mode(t, mode),
        mode.len() > 0,
    ensures
        t.len() > 0 && t[0] == mode[0],
{
    if t != mode {
        assert(t[0] == (mode + "\n"@)[0]);
    }
}

proof fn lemma_mode_is_one(t: Seq<char>, mode: Seq<char>)
    requires
        mode == "screenshot"@ || mode == "capture"@ || mode == "profile"@ || mode == "trace"@,
        starts_with_mode(t, mode),
    ensures
        mode != "screenshot"@ ==> !starts_with_mode(t, "screenshot"@) && !"screenshot="@.is_prefix_of(t),
        mode != "capture"@ ==> !starts_with_mode(t, "capture"@),
        mode != "profile"@ ==> !starts_with_mode(t, "profile"@),
        mode != "trace"@ ==> !starts_with_mode(t, "trace"@),
{
    reveal_strlit("screenshot");
    reveal_strlit("screenshot=");
    reveal_strlit("capture");
    reveal_strlit("profile");
    reveal_strlit("trace");
    lemma_starts(t, mode);
    if starts_with_mode(t, "screenshot"@) {
        lemma_starts(t, "screenshot"@);
    }
    if "screenshot="@.is_prefix_of(t) {
        assert(t[0] == "screenshot="@[0]);
    }
    if starts_with_mode(t, "capture"@) {
        lemma_starts(t, "capture"@);
    }
    if starts_with_mode(t, "profile"@) {
        lemma_starts(t, "profile"@);
    }
    if starts_with_mode(t, "trace"@) {
        lemma_starts(t, "trace"@);
    }
}

/// A line before the script sets what it names: a selector, an address, or that
/// the page is wanted as Markdown; a time is passed over.
pub proof fn law_lines_set_what_they_name(v: OxiView, body: Seq<char>)
    ensures
        prefixes::timeout_line(body) matches Some(t) ==> oxi_line(v, body) == Some((v, t.1)),
        prefixes::timeout_line(body) is None ==> {
            &&& prefixes::dom_line(body) matches Some(d) ==> oxi_line(v, body) == Some(
                (OxiView { dom_selector: Some(d.0), url: v.url, extract_markdown: v.extract_markdown }, d.1),
            )
            &&& prefixes::dom_line(body) is None && markdown_line(body) is Some ==> oxi_line(v, body)
                == Some(
                (
                    OxiView { dom_selector: v.dom_selector, url: v.url, extract_markdown: true },
                    markdown_line(body)->0,
                ),
            )
            &&& prefixes::dom_line(body) is None && markdown_line(body) is None && prefixes::url_line(
                body,
            ) is Some ==> oxi_line(v, body) == Some(
                (
                    OxiView {
                        dom_selector: v.dom_selector,
                        url: Some((prefixes::url_line(body)->0).0),
                        extract_markdown: v.extract_markdown,
                    },
                    (prefixes::url_line(body)->0).2,
                ),
            )
        },
        nothing_asked().dom_selector is None && nothing_asked().url is None
            && !nothing_asked().extract_markdown,
{
}

/// A page is wanted as Markdown where a line of its own says so.
pub proof fn law_markdown_is_asked_for_by_a_line(rest: Seq<char>)
    ensures
        markdown_line("extract-markdown"@ + seq!['\n'] + rest) == Some(rest),
        markdown_line("extract-markdown"@) == Some(Seq::<char>::empty()),
        rest.len() > 0 && !text::is_space(rest[0]) && rest[0] != 'e' ==> markdown_line(rest) is None,
{
    reveal_strlit("extract-markdown");
    reveal_strlit("extract-markdown\n");
    let key = "extract-markdown\n"@;
    let body = "extract-markdown"@ + seq!['\n'] + rest;
    assert(body[0] == 'e');
    assert(text::trimmed_start(body) == body);
    assert(text::trimmed_start("extract-markdown"@) == "extract-markdown"@);
    assert(body.subrange(0, 17) =~= key);
    assert(body.skip(17) =~= rest);
    if rest.len() > 0 && !text::is_space(rest[0]) && rest[0] != 'e' {
        assert(text::trimmed_start(rest) == rest);
        if key.is_prefix_of(rest) {
            assert(rest[0] == key[0]);
        }
    }
}

/// What is asked of the browser once it is at its address: a selector before
/// Markdown before the script; a failed navigation is answered as it is, and
/// nothing to do is a success only where it went somewhere.
pub proof fn law_steps_follow_what_is_asked(
    v: OxiView,
    rest: Seq<char>,
    nav: Option<JsonTree>,
    page: Seq<char>,
    gm_session: Option<Seq<char>>,
)
    ensures
        ({
            let step = next_step(v, rest, nav, page, gm_session);
            let went = nav is Some ==> json::field(nav->0, "ok"@) == Some(JsonTree::Bool(true));
            &&& !went ==> step == Ok::<JsonTree, (Seq<char>, JsonTree)>(nav->0)
            &&& went && v.dom_selector is Some ==> step is Err && step->Err_0.0 == "dom-query"@
                && json::field(step->Err_0.1, "selector"@) == Some(JsonTree::Str(v.dom_selector->0))
            &&& went && v.dom_selector is None && v.extract_markdown ==> step is Err && step->Err_0.0
                == "extract-markdown"@
            &&& went && v.dom_selector is None && !v.extract_markdown && !text::is_blank(rest) ==> step
                is Err && step->Err_0.0 == "evaluate"@ && json::field(step->Err_0.1, "expression"@)
                == Some(JsonTree::Str(rest))
            &&& went && v.dom_selector is None && !v.extract_markdown && text::is_blank(rest) && nav is Some
                ==> step is Ok && json::field(step->Ok_0, "ok"@) == Some(JsonTree::Bool(true))
                && json::field(step->Ok_0, "navigated"@) == Some(JsonTree::Bool(true)) && json::field(
                step->Ok_0,
                "page"@,
            ) == Some(JsonTree::Str(page)) && json::field(step->Ok_0, "url"@) == nav
            &&& v.dom_selector is None && !v.extract_markdown && text::is_blank(rest) && nav is None
                ==> step is Ok && json::field(step->Ok_0, "ok"@) == Some(JsonTree::Bool(false))
        }),
{
    lemma_reply_names();
}

/// A request that goes to Steel names it as its engine and is else as it was.
pub proof fn law_steel_is_named(t: JsonTree, other: Seq<char>, e: Seq<char>)
    ensures
        json::field(redirected_options(Ok(t)), "engine"@) == Some(JsonTree::Str("steel"@)),
        json::field(redirected_options(Err(e)), "engine"@) == Some(JsonTree::Str("steel"@)),
        t is Object && other != "engine"@ ==> json::field(redirected_options(Ok(t)), other) == json::field(
            t,
            other,
        ),
{
}

/// The pages of a list stand under its sessions and not once more under its
/// data; the rest of the data is as it was.
pub proof fn law_pages_are_told_once(
    reply: JsonTree,
    data: JsonTree,
    pages: Seq<JsonTree>,
    gm_session: Option<Seq<char>>,
    implicit: Seq<char>,
    other: Seq<char>,
)
    requires
        json::field(reply, "data"@) == Some(data),
        json::field(data, "pages"@) == Some(JsonTree::Array(pages)),
    ensures
        ({
            let list = session_list_of(reply, gm_session, implicit);
            &&& json::field(list, "data"@) is Some
            &&& json::field(json::field(list, "data"@)->0, "pages"@) == Some(
                JsonTree::Array(Seq::<JsonTree>::empty()),
            )
            &&& other != "pages"@ ==> json::field(json::field(list, "data"@)->0, other) == json::field(
                data,
                other,
            )
        }),
{
    lemma_reply_names();
}

/// A command that stands alone is refused by its name where lines follow it, and
/// one that lacks its session by an example of it.
pub proof fn law_refused_commands_are_named(command: Seq<char>, implicit: Seq<char>)
    ensures
        json::field(terminal_refusal(command), "error"@) is Some,
        json::field(terminal_refusal(command), "error"@)->0 is Str,
        ("'"@ + command + "' is a terminal session command"@).is_prefix_of(
            json::field(terminal_refusal(command), "error"@)->0->Str_0,
        ),
        json::field(missing_id_refusal(implicit), "error"@) == Some(
            JsonTree::Str(
                "session close/reset requires an explicit id, e.g. 'session close "@ + implicit
                    + "' for this gm session's own page"@,
            ),
        ),
{
    lemma_reply_names();
    let a = "'"@ + command + "' is a terminal session command"@;
    let all = json::field(terminal_refusal(command), "error"@)->0->Str_0;
    reveal_strlit("' is a terminal session command");
    reveal_strlit(
        "' is a terminal session command and the lines after it were not evaluated -- send them as their own dispatch, or stack them under 'session new'/'session reset <id>'",
    );
    assert(all.subrange(0, a.len() as int) =~= a);
}

} // verus!

//! What the host functions that a guest can call decide and answer.
use crate::host_state::{HostState, HostView};
use crate::json;
use crate::json::{Json, JsonTree};
use crate::path;
use crate::path::{NormalPath, NormalView};
use crate::strmap::StrMap;
use crate::text;
use vstd::prelude::*;
use vstd::string::*;

verus! {

// ---------------------------------------------------------------------------
// Which plugin may call which
// ---------------------------------------------------------------------------
/// Whether `caller` may call `callee` where no allowlist is configured.
pub open spec fn allowed_by_default(caller: Seq<char>, callee: Seq<char>) -> bool {
    caller == "gm"@ && (callee == "bert"@ || callee == "libsql"@ || callee == "treesitter"@
        || callee == "liqology"@ || callee == "crux"@)
}

pub fn compiled_default_capability_allowlist(caller_plugin: &str, callee_plugin: &str) -> (r: bool)
    ensures
        r == allowed_by_default(caller_plugin@, callee_plugin@),
{
    text::str_eq(caller_plugin, "gm") && (text::str_eq(callee_plugin, "bert") || text::str_eq(
        callee_plugin,
        "libsql",
    ) || text::str_eq(callee_plugin, "treesitter") || text::str_eq(callee_plugin, "liqology")
        || text::str_eq(callee_plugin, "crux"))
}

/// Whether `caller` may call `callee`: as the configured allowlist says, and
/// by default where there is none.
pub open spec fn call_allowed(
    config: Option<Map<Seq<char>, Vec<String>>>,
    caller: Seq<char>,
    callee: Seq<char>,
) -> bool {
    match config {
        Some(allow) => allow.dom().contains(caller) && text::lists(allow[caller]@, callee),
        None => allowed_by_default(caller, callee),
    }
}

/// The table of an optional allowlist.
pub open spec fn allowlist_view(config: Option<&StrMap<Vec<String>>>) -> Option<
    Map<Seq<char>, Vec<String>>,
> {
    match config {
        Some(allow) => Some(allow@),
        None => None,
    }
}

/// Whether a plugin may call another.
pub fn plugin_call_capability_allowed(
    config: Option<&StrMap<Vec<String>>>,
    caller_plugin: &str,
    callee_plugin: &str,
) -> (r: bool)
    ensures
        r == call_allowed(allowlist_view(config), caller_plugin@, callee_plugin@),
{
    match config {
        Some(allow) => match allow.get(caller_plugin) {
            Some(list) => text::list_contains(list, callee_plugin),
            None => false,
        },
        None => compiled_default_capability_allowlist(caller_plugin, callee_plugin),
    }
}

/// Whether a plugin name is well formed.
pub open spec fn good_plugin_name(name: Seq<char>) -> bool {
    0 < name.len() && text::byte_count(name) <= 64 && text::made_of(name, "-_"@)
}

pub fn is_well_formed_plugin_name(name: &str) -> (r: bool)
    ensures
        r == good_plugin_name(name@),
{
    !name.is_empty() && text::byte_len(name) <= 64 && text::is_made_of(name, "-_")
}

/// Whether a verb is well formed.
pub open spec fn good_verb(verb: Seq<char>) -> bool {
    0 < verb.len() && text::byte_count(verb) <= 128 && text::made_of(verb, "-_."@)
}

pub fn is_well_formed_verb(verb: &str) -> (r: bool)
    ensures
        r == good_verb(verb@),
{
    !verb.is_empty() && text::byte_len(verb) <= 128 && text::is_made_of(verb, "-_.")
}

/// The largest body of a call between plugins, in bytes.
pub const PLUGIN_CALL_BODY_MAX: usize = 64 * 1024 * 1024;

/// What is wrong with the body of a call, if anything is, given what it reads
/// as: it is empty, or JSON of bounded size.
pub open spec fn body_error(body: Seq<char>, parsed: Result<JsonTree, Seq<char>>) -> Option<
    Seq<char>,
> {
    if body.len() == 0 {
        None
    } else if text::byte_count(body) > PLUGIN_CALL_BODY_MAX {
        Some("body_exceeds_max_size"@)
    } else {
        match parsed {
            Ok(_) => None,
            Err(e) => Some("body_not_valid_json: "@ + e),
        }
    }
}

/// Checks the body of a call between plugins.
pub fn validate_plugin_call_body(body: &str) -> (r: Option<String>)
    ensures
        text::opt_string_view(r) == body_error(body@, json::parsed_json(body@)),
{
    if body.is_empty() {
        return None;
    }
    if text::byte_len(body) > PLUGIN_CALL_BODY_MAX {
        return Some("body_exceeds_max_size".to_owned());
    }
    match json::parse(body) {
        Ok(_) => None,
        Err(e) => Some(text::add2("body_not_valid_json: ", e.as_str())),
    }
}

/// How a call between plugins is refused, if it is: a bad name, a bad verb, a
/// bad body, and a call that is not allowed, in this order.
pub open spec fn call_refusal(
    config: Option<Map<Seq<char>, Vec<String>>>,
    caller: Seq<char>,
    plugin: Seq<char>,
    verb: Seq<char>,
    body_problem: Option<Seq<char>>,
) -> Option<JsonTree> {
    let no = JsonTree::Bool(false);
    if !good_plugin_name(plugin) {
        Some(
            json::obj3(
                "ok"@,
                no,
                "error"@,
                JsonTree::Str("invalid_plugin_name"@),
                "plugin"@,
                JsonTree::Str(plugin),
            ),
        )
    } else if !good_verb(verb) {
        Some(
            json::obj3(
                "ok"@,
                no,
                "error"@,
                JsonTree::Str("invalid_verb"@),
                "verb"@,
                JsonTree::Str(verb),
            ),
        )
    } else if body_problem is Some {
        Some(
            json::obj3(
                "ok"@,
                no,
                "error"@,
                JsonTree::Str("invalid_body"@),
                "reason"@,
                JsonTree::Str(body_problem->0),
            ),
        )
    } else if !call_allowed(config, caller, plugin) {
        Some(
            json::obj4(
                "ok"@,
                no,
                "error"@,
                JsonTree::Str("capability_denied"@),
                "caller"@,
                JsonTree::Str(caller),
                "plugin"@,
                JsonTree::Str(plugin),
            ),
        )
    } else {
        None
    }
}

/// The view of an optional answer.
pub open spec fn opt_tree(o: Option<Json>) -> Option<JsonTree> {
    match o {
        Some(j) => Some(json::tree(j)),
        None => None,
    }
}

/// Refuses a call between plugins, given what is wrong with its body.
pub fn refuse_plugin_call(
    config: Option<&StrMap<Vec<String>>>,
    caller: &str,
    plugin: &str,
    verb: &str,
    body_problem: Option<String>,
) -> (r: Option<Json>)
    ensures
        opt_tree(r) == call_refusal(
            allowlist_view(config),
            caller@,
            plugin@,
            verb@,
            text::opt_string_view(body_problem),
        ),
{
    let no = json::boolean(false);
    if !is_well_formed_plugin_name(plugin) {
        return Some(
            json::object3(
                "ok",
                no,
                "error",
                json::str("invalid_plugin_name"),
                "plugin",
                json::str(plugin),
            ),
        );
    }
    if !is_well_formed_verb(verb) {
        return Some(
            json::object3("ok", no, "error", json::str("invalid_verb"), "verb", json::str(verb)),
        );
    }
    match body_problem {
        Some(reason) => Some(
            json::object3(
                "ok",
                no,
                "error",
                json::str("invalid_body"),
                "reason",
                json::str(reason.as_str()),
            ),
        ),
        None => {
            if plugin_call_capability_allowed(config, caller, plugin) {
                None
            } else {
                Some(
                    json::object4(
                        "ok",
                        no,
                        "error",
                        json::str("capability_denied"),
                        "caller",
                        json::str(caller),
                        "plugin",
                        json::str(plugin),
                    ),
                )
            }
        },
    }
}

/// Checks a call between plugins before it is made. Gives the answer that
/// refuses it, if it is refused.
pub fn plugin_call_refusal(
    config: Option<&StrMap<Vec<String>>>,
    caller: &str,
    plugin: &str,
    verb: &str,
    body: &str,
) -> (r: Option<Json>)
    ensures
        opt_tree(r) == call_refusal(
            allowlist_view(config),
            caller@,
            plugin@,
            verb@,
            body_error(body@, json::parsed_json(body@)),
        ),
{
    refuse_plugin_call(config, caller, plugin, verb, validate_plugin_call_body(body))
}

/// Only calls that the allowlist names, or the default where there is none,
/// get past the checks.
pub proof fn law_no_call_without_capability(
    config: Option<Map<Seq<char>, Vec<String>>>,
    caller: Seq<char>,
    plugin: Seq<char>,
    verb: Seq<char>,
    body_problem: Option<Seq<char>>,
)
    requires
        call_refusal(config, caller, plugin, verb, body_problem) is None,
    ensures
        call_allowed(config, caller, plugin),
        good_plugin_name(plugin),
        good_verb(verb),
        body_problem is None,
{
}

/// What a guest gets for a call: a text as it is, or a JSON answer.
pub enum GuestReply {
    Text(String),
    Answer(Json),
}

/// What a guest gets when the plugin it called is not known.
pub fn unknown_plugin_reply(plugin: &str) -> (r: Json)
    ensures
        json::tree(r) == json::obj3(
            "ok"@,
            JsonTree::Bool(false),
            "error"@,
            JsonTree::Str("unknown_plugin"@),
            "plugin"@,
            JsonTree::Str(plugin@),
        ),
{
    json::object3(
        "ok",
        json::boolean(false),
        "error",
        json::str("unknown_plugin"),
        "plugin",
        json::str(plugin),
    )
}

/// An answer that names an error and a plugin.
pub open spec fn plugin_error(error: Seq<char>, plugin: Seq<char>) -> JsonTree {
    json::obj3(
        "ok"@,
        JsonTree::Bool(false),
        "error"@,
        JsonTree::Str(error),
        "plugin"@,
        JsonTree::Str(plugin),
    )
}

/// What a guest gets when the plugin it called could not be loaded.
pub fn plugin_load_failed_reply(plugin: &str, error: &str) -> (r: Json)
    ensures
        json::tree(r) == plugin_error("plugin_load_failed: "@ + error@, plugin@),
{
    let e = text::add2("plugin_load_failed: ", error);
    json::object3(
        "ok",
        json::boolean(false),
        "error",
        json::str(e.as_str()),
        "plugin",
        json::str(plugin),
    )
}

/// The result of a dispatch as a value.
pub open spec fn result_view(r: Result<String, String>) -> Result<Seq<char>, Seq<char>> {
    match r {
        Ok(s) => Ok(s@),
        Err(e) => Err(e@),
    }
}

/// What a guest gets for a call that was made: the response, or `ok` for an
/// empty one, or the error.
pub fn plugin_call_reply(result: Result<String, String>, plugin: &str) -> (r: GuestReply)
    ensures
        match result_view(result) {
            Ok(s) => if s.len() > 0 {
                r matches GuestReply::Text(t) && t@ == s
            } else {
                r matches GuestReply::Answer(j) && json::tree(j) == json::obj1(
                    "ok"@,
                    JsonTree::Bool(true),
                )
            },
            Err(e) => r matches GuestReply::Answer(j) && json::tree(j) == plugin_error(e, plugin@),
        },
{
    match result {
        Ok(s) => if s.as_str().is_empty() {
            GuestReply::Answer(json::object1("ok", json::boolean(true)))
        } else {
            GuestReply::Text(s)
        },
        Err(e) => GuestReply::Answer(
            json::object3(
                "ok",
                json::boolean(false),
                "error",
                json::str(e.as_str()),
                "plugin",
                json::str(plugin),
            ),
        ),
    }
}

// ---------------------------------------------------------------------------
// Which files a guest may reach
// ---------------------------------------------------------------------------
/// The first of two that is there.
pub open spec fn first_of(a: Option<Seq<char>>, b: Option<Seq<char>>) -> Option<Seq<char>> {
    match a {
        Some(_) => a,
        None => b,
    }
}

/// The user's own `.gm` directory, in normal form: below the home directory,
/// where one is set and not blank.
pub open spec fn user_root(
    home: Option<Seq<char>>,
    profile: Option<Seq<char>>,
    windows: bool,
) -> Option<NormalView> {
    match first_of(home, profile) {
        Some(h) => if text::is_blank(h) {
            None
        } else {
            path::normalized(path::joined_on(text::trimmed(h), ".gm"@, windows), windows)
        },
        None => None,
    }
}

/// The view of an optional normal path.
pub open spec fn opt_normal(o: Option<NormalPath>) -> Option<NormalView> {
    match o {
        Some(n) => Some(n@),
        None => None,
    }
}

/// The user's own `.gm` directory.
pub fn user_gm_root(home: Option<&str>, profile: Option<&str>, windows: bool) -> (r: Option<
    NormalPath,
>)
    ensures
        opt_normal(r) == user_root(text::opt_view(home), text::opt_view(profile), windows),
{
    let h = match home {
        Some(h) => h,
        None => match profile {
            Some(p) => p,
            None => {
                return None;
            },
        },
    };
    let h = text::trim(h);
    if h.is_empty() {
        return None;
    }
    path::normalize(path::join_on(h, ".gm", windows).as_str(), windows)
}

/// Whether `p` lies below one of the directories, each taken in normal form.
pub open spec fn under_any(p: NormalView, roots: Seq<Seq<char>>, windows: bool) -> bool {
    exists|i: int|
        0 <= i < roots.len() && path::normalized(#[trigger] roots[i], windows) is Some && path::is_under(
            p,
            path::normalized(roots[i], windows)->0,
        )
}

/// Whether `p` lies below the user's own `.gm`, where there is one.
pub open spec fn under_user_root(p: NormalView, user: Option<NormalView>) -> bool {
    user matches Some(u) && path::is_under(p, u)
}

/// The path that a guest names: as it stands where it starts at a root, and
/// seen from the working directory otherwise.
pub open spec fn reached(cwd: Seq<char>, p: Seq<char>, windows: bool) -> Seq<char> {
    let u = path::unified(p, windows);
    if path::is_absolute(u) {
        u
    } else {
        path::joined_on(cwd, p, windows)
    }
}

fn reached_path(cwd: &str, p: &str, windows: bool) -> (r: String)
    ensures
        r@ == reached(cwd@, p@, windows),
{
    let u = path::unify(p, windows);
    if path::absolute(u.as_str()) {
        u
    } else {
        path::join_on(cwd, p, windows)
    }
}

/// Where the path that a guest names leads, if the guest may go there: below
/// its working directory, below the user's own `.gm`, or below a directory
/// that it named before. Without a home directory there is no user's own
/// `.gm`; the other two count all the same.
pub open spec fn sandboxed(
    cwd: Seq<char>,
    p: Seq<char>,
    roots: Seq<Seq<char>>,
    user: Option<NormalView>,
    windows: bool,
) -> Option<NormalView> {
    match (path::normalized(reached(cwd, p, windows), windows), path::normalized(cwd, windows)) {
        (Some(full), Some(root)) => if path::is_under(full, root) || under_user_root(full, user)
            || under_any(full, roots, windows) {
            Some(full)
        } else {
            None
        },
        _ => None,
    }
}

/// Where a guest's path leads, in normal form.
pub fn sandboxed_path(
    cwd: &str,
    guest_path: &str,
    extra_roots: &Vec<String>,
    user: Option<NormalPath>,
    windows: bool,
) -> (r: Option<NormalPath>)
    ensures
        opt_normal(r) == sandboxed(
            cwd@,
            guest_path@,
            text::string_views(extra_roots@),
            opt_normal(user),
            windows,
        ),
{
    let joined = reached_path(cwd, guest_path, windows);
    let full = match path::normalize(joined.as_str(), windows) {
        Some(n) => n,
        None => {
            return None;
        },
    };
    let root = match path::normalize(cwd, windows) {
        Some(n) => n,
        None => {
            return None;
        },
    };
    if full.under(&root) {
        return Some(full);
    }
    match &user {
        Some(own) => {
            if full.under(own) {
                return Some(full);
            }
        },
        None => {},
    }
    let ghost roots = text::string_views(extra_roots@);
    for i in 0..extra_roots.len()
        invariant
            roots == text::string_views(extra_roots@),
            path::normalized(reached(cwd@, guest_path@, windows), windows) == Some(full@),
            path::normalized(cwd@, windows) == Some(root@),
            !path::is_under(full@, root@),
            !under_user_root(full@, opt_normal(user)),
            forall|j: int|
                0 <= j < i ==> !(path::normalized(#[trigger] roots[j], windows) is Some && path::is_under(
                    full@,
                    path::normalized(roots[j], windows)->0,
                )),
    {
        assert(roots[i as int] == extra_roots@[i as int]@);
        match path::normalize(extra_roots[i].as_str(), windows) {
            Some(extra) => {
                if full.under(&extra) {
                    assert(under_any(full@, roots, windows));
                    return Some(full);
                }
            },
            None => {},
        }
    }
    None
}

/// Where a guest's path leads, as a text.
pub open spec fn sandboxed_text(
    cwd: Seq<char>,
    p: Seq<char>,
    roots: Seq<Seq<char>>,
    user: Option<NormalView>,
    windows: bool,
) -> Option<Seq<char>> {
    match sandboxed(cwd, p, roots, user, windows) {
        Some(n) => Some(path::rendered(n)),
        None => None,
    }
}

/// Where the path that a guest names leads, if the guest may go there.
pub fn sandboxed_guest_path_with_extra_roots(
    cwd: &str,
    guest_path: &str,
    extra_roots: &Vec<String>,
    home: Option<&str>,
    profile: Option<&str>,
    windows: bool,
) -> (r: Option<String>)
    ensures
        text::opt_string_view(r) == sandboxed_text(
            cwd@,
            guest_path@,
            text::string_views(extra_roots@),
            user_root(text::opt_view(home), text::opt_view(profile), windows),
            windows,
        ),
{
    let user = user_gm_root(home, profile, windows);
    match sandboxed_path(cwd, guest_path, extra_roots, user, windows) {
        Some(n) => Some(n.render()),
        None => None,
    }
}

/// A path that a guest may reach lies below its working directory, the user's
/// own `.gm`, or a directory that it named; and it holds no `..` any more, nor
/// anything that could part it into one.
pub proof fn law_sandbox_holds(
    cwd: Seq<char>,
    p: Seq<char>,
    roots: Seq<Seq<char>>,
    user: Option<NormalView>,
    windows: bool,
)
    requires
        sandboxed(cwd, p, roots, user, windows) is Some,
    ensures
        ({
            let full = sandboxed(cwd, p, roots, user, windows)->0;
            &&& (path::normalized(cwd, windows) is Some && path::is_under(full, path::normalized(cwd, windows)->0))
                || under_user_root(full, user) || under_any(full, roots, windows)
            &&& forall|i: int|
                0 <= i < full.parts.len() ==> (#[trigger] full.parts[i]) != ".."@ && full.parts[i]
                    != "."@ && full.parts[i].len() > 0 && !full.parts[i].contains('/') && (windows
                    ==> !full.parts[i].contains('\\'))
        }),
{
    let joined = reached(cwd, p, windows);
    let full = sandboxed(cwd, p, roots, user, windows)->0;
    assert forall|i: int| 0 <= i < full.parts.len() implies (#[trigger] full.parts[i]) != ".."@
        && full.parts[i] != "."@ && full.parts[i].len() > 0 && !full.parts[i].contains('/') && (windows
        ==> !full.parts[i].contains('\\')) by {
        path::law_normal_form_has_no_dots(joined, windows, i);
    }
}

/// Naming a further directory takes nothing away from what a guest may reach.
pub proof fn law_extra_roots_only_add(
    cwd: Seq<char>,
    p: Seq<char>,
    roots: Seq<Seq<char>>,
    root: Seq<char>,
    user: Option<NormalView>,
    windows: bool,
)
    requires
        sandboxed(cwd, p, roots, user, windows) is Some,
    ensures
        sandboxed(cwd, p, roots.push(root), user, windows) == sandboxed(cwd, p, roots, user, windows),
{
    let full = path::normalized(reached(cwd, p, windows), windows)->0;
    if under_any(full, roots, windows) {
        let i = choose|i: int|
            0 <= i < roots.len() && path::normalized(#[trigger] roots[i], windows) is Some
                && path::is_under(full, path::normalized(roots[i], windows)->0);
        assert(roots.push(root)[i] == roots[i]);
        assert(under_any(full, roots.push(root), windows));
    }
}

/// The files and directories that mark a project.
pub open spec fn project_markers() -> Seq<Seq<char>> {
    seq![".git"@, ".gm"@, "package.json"@, "Cargo.toml"@, "go.mod"@, "pyproject.toml"@]
}

/// The paths of which one must be there for `dir` to be a project.
pub fn project_marker_paths(dir: &str) -> (r: Vec<String>)
    ensures
        r@.len() == project_markers().len(),
        forall|i: int|
            0 <= i < r@.len() ==> (#[trigger] r@[i])@ == path::joined_path(
                dir@,
                project_markers()[i],
            ),
{
    let mut out: Vec<String> = Vec::new();
    out.push(path::join(dir, ".git"));
    out.push(path::join(dir, ".gm"));
    out.push(path::join(dir, "package.json"));
    out.push(path::join(dir, "Cargo.toml"));
    out.push(path::join(dir, "go.mod"));
    out.push(path::join(dir, "pyproject.toml"));
    out
}

/// Lets a guest read below a directory that it names, if that is a project.
/// Gives one where it is let, and zero otherwise.
pub fn allow_root(state: &mut HostState, normalized: &str, is_dir: bool, has_marker: bool) -> (r:
    u32)
    ensures
        r == (if is_dir && has_marker {
            1u32
        } else {
            0u32
        }),
        final(state)@ == (if is_dir && has_marker {
            HostView {
                roots: if path::names_path(old(state)@.roots, normalized@) {
                    old(state)@.roots
                } else {
                    old(state)@.roots.push(normalized@)
                },
                ..old(state)@
            }
        } else {
            old(state)@
        }),
{
    if is_dir && has_marker {
        state.allow_extra_root(normalized);
        1
    } else {
        0
    }
}

/// Whether a guarded write goes ahead: the file holds what the guest expects.
/// A file that cannot be read counts as empty.
pub open spec fn holds_expected(current: Option<Seq<char>>, expected: Seq<char>) -> bool {
    match current {
        Some(c) => c == expected,
        None => expected.len() == 0,
    }
}

/// What a file holds after a guarded write that did not fail.
pub open spec fn after_cas(
    current: Option<Seq<char>>,
    expected: Seq<char>,
    data: Seq<char>,
) -> Option<Seq<char>> {
    if holds_expected(current, expected) {
        Some(data)
    } else {
        current
    }
}

/// Whether a guarded write goes ahead.
pub fn cas_write_goes_ahead(current: Option<&str>, expected: &str) -> (r: bool)
    ensures
        r == holds_expected(text::opt_view(current), expected@),
{
    match current {
        Some(c) => text::str_eq(c, expected),
        None => expected.is_empty(),
    }
}

/// Of two guests that change the same content, the second does not undo what
/// the first wrote: its guarded write does not go ahead, and the file still
/// holds what the first wrote.
pub proof fn law_no_update_is_lost(
    current: Option<Seq<char>>,
    expected: Seq<char>,
    first: Seq<char>,
    second: Seq<char>,
)
    requires
        holds_expected(current, expected),
        first != expected,
    ensures
        !holds_expected(after_cas(current, expected, first), expected),
        after_cas(after_cas(current, expected, first), expected, second) == Some(first),
{
}

/// What a guest gets for a guarded write: one where it was made, two where the
/// file held something else, zero where writing failed.
pub fn cas_write_code(went_ahead: bool, written: bool) -> (r: u32)
    ensures
        r == (if !went_ahead {
            2u32
        } else if written {
            1u32
        } else {
            0u32
        }),
{
    if !went_ahead {
        2
    } else if written {
        1
    } else {
        0
    }
}

/// What a guest gets for the state of a file.
pub fn stat_reply(is_dir: bool, is_file: bool, size: u64, mtime_ms: u64) -> (r: Json)
    ensures
        json::tree(r) == json::obj5(
            "isDirectory"@,
            JsonTree::Bool(is_dir),
            "isFile"@,
            JsonTree::Bool(is_file),
            "size"@,
            json::uint_tree(size as nat),
            "mtimeMs"@,
            json::uint_tree(mtime_ms as nat),
            "mtime_ms"@,
            json::uint_tree(mtime_ms as nat),
        ),
{
    json::object5(
        "isDirectory",
        json::boolean(is_dir),
        "isFile",
        json::boolean(is_file),
        "size",
        json::uint(size),
        "mtimeMs",
        json::uint(mtime_ms),
        "mtime_ms",
        json::uint(mtime_ms),
    )
}

// ---------------------------------------------------------------------------
// Logging
// ---------------------------------------------------------------------------
/// Where the events of a project are logged.
pub open spec fn watcher_log(root: Seq<char>) -> Seq<char> {
    path::joined3(root, ".gm"@, "exec-spool"@, ".watcher.log"@)
}

pub fn watcher_log_path(root: &str) -> (r: String)
    ensures
        r@ == watcher_log(root@),
{
    path::join3(root, ".gm", "exec-spool", ".watcher.log")
}

/// Where a guest's message goes.
pub enum LogEntry {
    /// A line appended to a file.
    Event { file: String, line: String },
    /// A line for the host's own error output.
    Console { line: String },
}

/// Sorts a guest's message: one that starts with `evt: ` is an event of the
/// project, any other goes to the host's error output.
pub fn log_entry(cwd: &str, plugin: &str, level: u32, msg: &str) -> (r: LogEntry)
    ensures
        match text::after_prefix(msg@, "evt: "@) {
            Some(rest) => r matches LogEntry::Event { file, line } && file@ == watcher_log(cwd@)
                && line@ == "evt: "@ + rest,
            None => r matches LogEntry::Console { line } && line@ == "[agentplug:"@ + plugin@
                + " L"@ + text::decimal(level as nat) + "] "@ + msg@,
        },
{
    match text::strip_prefix(msg, "evt: ") {
        Some(rest) => LogEntry::Event {
            file: watcher_log_path(cwd),
            line: text::add2("evt: ", rest),
        },
        None => {
            let head = text::add5(
                "[agentplug:",
                plugin,
                " L",
                text::u64_text(level as u64).as_str(),
                "] ",
            );
            LogEntry::Console { line: text::add2(head.as_str(), msg) }
        },
    }
}

// ---------------------------------------------------------------------------
// Pseudo-random bytes
// ---------------------------------------------------------------------------
/// The next state of the generator.
pub open spec fn next_seed(seed: u64) -> u64 {
    let a = seed ^ (seed << 13);
    let b = a ^ (a >> 7);
    b ^ (b << 17)
}

/// The state of the generator after `n` steps.
pub open spec fn seed_after(seed: u64, n: nat) -> u64
    decreases n,
{
    if n == 0 {
        seed
    } else {
        next_seed(seed_after(seed, (n - 1) as nat))
    }
}

/// The state that the generator starts with, from the time in nanoseconds and
/// the process.
pub fn first_seed(nanos: Option<u64>, pid: u32) -> (r: u64)
    ensures
        r == (match nanos {
            Some(n) => n,
            None => 0x9E3779B97F4A7C15u64,
        }) ^ (pid as u64).wrapping_mul(0xBF58476D1CE4E5B9),
{
    let n: u64 = match nanos {
        Some(n) => n,
        None => 0x9E3779B97F4A7C15,
    };
    n ^ (pid as u64).wrapping_mul(0xBF58476D1CE4E5B9)
}

/// `len` bytes of the generator: the lowest byte of each state after the
/// first.
pub fn random_fill(seed: u64, len: u32) -> (r: Vec<u8>)
    ensures
        r@.len() == len,
        forall|i: int|
            0 <= i < len ==> #[trigger] r@[i] == (seed_after(seed, (i + 1) as nat) & 0xff) as u8,
{
    let mut out: Vec<u8> = Vec::new();
    let mut s: u64 = seed;
    let mut i: u32 = 0;
    while i < len
        invariant
            i <= len,
            out@.len() == i,
            s == seed_after(seed, i as nat),
            forall|k: int|
                0 <= k < i ==> #[trigger] out@[k] == (seed_after(seed, (k + 1) as nat) & 0xff) as u8,
        decreases len - i,
    {
        s = s ^ (s << 13);
        s = s ^ (s >> 7);
        s = s ^ (s << 17);
        assert(s == seed_after(seed, (i + 1) as nat));
        out.push((s & 0xff) as u8);
        i += 1;
    }
    out
}

// ---------------------------------------------------------------------------
// Options and requests
// ---------------------------------------------------------------------------
/// What an options text stands for, given what it reads as: an object without
/// fields where it is empty or reads as nothing.
pub open spec fn options_tree(s: Seq<char>, parsed: Result<JsonTree, Seq<char>>) -> JsonTree {
    if s.len() == 0 {
        json::no_fields()
    } else {
        match parsed {
            Ok(t) => t,
            Err(_) => json::no_fields(),
        }
    }
}

/// Reads an options text.
pub fn options_of(s: &str) -> (r: Json)
    ensures
        json::tree(r) == options_tree(s@, json::parsed_json(s@)),
{
    if s.is_empty() {
        return json::object();
    }
    match json::parse(s) {
        Ok(j) => j,
        Err(_) => json::object(),
    }
}

/// A request to another host, as it is sent.
pub struct FetchRequest {
    pub method: String,
    pub url: String,
    pub headers: Vec<(String, String)>,
    pub timeout_ms: Option<u64>,
    pub body: Option<String>,
}

/// The value, or the default where there is none.
pub open spec fn or_default(o: Option<Seq<char>>, default: Seq<char>) -> Seq<char> {
    match o {
        Some(s) => s,
        None => default,
    }
}

/// The optional number as a value.
pub open spec fn opt_nat(o: Option<u64>) -> Option<nat> {
    match o {
        Some(n) => Some(n as nat),
        None => None,
    }
}

/// Turns a guest's options into a request: the method in upper case and `GET`
/// by default, the headers that are texts in the order of their names, the
/// timeout and the body.
pub fn fetch_request(url: &str, opts: &Json) -> (r: FetchRequest)
    ensures
        r.url@ == url@,
        r.method@ == text::upper(
            or_default(json::field_str(json::tree(*opts), "method"@), "GET"@),
        ),
        text::opt_string_view(r.body) == json::field_str(json::tree(*opts), "body"@),
        opt_nat(r.timeout_ms) == json::field_u64(json::tree(*opts), "timeoutMs"@),
        match json::field(json::tree(*opts), "headers"@) {
            Some(h) => json::lists_text_fields(r.headers@, h),
            None => r.headers@.len() == 0,
        },
{
    let method = match opts.str_field("method") {
        Some(m) => m,
        None => "GET",
    };
    let headers = match opts.get("headers") {
        Some(h) => json::text_fields(h),
        None => Vec::new(),
    };
    let body = match opts.str_field("body") {
        Some(b) => Some(b.to_owned()),
        None => None,
    };
    FetchRequest {
        method: text::to_upper(method),
        url: url.to_owned(),
        headers,
        timeout_ms: opts.u64_field("timeoutMs"),
        body,
    }
}

/// What a guest gets for a request that was answered.
pub fn fetch_reply(ok: bool, status: u16, body: &str) -> (r: Json)
    ensures
        json::tree(r) == json::obj3(
            "ok"@,
            JsonTree::Bool(ok),
            "status"@,
            json::uint_tree(status as nat),
            "body"@,
            JsonTree::Str(body@),
        ),
{
    json::object3(
        "ok",
        json::boolean(ok),
        "status",
        json::uint(status as u64),
        "body",
        json::str(body),
    )
}

/// What a guest gets for a request that failed.
pub fn fetch_failed_reply(error: &str) -> (r: Json)
    ensures
        json::tree(r) == json::obj3(
            "ok"@,
            JsonTree::Bool(false),
            "status"@,
            json::uint_tree(0),
            "error"@,
            JsonTree::Str(error@),
        ),
{
    json::object3(
        "ok",
        json::boolean(false),
        "status",
        json::uint(0),
        "error",
        json::str(error),
    )
}

/// What a guest gets for the vector search that it runs by itself.
pub fn vec_search_reply() -> (r: Json)
    ensures
        json::tree(r) == json::obj2(
            "ok"@,
            JsonTree::Bool(false),
            "error"@,
            JsonTree::Str("host_vec_search_unused_guest_runs_libsql_directly"@),
        ),
{
    json::object2(
        "ok",
        json::boolean(false),
        "error",
        json::str("host_vec_search_unused_guest_runs_libsql_directly"),
    )
}

/// The working directory of a call: the one it names, or the guest's own where
/// it names none.
pub fn effective_cwd(named: &str, own: &str) -> (r: String)
    ensures
        r@ == (if text::is_blank(named@) {
            own@
        } else {
            named@
        }),
{
    if text::blank(named) {
        own.to_owned()
    } else {
        named.to_owned()
    }
}

// ---------------------------------------------------------------------------
// The key-value store
// ---------------------------------------------------------------------------
/// A name that is safe as a file name.
pub open spec fn safe(s: Seq<char>) -> Seq<char> {
    text::masked(s, "._-"@, '_')
}

pub fn safe_name(s: &str) -> (r: String)
    ensures
        r@ == safe(s@),
{
    text::mask(s, "._-", '_')
}

/// Where the values of a namespace are kept.
pub open spec fn kv_dir(cwd: Seq<char>, ns: Seq<char>) -> Seq<char> {
    path::joined2(cwd, ".agentplug-kv"@, safe(ns))
}

pub fn kv_namespace_dir(cwd: &str, ns: &str) -> (r: String)
    ensures
        r@ == kv_dir(cwd@, ns@),
{
    path::join2(cwd, ".agentplug-kv", safe_name(ns).as_str())
}

/// Where a value is kept; nowhere for an empty namespace or key.
pub open spec fn kv_file(cwd: Seq<char>, ns: Seq<char>, key: Seq<char>) -> Option<Seq<char>> {
    if ns.len() == 0 || key.len() == 0 {
        None
    } else {
        Some(path::joined_path(kv_dir(cwd, ns), safe(key) + ".json"@))
    }
}

pub fn kv_file_path(cwd: &str, ns: &str, key: &str) -> (r: Option<String>)
    ensures
        text::opt_string_view(r) == kv_file(cwd@, ns@, key@),
{
    if ns.is_empty() || key.is_empty() {
        return None;
    }
    let name = text::add2(safe_name(key).as_str(), ".json");
    Some(path::join(kv_namespace_dir(cwd, ns).as_str(), name.as_str()))
}

/// A safe name holds no `/`: a value stays below its namespace.
pub proof fn law_safe_names_are_one_segment(s: Seq<char>)
    ensures
        forall|i: int| 0 <= i < safe(s).len() ==> #[trigger] safe(s)[i] != '/',
        safe(safe(s)) == safe(s),
{
    reveal_strlit("._-");
    assert("._-"@[1] == '_');
    text::law_masking_twice_is_masking_once(s, "._-"@, '_');
    assert forall|i: int| 0 <= i < safe(s).len() implies #[trigger] safe(s)[i] != '/' by {
        assert(text::is_alnum(safe(s)[i]) || "._-"@.contains(safe(s)[i]));
    }
}

/// Whether a stored value is a hit of a query.
pub open spec fn kv_hit(q: Seq<char>, name: Seq<char>, content: Seq<char>) -> bool {
    path::extension(name) == Some("json"@) && (q.len() == 0 || text::has_text(
        text::lower(content),
        q,
    ))
}

/// The hits of a query among the first `n` files, each with its key and value.
pub open spec fn kv_hits(q: Seq<char>, files: Seq<(String, String)>, n: int) -> Seq<JsonTree>
    decreases n,
{
    if n <= 0 {
        Seq::empty()
    } else {
        let rest = kv_hits(q, files, n - 1);
        let (name, content) = (files[n - 1].0@, files[n - 1].1@);
        if kv_hit(q, name, content) {
            rest.push(
                json::obj2(
                    "key"@,
                    JsonTree::Str(path::stem(name)),
                    "value"@,
                    JsonTree::Str(content),
                ),
            )
        } else {
            rest
        }
    }
}

/// Answers a query over the files of a namespace, given by name and content:
/// those whose value holds the query, in any letter case.
pub fn kv_query(query: &str, files: &Vec<(String, String)>) -> (r: Json)
    ensures
        json::tree(r) == JsonTree::Array(
            kv_hits(text::lower(query@), files@, files@.len() as int),
        ),
{
    let q = text::to_lower(query);
    let mut out: Vec<Json> = Vec::new();
    for i in 0..files.len()
        invariant
            q@ == text::lower(query@),
            json::trees(out@) == kv_hits(q@, files@, i as int),
    {
        let name = files[i].0.as_str();
        let content = files[i].1.as_str();
        let ghost before = out@;
        let is_json = match path::extension_of(name) {
            Some(e) => text::str_eq(e, "json"),
            None => false,
        };
        if is_json && (q.as_str().is_empty() || text::contains(
            text::to_lower(content).as_str(),
            q.as_str(),
        )) {
            out.push(
                json::object2(
                    "key",
                    json::str(path::stem_of(name)),
                    "value",
                    json::str(content),
                ),
            );
            assert(out@.drop_last() == before);
        }
    }
    Json::Array(out)
}

// ---------------------------------------------------------------------------
// Embedding
// ---------------------------------------------------------------------------
/// The largest text that is embedded, in bytes.
pub const EMBED_TEXT_MAX: usize = 1024 * 1024;

/// How often an embedding is tried.
pub const EMBED_RETRY_ATTEMPTS: u32 = 3;

/// The pause between two tries, in milliseconds.
pub const EMBED_RETRY_BACKOFF_MS: u64 = 500;

/// Whether a text is embedded for a caller.
pub fn embed_allowed(embed_text: &str, config: Option<&StrMap<Vec<String>>>, caller: &str) -> (r:
    bool)
    ensures
        r == (embed_text@.len() > 0 && text::byte_count(embed_text@) <= EMBED_TEXT_MAX
            && call_allowed(allowlist_view(config), caller@, "bert"@)),
{
    !embed_text.is_empty() && text::byte_len(embed_text) <= EMBED_TEXT_MAX
        && plugin_call_capability_allowed(config, caller, "bert")
}

/// The body of the request that embeds a text.
pub fn embed_body(embed_text: &str) -> (r: String)
    ensures
        r@ == json::json_text(
            json::written(json::obj1("text"@, JsonTree::Str(embed_text@))),
        ),
{
    json::to_text(&json::object1("text", json::str(embed_text)))
}

/// What follows a try.
pub enum EmbedStep {
    Done,
    Retry { after_ms: u64 },
    GiveUp,
}

/// What follows the try number `attempt`, counted from zero.
pub fn embed_step(attempt: u32, succeeded: bool) -> (r: EmbedStep)
    ensures
        r == (if succeeded {
            EmbedStep::Done
        } else if attempt + 1 < EMBED_RETRY_ATTEMPTS {
            EmbedStep::Retry { after_ms: EMBED_RETRY_BACKOFF_MS }
        } else {
            EmbedStep::GiveUp
        }),
{
    if succeeded {
        EmbedStep::Done
    } else if attempt < EMBED_RETRY_ATTEMPTS - 1 {
        EmbedStep::Retry { after_ms: EMBED_RETRY_BACKOFF_MS }
    } else {
        EmbedStep::GiveUp
    }
}

/// The texts of the numbers in a list of JSON values.
pub open spec fn number_texts(s: Seq<JsonTree>) -> Seq<Seq<char>>
    decreases s.len(),
{
    if s.len() == 0 {
        Seq::empty()
    } else {
        match s.last() {
            JsonTree::Number(n) => number_texts(s.drop_last()).push(n),
            _ => number_texts(s.drop_last()),
        }
    }
}

/// The numbers of an embedding, given what the response reads as.
pub open spec fn embedding_in(parsed: Result<JsonTree, Seq<char>>) -> Result<
    Seq<Seq<char>>,
    Seq<char>,
> {
    match parsed {
        Ok(t) => match json::field(t, "embedding"@) {
            Some(JsonTree::Array(s)) => Ok(number_texts(s)),
            _ => Err("no embedding field"@),
        },
        Err(e) => Err(e),
    }
}

/// The numbers of an embedding, or the error, as a value.
pub open spec fn numbers_view(r: Result<Vec<String>, String>) -> Result<
    Seq<Seq<char>>,
    Seq<char>,
> {
    match r {
        Ok(l) => Ok(text::string_views(l@)),
        Err(e) => Err(e@),
    }
}

/// The numbers of an embedding in a JSON value.
pub fn embedding_of(v: &Json) -> (r: Result<Vec<String>, String>)
    ensures
        numbers_view(r) == embedding_in(json::read_ok(json::tree(*v))),
{
    match v.get("embedding") {
        Some(Json::Array(a)) => {
            let mut out: Vec<String> = Vec::new();
            let ghost all = json::trees(a@);
            proof {
                json::lemma_trees(a@);
            }
            assert(all.take(0) =~= Seq::<JsonTree>::empty());
            assert(text::string_views(out@) =~= Seq::<Seq<char>>::empty());
            for i in 0..a.len()
                invariant
                    all == json::trees(a@),
                    all.len() == a@.len(),
                    forall|k: int| 0 <= k < a@.len() ==> all[k] == #[trigger] json::tree(a@[k]),
                    number_texts(all.take(i as int)) == text::string_views(out@),
            {
                let ghost before = out@;
                let ghost head = all.take(i + 1);
                assert(head.drop_last() =~= all.take(i as int));
                assert(head.last() == json::tree(a@[i as int]));
                match &a[i] {
                    Json::Number(t) => {
                        out.push(t.clone());
                        assert(text::string_views(out@) =~= text::string_views(before).push(t@));
                    },
                    _ => {},
                }
            }
            assert(all.take(all.len() as int) =~= all);
            Ok(out)
        },
        _ => Err("no embedding field".to_owned()),
    }
}

/// The numbers of an embedding in a response.
pub fn embedding_numbers(response: &str) -> (r: Result<Vec<String>, String>)
    ensures
        numbers_view(r) == embedding_in(json::parsed_json(response@)),
{
    match json::parse(response) {
        Ok(v) => embedding_of(&v),
        Err(e) => Err(e),
    }
}

// ---------------------------------------------------------------------------
// Git
// ---------------------------------------------------------------------------
/// How long a git process may run, in milliseconds, unless set otherwise.
pub const GIT_SUBPROCESS_TIMEOUT_MS_DEFAULT: u64 = 300_000;

/// How long a git process may run, given what is set: a positive number, or
/// the default.
pub open spec fn git_timeout(set: Option<Seq<char>>) -> nat {
    match set {
        Some(v) => match text::parsed_uint(text::trimmed(v), u64::MAX as nat) {
            Some(ms) => if ms > 0 {
                ms
            } else {
                GIT_SUBPROCESS_TIMEOUT_MS_DEFAULT as nat
            },
            None => GIT_SUBPROCESS_TIMEOUT_MS_DEFAULT as nat,
        },
        None => GIT_SUBPROCESS_TIMEOUT_MS_DEFAULT as nat,
    }
}

pub fn git_subprocess_timeout_ms(set: Option<&str>) -> (r: u64)
    ensures
        r == git_timeout(text::opt_view(set)),
{
    match set {
        Some(v) => match text::parse_u64(text::trim(v)) {
            Some(ms) => if ms > 0 {
                ms
            } else {
                GIT_SUBPROCESS_TIMEOUT_MS_DEFAULT
            },
            None => GIT_SUBPROCESS_TIMEOUT_MS_DEFAULT,
        },
        None => GIT_SUBPROCESS_TIMEOUT_MS_DEFAULT,
    }
}

/// The arguments of a git call, given what they read as: a JSON list of texts,
/// or words.
pub open spec fn git_args(args: Seq<char>, parsed: Result<JsonTree, Seq<char>>) -> Seq<Seq<char>> {
    let t = text::trimmed(args);
    if t.len() > 0 && t[0] == '[' {
        match parsed {
            Ok(v) => match json::text_list(v) {
                Some(l) => l,
                None => text::words(t),
            },
            Err(_) => text::words(t),
        }
    } else {
        text::words(t)
    }
}

fn owned_words(t: &str) -> (r: Vec<String>)
    ensures
        text::string_views(r@) == text::words(t@),
{
    let ws = text::words_of(t);
    let mut out: Vec<String> = Vec::new();
    for i in 0..ws.len()
        invariant
            out@.len() == i,
            forall|k: int| 0 <= k < i ==> (#[trigger] out@[k])@ == ws@[k]@,
    {
        out.push(ws[i].to_owned());
    }
    assert(text::string_views(out@) =~= text::views(ws@));
    out
}

/// Takes the arguments of a git call apart.
pub fn git_argv(args: &str) -> (r: Vec<String>)
    ensures
        text::string_views(r@) == git_args(args@, json::parsed_json(text::trimmed(args@))),
{
    let t = text::trim(args);
    let n: usize = t.unicode_len();
    if n > 0 && t.get_char(0) == '[' {
        match json::parse(t) {
            Ok(v) => match json::texts_of(&v) {
                Some(l) => l,
                None => owned_words(t),
            },
            Err(_) => owned_words(t),
        }
    } else {
        owned_words(t)
    }
}

/// Where a git call runs: where it says, seen from the guest's own directory.
pub fn git_cwd(named: &str, own: &str, windows: bool) -> (r: String)
    ensures
        r@ == (if named@.len() == 0 {
            own@
        } else {
            path::joined_on(own@, named@, windows)
        }),
{
    if named.is_empty() {
        own.to_owned()
    } else {
        path::join_on(own, named, windows)
    }
}

/// The answer to a git call.
pub open spec fn git_answer(stdout: Seq<char>, stderr: Seq<char>, exit_code: int) -> JsonTree {
    json::obj3(
        "stdout"@,
        JsonTree::Str(stdout),
        "stderr"@,
        JsonTree::Str(stderr),
        "exit_code"@,
        json::int_tree(exit_code),
    )
}

/// The answer to a git call that ran; no exit code counts as minus one.
pub fn git_reply(stdout: &str, stderr: &str, exit_code: Option<i32>) -> (r: Json)
    ensures
        json::tree(r) == git_answer(
            stdout@,
            stderr@,
            match exit_code {
                Some(c) => c as int,
                None => -1,
            },
        ),
{
    let code: i64 = match exit_code {
        Some(c) => c as i64,
        None => -1,
    };
    json::object3(
        "stdout",
        json::str(stdout),
        "stderr",
        json::str(stderr),
        "exit_code",
        json::signed(code),
    )
}

/// The answer to a git call whose directory is not there.
pub fn git_no_cwd_reply(cwd: &str, named: &str) -> (r: Json)
    ensures
        json::tree(r) == git_answer(
            ""@,
            "git cwd does not exist: "@ + cwd@ + " (resolved from cwd arg "@ + text::quoted(named@)
                + ") -- pass an absolute path, or a path relative to the dispatch's own working directory, not a bare project/repo name"@,
            -1,
        ),
{
    let stderr = text::add5(
        "git cwd does not exist: ",
        cwd,
        " (resolved from cwd arg ",
        text::quote(named).as_str(),
        ") -- pass an absolute path, or a path relative to the dispatch's own working directory, not a bare project/repo name",
    );
    git_reply("", stderr.as_str(), None)
}

/// A list of texts as it is shown for debugging.
pub open spec fn quoted_list(list: Seq<Seq<char>>) -> Seq<char> {
    "["@ + text::joined(Seq::new(list.len(), |i: int| text::quoted(list[i])), ", "@) + "]"@
}

fn quote_list(list: &Vec<String>) -> (r: String)
    ensures
        r@ == quoted_list(text::string_views(list@)),
{
    let mut out: Vec<String> = Vec::new();
    for i in 0..list.len()
        invariant
            out@.len() == i,
            forall|k: int| 0 <= k < i ==> (#[trigger] out@[k])@ == text::quoted(list@[k]@),
    {
        out.push(text::quote(list[i].as_str()));
    }
    assert(text::string_views(out@) =~= Seq::new(
        text::string_views(list@).len(),
        |i: int| text::quoted(text::string_views(list@)[i]),
    ));
    text::add3("[", text::join_strings(&out, ", ").as_str(), "]")
}

/// The answer to a git call that ran out of time.
pub fn git_timeout_reply(argv: &Vec<String>, timeout_ms: u64) -> (r: Json)
    ensures
        json::tree(r) == git_answer(
            ""@,
            "git "@ + quoted_list(text::string_views(argv@)) + " timed out after "@ + text::decimal(
                timeout_ms as nat,
            ) + "ms, killed"@,
            -1,
        ),
{
    let stderr = text::add5(
        "git ",
        quote_list(argv).as_str(),
        " timed out after ",
        text::u64_text(timeout_ms).as_str(),
        "ms, killed",
    );
    git_reply("", stderr.as_str(), None)
}

/// The answer to a git call that could not be waited for.
pub fn git_wait_failed_reply(error: &str) -> (r: Json)
    ensures
        json::tree(r) == git_answer(""@, "wait_timeout failed: "@ + error@, -1),
{
    git_reply("", text::add2("wait_timeout failed: ", error).as_str(), None)
}

/// The answer to a git call that could not be started.
pub fn git_spawn_failed_reply(error: &str) -> (r: Json)
    ensures
        json::tree(r) == git_answer(""@, error@, 1),
{
    git_reply("", error, Some(1))
}

/// The names of the fields differ.
proof fn lemma_answer_names()
    ensures
        "ok"@.len() == 2,
        "error"@.len() == 5,
        "plugin"@.len() == 6,
        "verb"@.len() == 4,
        "reason"@.len() == 6,
        "caller"@.len() == 6,
        "key"@.len() == 3,
        "value"@.len() == 5,
        "stdout"@.len() == 6,
        "stderr"@.len() == 6,
        "exit_code"@.len() == 9,
        "embedding"@.len() == 9,
        "error"@[0] == 'e' && "value"@[0] == 'v',
        "plugin"@[0] == 'p' && "reason"@[0] == 'r',
        "plugin"@[0] == 'p' && "caller"@[0] == 'c',
        "plugin"@[0] == 'p' && "stdout"@[0] == 's',
        "plugin"@[0] == 'p' && "stderr"@[0] == 's',
        "reason"@[0] == 'r' && "caller"@[0] == 'c',
        "reason"@[0] == 'r' && "stdout"@[0] == 's',
        "reason"@[0] == 'r' && "stderr"@[0] == 's',
        "caller"@[0] == 'c' && "stdout"@[0] == 's',
        "caller"@[0] == 'c' && "stderr"@[0] == 's',
        "stdout"@[3] == 'o' && "stderr"@[3] == 'e',
        "exit_code"@[1] == 'x' && "embedding"@[1] == 'm',
{
    reveal_strlit("ok");
    reveal_strlit("error");
    reveal_strlit("plugin");
    reveal_strlit("verb");
    reveal_strlit("reason");
    reveal_strlit("caller");
    reveal_strlit("key");
    reveal_strlit("value");
    reveal_strlit("stdout");
    reveal_strlit("stderr");
    reveal_strlit("exit_code");
    reveal_strlit("embedding");
}

/// Without a list of its own, only `gm` calls other plugins, and only those
/// that serve it; with one, a plugin calls what the list names for it.
pub proof fn law_capabilities_are_named(
    allow: Map<Seq<char>, Vec<String>>,
    caller: Seq<char>,
    callee: Seq<char>,
)
    ensures
        call_allowed(None, caller, callee) <==> caller == "gm"@ && (callee == "bert"@ || callee
            == "libsql"@ || callee == "treesitter"@ || callee == "liqology"@ || callee == "crux"@),
        call_allowed(Some(allow), caller, callee) <==> allow.dom().contains(caller) && exists|i: int|
            0 <= i < allow[caller]@.len() && (#[trigger] allow[caller]@[i])@ == callee,
{
}

/// A name of a plugin is one to 64 bytes of letters, digits, `-` and `_`; a verb
/// is one to 128 of those and dots.
pub proof fn law_names_of_a_call(name: Seq<char>, i: int)
    ensures
        good_plugin_name(name) ==> 0 < name.len() && text::byte_count(name) <= 64,
        good_verb(name) ==> 0 < name.len() && text::byte_count(name) <= 128,
        good_plugin_name(name) && 0 <= i < name.len() ==> text::is_alnum(name[i]) || name[i] == '-'
            || name[i] == '_',
        good_verb(name) && 0 <= i < name.len() ==> text::is_alnum(name[i]) || name[i] == '-' || name[i]
            == '_' || name[i] == '.',
        0 < name.len() && text::byte_count(name) <= 64 && (forall|k: int|
            0 <= k < name.len() ==> text::is_alnum(#[trigger] name[k]) || name[k] == '-' || name[k]
                == '_') ==> good_plugin_name(name),
        0 < name.len() && text::byte_count(name) <= 128 && (forall|k: int|
            0 <= k < name.len() ==> text::is_alnum(#[trigger] name[k]) || name[k] == '-' || name[k] == '_'
                || name[k] == '.') ==> good_verb(name),
{
    reveal_strlit("-_");
    reveal_strlit("-_.");
    assert("-_"@[0] == '-' && "-_"@[1] == '_');
    assert("-_."@[0] == '-' && "-_."@[1] == '_' && "-_."@[2] == '.');
    assert("-_"@.contains('-') && "-_"@.contains('_'));
    assert("-_."@.contains('-') && "-_."@.contains('_') && "-_."@.contains('.'));
}

/// A refused call is told why: its plugin, its verb, its body or its caller, the
/// first of these that is wrong. A call that is in order is not refused.
pub proof fn law_refused_call_is_told_why(
    config: Option<Map<Seq<char>, Vec<String>>>,
    caller: Seq<char>,
    plugin: Seq<char>,
    verb: Seq<char>,
    body_problem: Option<Seq<char>>,
)
    ensures
        good_plugin_name(plugin) && good_verb(verb) && body_problem is None && call_allowed(
            config,
            caller,
            plugin,
        ) <==> call_refusal(config, caller, plugin, verb, body_problem) is None,
        call_refusal(config, caller, plugin, verb, body_problem) matches Some(a) ==> {
            &&& json::field(a, "ok"@) == Some(JsonTree::Bool(false))
            &&& !good_plugin_name(plugin) ==> json::field(a, "error"@) == Some(
                JsonTree::Str("invalid_plugin_name"@),
            ) && json::field(a, "plugin"@) == Some(JsonTree::Str(plugin))
            &&& good_plugin_name(plugin) && !good_verb(verb) ==> json::field(a, "error"@) == Some(
                JsonTree::Str("invalid_verb"@),
            ) && json::field(a, "verb"@) == Some(JsonTree::Str(verb))
            &&& good_plugin_name(plugin) && good_verb(verb) && body_problem is Some ==> json::field(
                a,
                "error"@,
            ) == Some(JsonTree::Str("invalid_body"@)) && json::field(a, "reason"@) == Some(
                JsonTree::Str(body_problem->0),
            )
            &&& good_plugin_name(plugin) && good_verb(verb) && body_problem is None ==> json::field(
                a,
                "error"@,
            ) == Some(JsonTree::Str("capability_denied"@)) && json::field(a, "caller"@) == Some(
                JsonTree::Str(caller),
            ) && json::field(a, "plugin"@) == Some(JsonTree::Str(plugin))
        },
{
    lemma_answer_names();
}

/// A body is empty, or JSON of at most 64 MiB.
pub proof fn law_body_is_json_of_some_size(body: Seq<char>, t: JsonTree, e: Seq<char>)
    requires
        body.len() > 0,
    ensures
        body_error(Seq::empty(), Err(e)) is None,
        text::byte_count(body) <= 67_108_864 ==> body_error(body, Ok(t)) is None && body_error(
            body,
            Err(e),
        ) == Some("body_not_valid_json: "@ + e),
        text::byte_count(body) > 67_108_864 ==> body_error(body, Ok(t)) == Some(
            "body_exceeds_max_size"@,
        ),
{
}

/// A failed call tells its error and its plugin.
pub proof fn law_failed_call_is_told(error: Seq<char>, plugin: Seq<char>)
    ensures
        json::field(plugin_error(error, plugin), "ok"@) == Some(JsonTree::Bool(false)),
        json::field(plugin_error(error, plugin), "error"@) == Some(JsonTree::Str(error)),
        json::field(plugin_error(error, plugin), "plugin"@) == Some(JsonTree::Str(plugin)),
{
    lemma_answer_names();
}

/// A guest reaches every path that stays below its working directory, and that
/// is where it gets to.
pub proof fn law_guest_reaches_what_is_below(
    cwd: Seq<char>,
    rel: Seq<char>,
    roots: Seq<Seq<char>>,
    user: Option<NormalView>,
)
    requires
        path::is_absolute(cwd),
        cwd.last() != '/',
        rel.len() > 0,
        !path::is_absolute(rel),
        path::normalized(cwd, false) is Some,
        path::normalized(rel, false) is Some,
    ensures
        sandboxed(cwd, rel, roots, user, false) is Some,
        sandboxed(cwd, rel, roots, user, false)->0.parts == path::normalized(cwd, false)->0.parts
            + path::normalized(rel, false)->0.parts,
{
    path::law_path_below_has_the_parts_of_both(cwd, rel);
    let full = path::normalized(path::joined_on(cwd, rel, false), false)->0;
    let root = path::normalized(cwd, false)->0;
    assert(cwd.skip(0) =~= cwd);
    assert(full.prefix =~= root.prefix);
    assert(full.parts.subrange(0, root.parts.len() as int) =~= root.parts);
    assert(path::is_under(full, root));
}

/// A guest does not reach an absolute path that lies elsewhere, unless it is
/// the user's own or one that was named.
pub proof fn law_guest_does_not_leave(
    cwd: Seq<char>,
    p: Seq<char>,
    roots: Seq<Seq<char>>,
    user: Option<NormalView>,
    windows: bool,
)
    requires
        path::normalized(cwd, windows) is Some,
        path::normalized(reached(cwd, p, windows), windows) is Some,
    ensures
        ({
            let full = path::normalized(reached(cwd, p, windows), windows)->0;
            let root = path::normalized(cwd, windows)->0;
            &&& path::is_under(full, root) ==> sandboxed(cwd, p, roots, user, windows) == Some(full)
            &&& user is Some && path::is_under(full, user->0) ==> sandboxed(
                cwd,
                p,
                roots,
                user,
                windows,
            ) == Some(full)
            &&& !path::is_under(full, root) && user is None && roots.len() == 0 ==> sandboxed(
                cwd,
                p,
                roots,
                user,
                windows,
            ) is None
        }),
{
}

/// The user's own directory is `.gm` in the home directory; the profile stands
/// in for a home that is not set.
pub proof fn law_own_directory_is_in_the_home(home: Seq<char>, profile: Option<Seq<char>>)
    requires
        path::is_absolute(home),
        home.last() != '/',
        text::trimmed(home) == home,
        path::normalized(home, false) is Some,
    ensures
        user_root(Some(home), profile, false) is Some,
        user_root(Some(home), profile, false)->0.parts == path::normalized(home, false)->0.parts.push(
            ".gm"@,
        ),
        user_root(None, Some(home), false) == user_root(Some(home), None, false),
        user_root(None, None, false) is None,
{
    reveal_strlit(".gm");
    reveal_strlit(".");
    reveal_strlit("..");
    let gm = ".gm"@;
    assert(gm.skip(0) =~= gm);
    text::law_text_splits_at_each_mark(gm, '/', gm);
    assert(seq![gm].drop_last() =~= Seq::<Seq<char>>::empty());
    reveal_with_fuel(path::walked, 3);
    assert(path::walked(seq![gm]) == Some(seq![gm])) by {
        assert(Seq::<Seq<char>>::empty().push(gm) =~= seq![gm]);
    }
    path::law_path_below_has_the_parts_of_both(home, gm);
    assert(path::normalized(home, false)->0.parts + seq![gm] =~= path::normalized(home, false)->0.parts.push(
        gm,
    ));
}

/// A guarded write goes ahead where the file holds what was expected, nothing
/// being expected of a file that is not there; else the file is left alone.
pub proof fn law_guarded_write_goes_by_what_is_there(current: Seq<char>, expected: Seq<char>, data: Seq<char>)
    ensures
        after_cas(Some(expected), expected, data) == Some(data),
        current != expected ==> after_cas(Some(current), expected, data) == Some(current),
        after_cas(None, Seq::empty(), data) == Some(data),
        expected.len() > 0 ==> after_cas(None, expected, data) is None,
{
}

/// A value is kept in a file named after its key, in a directory named after
/// its namespace, below the working directory; names of letters, digits, dots,
/// `_` and `-` stand as they are.
pub proof fn law_values_are_kept_by_their_names(cwd: Seq<char>, ns: Seq<char>, key: Seq<char>)
    requires
        cwd.len() > 0,
        cwd.last() != '/',
        ns.len() > 0,
        key.len() > 0,
        forall|i: int| 0 <= i < ns.len() ==> text::is_alnum(#[trigger] ns[i]) || ns[i] == '_',
        forall|i: int| 0 <= i < key.len() ==> text::is_alnum(#[trigger] key[i]) || key[i] == '.' || key[i]
            == '-',
    ensures
        kv_file(cwd, ns, key) == Some(cwd + "/.agentplug-kv/"@ + ns + "/"@ + key + ".json"@),
        kv_file(cwd, Seq::empty(), key) is None,
        kv_file(cwd, ns, Seq::empty()) is None,
{
    reveal_strlit("._-");
    reveal_strlit("/");
    reveal_strlit(".json");
    reveal_strlit(".agentplug-kv");
    reveal_strlit("/.agentplug-kv/");
    assert("._-"@[0] == '.' && "._-"@[1] == '_' && "._-"@[2] == '-');
    assert("._-"@.contains('.') && "._-"@.contains('_') && "._-"@.contains('-'));
    assert(safe(ns) =~= ns);
    assert(safe(key) =~= key);
    assert(text::is_alnum(ns[0]) || ns[0] == '_');
    assert(text::is_alnum(ns.last()) || ns.last() == '_');
    assert(text::is_alnum(key[0]) || key[0] == '.' || key[0] == '-');
    let dir = kv_dir(cwd, ns);
    assert(dir =~= cwd + "/.agentplug-kv/"@ + ns);
    assert(dir.last() == ns.last());
    assert((key + ".json"@)[0] == key[0]);
    assert(kv_file(cwd, ns, key)->0 =~= cwd + "/.agentplug-kv/"@ + ns + "/"@ + key + ".json"@);
}

/// A search finds each kept value that holds the text, and an empty search
/// finds all; a hit tells the key and the value. Other files are no hits.
pub proof fn law_search_finds_what_holds_the_text(q: Seq<char>, files: Seq<(String, String)>, i: int)
    requires
        0 <= i < files.len(),
        path::extension(files[i].0@) == Some("json"@),
        q.len() == 0 || text::has_text(text::lower(files[i].1@), q),
    ensures
        exists|k: int|
            0 <= k < kv_hits(q, files, files.len() as int).len() && json::field(
                #[trigger] kv_hits(q, files, files.len() as int)[k],
                "key"@,
            ) == Some(JsonTree::Str(path::stem(files[i].0@))) && json::field(
                kv_hits(q, files, files.len() as int)[k],
                "value"@,
            ) == Some(JsonTree::Str(files[i].1@)),
{
    lemma_hit_is_found(q, files, files.len() as int, i);
}

proof fn lemma_hit_is_found(q: Seq<char>, files: Seq<(String, String)>, n: int, i: int)
    requires
        0 <= i < n <= files.len(),
        path::extension(files[i].0@) == Some("json"@),
        q.len() == 0 || text::has_text(text::lower(files[i].1@), q),
    ensures
        exists|k: int|
            0 <= k < kv_hits(q, files, n).len() && json::field(
                #[trigger] kv_hits(q, files, n)[k],
                "key"@,
            ) == Some(JsonTree::Str(path::stem(files[i].0@))) && json::field(
                kv_hits(q, files, n)[k],
                "value"@,
            ) == Some(JsonTree::Str(files[i].1@)),
    decreases n,
{
    lemma_answer_names();
    let rest = kv_hits(q, files, n - 1);
    let all = kv_hits(q, files, n);
    if i < n - 1 {
        lemma_hit_is_found(q, files, n - 1, i);
        let k = choose|k: int|
            0 <= k < rest.len() && json::field(#[trigger] rest[k], "key"@) == Some(
                JsonTree::Str(path::stem(files[i].0@)),
            ) && json::field(rest[k], "value"@) == Some(JsonTree::Str(files[i].1@));
        assert(all[k] == rest[k]);
    } else {
        let hit = all[rest.len() as int];
        assert(json::field(hit, "key"@) == Some(JsonTree::Str(path::stem(files[i].0@))));
    }
}

/// What a search does not look for is no hit: a file of another kind, or a
/// value without the text.
pub proof fn law_search_leaves_the_rest(q: Seq<char>, files: Seq<(String, String)>)
    requires
        forall|i: int|
            0 <= i < files.len() ==> path::extension((#[trigger] files[i]).0@) != Some("json"@) || (
            q.len() > 0 && !text::has_text(text::lower(files[i].1@), q)),
    ensures
        kv_hits(q, files, files.len() as int).len() == 0,
{
    lemma_no_hits(q, files, files.len() as int);
}

proof fn lemma_no_hits(q: Seq<char>, files: Seq<(String, String)>, n: int)
    requires
        0 <= n <= files.len(),
        forall|i: int|
            0 <= i < n ==> path::extension((#[trigger] files[i]).0@) != Some("json"@) || (q.len() > 0
                && !text::has_text(text::lower(files[i].1@), q)),
    ensures
        kv_hits(q, files, n).len() == 0,
    decreases n,
{
    if n > 0 {
        lemma_no_hits(q, files, n - 1);
        assert(!kv_hit(q, files[n - 1].0@, files[n - 1].1@));
    }
}

/// An embedding is the list of numbers in its field.
pub proof fn law_embedding_is_its_numbers(t: JsonTree, numbers: Seq<JsonTree>, e: Seq<char>)
    ensures
        json::field(t, "embedding"@) == Some(JsonTree::Array(numbers)) && (forall|i: int|
            0 <= i < numbers.len() ==> #[trigger] numbers[i] is Number) ==> {
            &&& embedding_in(Ok(t)) is Ok
            &&& embedding_in(Ok(t))->Ok_0.len() == numbers.len()
            &&& forall|i: int|
                0 <= i < numbers.len() ==> JsonTree::Number(#[trigger] embedding_in(Ok(t))->Ok_0[i])
                    == numbers[i]
        },
        json::field(t, "embedding"@) is None ==> embedding_in(Ok(t)) == Err::<Seq<Seq<char>>, Seq<char>>(
            "no embedding field"@,
        ),
        embedding_in(Err(e)) == Err::<Seq<Seq<char>>, Seq<char>>(e),
{
    if forall|i: int| 0 <= i < numbers.len() ==> #[trigger] numbers[i] is Number {
        lemma_number_texts(numbers);
    }
}

proof fn lemma_number_texts(s: Seq<JsonTree>)
    requires
        forall|i: int| 0 <= i < s.len() ==> #[trigger] s[i] is Number,
    ensures
        number_texts(s).len() == s.len(),
        forall|i: int| 0 <= i < s.len() ==> JsonTree::Number(#[trigger] number_texts(s)[i]) == s[i],
    decreases s.len(),
{
    if s.len() > 0 {
        let t = s.drop_last();
        assert forall|i: int| 0 <= i < t.len() implies #[trigger] t[i] is Number by {
            assert(t[i] == s[i]);
        }
        lemma_number_texts(t);
        assert(s[s.len() - 1] is Number);
        assert forall|i: int| 0 <= i < s.len() implies JsonTree::Number(#[trigger] number_texts(s)[i])
            == s[i] by {
            if i < t.len() {
                assert(number_texts(s)[i] == number_texts(t)[i]);
                assert(t[i] == s[i]);
            }
        }
    }
}

/// A run of git is given the time that is set, and five minutes where none is.
pub proof fn law_git_runs_as_long_as_set(ms: u64)
    ensures
        git_timeout(None) == 300_000,
        ms > 0 ==> git_timeout(Some(text::decimal(ms as nat))) == ms,
        git_timeout(Some(text::decimal(0))) == 300_000,
{
    lemma_decimal_is_trimmed(ms as nat);
    lemma_decimal_is_trimmed(0);
    text::law_decimal_reads_back(ms as nat, u64::MAX as nat);
    text::law_decimal_reads_back(0, u64::MAX as nat);
}

proof fn lemma_decimal_is_trimmed(n: nat)
    ensures
        text::trimmed(text::decimal(n)) == text::decimal(n),
{
    text::lemma_decimal(n);
    let d = text::decimal(n);
    assert(text::is_digit(d[0]));
    assert(text::is_digit(d.last()));
}

/// What git wrote and how it ended is told as it is.
pub proof fn law_git_answer_tells_the_run(stdout: Seq<char>, stderr: Seq<char>, exit_code: nat)
    ensures
        json::field(git_answer(stdout, stderr, exit_code as int), "stdout"@) == Some(
            JsonTree::Str(stdout),
        ),
        json::field(git_answer(stdout, stderr, exit_code as int), "stderr"@) == Some(
            JsonTree::Str(stderr),
        ),
        json::field(git_answer(stdout, stderr, exit_code as int), "exit_code"@) == Some(
            JsonTree::Number(text::decimal(exit_code)),
        ),
        json::field(git_answer(stdout, stderr, -1), "exit_code"@) == Some(
            JsonTree::Number(seq!['-', '1']),
        ),
{
    lemma_answer_names();
    assert(text::decimal(1) =~= seq!['1']);
    assert(seq!['-'] + seq!['1'] =~= seq!['-', '1']);
}

/// The arguments of git are the texts of a JSON list, or else the words.
pub proof fn law_git_arguments_are_listed(rest: Seq<char>, list: Seq<JsonTree>, e: Seq<char>)
    ensures
        text::trimmed(rest).len() > 0 && text::trimmed(rest)[0] == '[' && json::text_list(
            JsonTree::Array(list),
        ) is Some ==> git_args(rest, Ok(JsonTree::Array(list))) == json::text_list(
            JsonTree::Array(list),
        )->0,
        text::trimmed(rest).len() > 0 && text::trimmed(rest)[0] == '[' ==> git_args(rest, Err(e))
            == text::words(text::trimmed(rest)),
        text::trimmed(rest).len() > 0 && text::trimmed(rest)[0] != '[' ==> git_args(
            rest,
            Ok(JsonTree::Array(list)),
        ) == text::words(text::trimmed(rest)),
{
}

/// The next seed is another for every seed, and zero only for zero: the seeds
/// do not run together.
pub proof fn law_seeds_do_not_run_together(a: u64, b: u64)
    ensures
        next_seed(a) == next_seed(b) ==> a == b,
        a != 0 ==> next_seed(a) != 0,
        next_seed(1) == 0x40822041,
{
    lemma_seed_steps(a, b);
    lemma_seed_steps(a, 0);
    let zero: u64 = 0;
    assert({
        let x = zero ^ (zero << 13);
        let y = x ^ (x >> 7);
        y ^ (y << 17)
    } == 0u64) by (bit_vector)
        requires
            zero == 0u64,
    ;
    let one: u64 = 1;
    assert({
        let x = one ^ (one << 13);
        let y = x ^ (x >> 7);
        y ^ (y << 17)
    } == 0x40822041u64) by (bit_vector)
        requires
            one == 1u64,
    ;
}

proof fn lemma_seed_steps(a: u64, b: u64)
    ensures
        next_seed(a) == next_seed(b) ==> a == b,
{
    assert((a ^ (a << 13)) == (b ^ (b << 13)) ==> a == b) by (bit_vector);
    let a1 = a ^ (a << 13);
    let b1 = b ^ (b << 13);
    assert((a1 ^ (a1 >> 7)) == (b1 ^ (b1 >> 7)) ==> a1 == b1) by (bit_vector);
    let a2 = a1 ^ (a1 >> 7);
    let b2 = b1 ^ (b1 >> 7);
    assert((a2 ^ (a2 << 17)) == (b2 ^ (b2 << 17)) ==> a2 == b2) by (bit_vector);
}

/// A guest gets the place that it reaches as a path.
pub proof fn law_reached_place_is_a_path(
    cwd: Seq<char>,
    p: Seq<char>,
    roots: Seq<Seq<char>>,
    user: Option<NormalView>,
    windows: bool,
)
    ensures
        sandboxed_text(cwd, p, roots, user, windows) is Some <==> sandboxed(cwd, p, roots, user, windows)
            is Some,
        sandboxed(cwd, p, roots, user, windows) matches Some(n) ==> sandboxed_text(
            cwd,
            p,
            roots,
            user,
            windows,
        ) == Some(path::rendered(n)),
        !windows && path::is_absolute(p) ==> reached(cwd, p, windows) == p,
{
}

/// What is written of the watcher lies with the requests of its project.
pub proof fn law_log_of_the_watcher(root: Seq<char>)
    requires
        root.len() > 0,
        root.last() != '/',
    ensures
        watcher_log(root) == root + "/.gm/exec-spool/.watcher.log"@,
{
    reveal_strlit(".gm");
    reveal_strlit("exec-spool");
    reveal_strlit(".watcher.log");
    reveal_strlit("/.gm/exec-spool/.watcher.log");
    let a = path::joined_path(root, ".gm"@);
    assert(a.last() == 'm');
    let b = path::joined_path(a, "exec-spool"@);
    assert(b.last() == 'l');
    assert(watcher_log(root) =~= root + "/.gm/exec-spool/.watcher.log"@);
}

/// A project is known by what lies at its root: a repository, a spool, or the
/// manifest of a package.
pub proof fn law_marks_of_a_project(name: Seq<char>)
    ensures
        project_markers().contains(name) <==> name == ".git"@ || name == ".gm"@ || name == "package.json"@
            || name == "Cargo.toml"@ || name == "go.mod"@ || name == "pyproject.toml"@,
{
    let m = project_markers();
    assert(m[0] == ".git"@ && m[1] == ".gm"@ && m[2] == "package.json"@ && m[3] == "Cargo.toml"@ && m[4]
        == "go.mod"@ && m[5] == "pyproject.toml"@);
}

/// Options that are missing or broken are none; others are as they are written.
pub proof fn law_broken_options_are_none(s: Seq<char>, t: JsonTree, e: Seq<char>, k: Seq<char>)
    requires
        s.len() > 0,
    ensures
        options_tree(s, Ok(t)) == t,
        json::field(options_tree(s, Err(e)), k) is None,
        json::field(options_tree(Seq::empty(), Ok(t)), k) is None,
{
}

/// The seed moves on once for each number drawn.
pub proof fn law_seed_moves_on(seed: u64, n: nat)
    ensures
        seed_after(seed, 0) == seed,
        seed_after(seed, n + 1) == next_seed(seed_after(seed, n)),
        seed != 0 ==> seed_after(seed, n) != 0,
    decreases n,
{
    if n > 0 {
        law_seed_moves_on(seed, (n - 1) as nat);
        law_seeds_do_not_run_together(seed_after(seed, (n - 1) as nat), 0);
    }
}

/// An embedding is asked for of at most a megabyte of text, three times half a
/// second apart.
pub proof fn law_measures_of_an_embedding()
    ensures
        EMBED_TEXT_MAX == 1_048_576,
        EMBED_RETRY_ATTEMPTS == 3,
        2 * EMBED_RETRY_BACKOFF_MS == 1000,
{
}

} // verus!

//! Updates of plugins and of the runner: when one is taken, what is done if it
//! fails, and which versions are not taken again.
use crate::download;
use crate::imports;
use crate::json;
use crate::json::{Json, JsonTree};
use crate::order;
use crate::path;
use crate::text;
use vstd::prelude::*;
use vstd::string::*;

verus! {

// ---------------------------------------------------------------------------
// Files
// ---------------------------------------------------------------------------
/// A file beside the installed plugins.
pub open spec fn plugin_file(install_dir: Seq<char>, plugin: Seq<char>, tail: Seq<char>) -> Seq<char> {
    path::joined2(install_dir, "plugins"@, plugin + tail)
}

fn plugin_file_path(install_dir: &str, plugin_name: &str, tail: &str) -> (r: String)
    ensures
        r@ == plugin_file(install_dir@, plugin_name@, tail@),
{
    path::join2(install_dir, "plugins", text::add2(plugin_name, tail).as_str())
}

/// Where a plugin is installed.
pub fn plugin_wasm_path(install_dir: &str, plugin_name: &str) -> (r: String)
    ensures
        r@ == plugin_file(install_dir@, plugin_name@, ".wasm"@),
{
    plugin_file_path(install_dir, plugin_name, ".wasm")
}

/// Where the version of a plugin is noted.
pub fn plugin_version_path(install_dir: &str, plugin_name: &str) -> (r: String)
    ensures
        r@ == plugin_file(install_dir@, plugin_name@, ".version"@),
{
    plugin_file_path(install_dir, plugin_name, ".version")
}

/// Where it is noted that a plugin is a build of its own.
pub fn local_dev_sideload_marker_path(install_dir: &str, plugin_name: &str) -> (r: String)
    ensures
        r@ == plugin_file(install_dir@, plugin_name@, ".local-dev-sideload.json"@),
{
    plugin_file_path(install_dir, plugin_name, ".local-dev-sideload.json")
}

/// Where the versions of a plugin are noted that do not load.
pub fn known_bad_version_marker_path(install_dir: &str, plugin_name: &str) -> (r: String)
    ensures
        r@ == plugin_file(install_dir@, plugin_name@, ".known-bad-versions.json"@),
{
    plugin_file_path(install_dir, plugin_name, ".known-bad-versions.json")
}

/// Where it is noted when the installation of a plugin failed.
pub fn plugin_install_failure_marker_path(install_dir: &str, plugin_name: &str) -> (r: String)
    ensures
        r@ == plugin_file(install_dir@, plugin_name@, ".install-backoff-ts"@),
{
    plugin_file_path(install_dir, plugin_name, ".install-backoff-ts")
}

/// Where the version of the runner is noted.
pub fn runner_version_path(install_dir: &str) -> (r: String)
    ensures
        r@ == path::joined_path(install_dir@, "agentplug-runner.version"@),
{
    path::join(install_dir, "agentplug-runner.version")
}

/// The file in which a download is written before it takes its place.
pub fn download_temporary_path(dest: &str, pid: u32) -> (r: String)
    ensures
        r@ == path::with_extension(dest@, "tmp."@ + text::decimal(pid as nat)),
{
    path::replace_extension(dest, text::add2("tmp.", text::u64_text(pid as u64).as_str()).as_str())
}

/// Whether a file is named as one in which a download was written: it ends in
/// the number of a process behind `.tmp.`.
pub open spec fn is_tmp_name(name: Seq<char>) -> bool {
    match text::last_cut(name, '.') {
        Some((before, digits)) => digits.len() > 0 && text::all_digits(digits)
            && ".tmp"@.is_suffix_of(before),
        None => false,
    }
}

pub fn is_download_tmp_name(name: &str) -> (r: bool)
    ensures
        r == is_tmp_name(name@),
{
    match text::rcut(name, '.') {
        Some((before, digits)) => text::only_digits(digits) && text::ends_with(before, ".tmp"),
        None => false,
    }
}

/// Whether a file is what a download left behind that never ended: it is named
/// so, and older than any download lasts. Whether the process still runs does
/// not count, since its number may belong to another by now.
pub fn is_stale_tmp_file(name: &str, age_ms: Option<u64>, older_than_ms: u64) -> (r: bool)
    ensures
        r == (is_tmp_name(name@) && age_ms is Some && age_ms->0 >= older_than_ms),
{
    match age_ms {
        Some(age) => age >= older_than_ms && is_download_tmp_name(name),
        None => false,
    }
}

/// What a download leaves behind is named so that it is found.
pub proof fn law_left_downloads_are_found(stem: Seq<char>, pid: u32)
    ensures
        is_tmp_name(stem + "."@ + ("tmp."@ + text::decimal(pid as nat))),
{
    let digits = text::decimal(pid as nat);
    let before = stem + ".tmp"@;
    reveal_strlit(".");
    reveal_strlit("tmp.");
    reveal_strlit(".tmp");
    text::lemma_decimal(pid as nat);
    assert(stem + "."@ + ("tmp."@ + digits) =~= before.push('.') + digits);
    assert forall|i: int| 0 <= i < digits.len() implies #[trigger] digits[i] != '.' by {
        assert(text::is_digit(digits[i]));
    }
    text::lemma_last_cut_is(before, '.', digits);
    assert(before.subrange(before.len() - 4, before.len() as int) =~= ".tmp"@);
}

// ---------------------------------------------------------------------------
// Keeping what worked
// ---------------------------------------------------------------------------
/// A file that is copied over another.
pub struct FileCopy {
    pub source: String,
    pub target: String,
}

/// Copies, as values.
pub open spec fn copy_views(s: Seq<FileCopy>) -> Seq<(Seq<char>, Seq<char>)> {
    Seq::new(s.len(), |i: int| (s[i].source@, s[i].target@))
}

/// What is copied before an installed plugin is written over: the plugin and
/// its version, each where it is there.
pub open spec fn snapshot(
    wasm: Seq<char>,
    version: Seq<char>,
    wasm_there: bool,
    version_there: bool,
) -> Seq<(Seq<char>, Seq<char>)> {
    let first = if wasm_there {
        seq![(wasm, path::with_extension(wasm, "wasm.prev"@))]
    } else {
        Seq::empty()
    };
    if version_there {
        first.push((version, path::with_extension(version, "version.prev"@)))
    } else {
        first
    }
}

pub fn snapshot_prev_wasm_and_version(
    dest: &str,
    version_file: &str,
    dest_exists: bool,
    version_exists: bool,
) -> (r: Vec<FileCopy>)
    ensures
        copy_views(r@) == snapshot(dest@, version_file@, dest_exists, version_exists),
{
    let mut out: Vec<FileCopy> = Vec::new();
    if dest_exists {
        out.push(
            FileCopy {
                source: dest.to_owned(),
                target: path::replace_extension(dest, "wasm.prev"),
            },
        );
    }
    if version_exists {
        out.push(
            FileCopy {
                source: version_file.to_owned(),
                target: path::replace_extension(version_file, "version.prev"),
            },
        );
    }
    assert(copy_views(out@) =~= snapshot(dest@, version_file@, dest_exists, version_exists));
    out
}

/// What is copied when a plugin does not load: what was there before, with its
/// version where that was kept. Nothing, where no plugin was kept.
pub open spec fn rollback(
    wasm: Seq<char>,
    version: Seq<char>,
    prev_wasm_there: bool,
    prev_version_there: bool,
) -> Option<Seq<(Seq<char>, Seq<char>)>> {
    if !prev_wasm_there {
        None
    } else {
        let first = seq![(path::with_extension(wasm, "wasm.prev"@), wasm)];
        Some(
            if prev_version_there {
                first.push((path::with_extension(version, "version.prev"@), version))
            } else {
                first
            },
        )
    }
}

/// What is copied when a plugin does not load; nothing where there is nothing
/// to fall back on.
pub fn record_plugin_load_failure_and_rollback(
    dest: &str,
    version_file: &str,
    prev_exists: bool,
    prev_version_exists: bool,
) -> (r: Option<Vec<FileCopy>>)
    ensures
        match r {
            Some(c) => rollback(dest@, version_file@, prev_exists, prev_version_exists) == Some(
                copy_views(c@),
            ),
            None => rollback(dest@, version_file@, prev_exists, prev_version_exists) is None,
        },
{
    if !prev_exists {
        return None;
    }
    let mut out: Vec<FileCopy> = Vec::new();
    out.push(
        FileCopy { source: path::replace_extension(dest, "wasm.prev"), target: dest.to_owned() },
    );
    if prev_version_exists {
        out.push(
            FileCopy {
                source: path::replace_extension(version_file, "version.prev"),
                target: version_file.to_owned(),
            },
        );
    }
    assert(copy_views(out@) =~= rollback(
        dest@,
        version_file@,
        prev_exists,
        prev_version_exists,
    )->0);
    Some(out)
}

/// The files after some copies.
pub open spec fn copied(
    files: Map<Seq<char>, Seq<u8>>,
    copies: Seq<(Seq<char>, Seq<char>)>,
) -> Map<Seq<char>, Seq<u8>>
    decreases copies.len(),
{
    if copies.len() == 0 {
        files
    } else {
        let before = copied(files, copies.drop_last());
        before.insert(copies.last().1, before[copies.last().0])
    }
}

/// The files of a plugin, by the name of the plugin.
proof fn lemma_plugin_files(install_dir: Seq<char>, plugin: Seq<char>)
    requires
        imports::good_plugin_name(plugin),
    ensures
        ({
            let wasm = plugin_file(install_dir, plugin, ".wasm"@);
            let version = plugin_file(install_dir, plugin, ".version"@);
            let wasm_prev = path::with_extension(wasm, "wasm.prev"@);
            let version_prev = path::with_extension(version, "version.prev"@);
            &&& wasm != version
            &&& wasm != wasm_prev
            &&& wasm != version_prev
            &&& version != wasm_prev
            &&& version != version_prev
            &&& wasm_prev != version_prev
        }),
{
    reveal_strlit("-_");
    reveal_strlit("wasm.prev");
    reveal_strlit("version.prev");
    reveal_strlit(".");
    lemma_plugin_file(install_dir, plugin, "wasm"@, "wasm.prev"@);
    lemma_plugin_file(install_dir, plugin, "version"@, "version.prev"@);
    reveal_strlit("wasm");
    reveal_strlit("version");
    reveal_strlit(".wasm");
    reveal_strlit(".version");
    assert(".wasm"@ =~= "."@ + "wasm"@);
    assert(".version"@ =~= "."@ + "version"@);
    let n = (path::joined_path(install_dir, "plugins"@) + "/"@).len() + plugin.len();
    let wasm = plugin_file(install_dir, plugin, ".wasm"@);
    let version = plugin_file(install_dir, plugin, ".version"@);
    assert(wasm.len() == n + 5);
    assert(version.len() == n + 8);
    assert(path::with_extension(wasm, "wasm.prev"@).len() == n + 10);
    assert(path::with_extension(version, "version.prev"@).len() == n + 13);
}

/// A file of a plugin: a directory, the plugin, a dot and an extension that
/// can be replaced.
proof fn lemma_plugin_file(install_dir: Seq<char>, plugin: Seq<char>, ext: Seq<char>, other: Seq<char>)
    requires
        imports::good_plugin_name(plugin),
        ext == "wasm"@ || ext == "version"@,
        other.len() > 0,
    ensures
        ({
            let dir = path::joined_path(install_dir, "plugins"@) + "/"@;
            &&& plugin_file(install_dir, plugin, "."@ + ext) == dir + plugin + "."@ + ext
            &&& path::with_extension(plugin_file(install_dir, plugin, "."@ + ext), other) == dir
                + plugin + "."@ + other
        }),
{
    reveal_strlit("-_");
    reveal_strlit(".");
    reveal_strlit("/");
    reveal_strlit("wasm");
    reveal_strlit("version");
    reveal_strlit("plugins");
    let name = plugin + ("."@ + ext);
    let base = path::joined_path(install_dir, "plugins"@);
    assert(name[0] == plugin[0]);
    assert(text::is_alnum(plugin[0]) || "-_"@.contains(plugin[0]));
    assert(base.len() > 0 && base.last() == 's');
    let full = plugin_file(install_dir, plugin, "."@ + ext);
    assert(full =~= base.push('/') + name);
    assert(full =~= base + "/"@ + plugin + "."@ + ext);
    assert forall|i: int| 0 <= i < name.len() implies #[trigger] name[i] != '/' by {
        if i < plugin.len() {
            assert(name[i] == plugin[i]);
            assert(text::is_alnum(plugin[i]) || "-_"@.contains(plugin[i]));
        } else {
            assert(name[i] == ("."@ + ext)[i - plugin.len()]);
        }
    }
    text::lemma_last_cut_is(base, '/', name);
    assert(name =~= plugin.push('.') + ext);
    assert forall|i: int| 0 <= i < ext.len() implies #[trigger] ext[i] != '.' by {}
    text::lemma_last_cut_is(plugin, '.', ext);
    assert(path::stem(name) == plugin);
    assert(path::with_extension(full, other) =~= base + "/"@ + plugin + "."@ + other);
}

/// A plugin and its version go back together: what a snapshot kept, a rollback
/// restores, whatever was installed in between.
pub proof fn law_rollback_restores_plugin_and_version(
    files: Map<Seq<char>, Seq<u8>>,
    install_dir: Seq<char>,
    plugin: Seq<char>,
    new_wasm: Seq<u8>,
    new_version: Seq<u8>,
)
    requires
        imports::good_plugin_name(plugin),
    ensures
        ({
            let wasm = plugin_file(install_dir, plugin, ".wasm"@);
            let version = plugin_file(install_dir, plugin, ".version"@);
            let kept = copied(files, snapshot(wasm, version, true, true));
            let updated = kept.insert(wasm, new_wasm).insert(version, new_version);
            let back = copied(updated, rollback(wasm, version, true, true)->0);
            back[wasm] == files[wasm] && back[version] == files[version]
        }),
{
    let wasm = plugin_file(install_dir, plugin, ".wasm"@);
    let version = plugin_file(install_dir, plugin, ".version"@);
    lemma_plugin_files(install_dir, plugin);
    let taken = snapshot(wasm, version, true, true);
    let given = rollback(wasm, version, true, true)->0;
    reveal_with_fuel(copied, 3);
    assert(taken.drop_last() =~= seq![taken[0]]);
    assert(seq![taken[0]].drop_last() =~= Seq::<(Seq<char>, Seq<char>)>::empty());
    assert(given.drop_last() =~= seq![given[0]]);
    assert(seq![given[0]].drop_last() =~= Seq::<(Seq<char>, Seq<char>)>::empty());
}

// ---------------------------------------------------------------------------
// Versions that do not load
// ---------------------------------------------------------------------------
/// The versions that a list in JSON names.
pub open spec fn listed_versions(content: Option<Seq<char>>) -> Seq<Seq<char>> {
    match content {
        Some(s) => match json::parsed_json(s) {
            Ok(t) => match json::text_list(t) {
                Some(l) => l,
                None => Seq::empty(),
            },
            Err(_) => Seq::empty(),
        },
        None => Seq::empty(),
    }
}

/// The versions of a plugin that are noted not to load, from the file that
/// notes them.
pub fn read_known_bad_versions(content: Option<&str>) -> (r: Vec<String>)
    ensures
        text::string_views(r@) == listed_versions(text::opt_view(content)),
{
    match content {
        Some(s) => match json::parse(s) {
            Ok(j) => match json::texts_of(&j) {
                Some(l) => {
                    return l;
                },
                None => {},
            },
            Err(_) => {},
        },
        None => {},
    }
    let none: Vec<String> = Vec::new();
    assert(text::string_views(none@) =~= Seq::<Seq<char>>::empty());
    none
}

/// The versions to note once `version` did not load too: all that were noted,
/// and this one, sorted. Nothing, where it was noted already.
pub fn record_known_bad_version(known: &Vec<String>, version: &str) -> (r: Option<Vec<String>>)
    ensures
        r is None <==> text::lists(known@, version@),
        r matches Some(l) ==> order::sorted(l@) && forall|t: Seq<char>| #[trigger]
            text::lists(l@, t) <==> text::lists(known@, t) || t == version@,
{
    let mut out = order::sorted_names(known);
    if order::insert_sorted(&mut out, version) {
        Some(out)
    } else {
        None
    }
}

/// The file that notes versions. Reading it gives the versions.
pub fn known_bad_text(versions: &Vec<String>) -> (r: String)
    ensures
        r@ == json::json_text(json::str_trees(text::string_views(versions@))),
        listed_versions(Some(r@)) == text::string_views(versions@),
{
    let j = json::str_list(versions);
    proof {
        let list = text::string_views(versions@);
        let t = json::str_trees(list);
        assert(json::written(t) == t) by {
            reveal_with_fuel(json::written, 3);
            assert(json::written(t)->Array_0 =~= t->Array_0);
        }
        assert(json::nested_within(t, 127)) by {
            assert forall|i: int| 0 <= i < (t->Array_0).len() implies json::nested_within(
                #[trigger] (t->Array_0)[i],
                126,
            ) by {}
        }
        lemma_all_texts_of(list);
    }
    json::to_text(&j)
}

proof fn lemma_all_texts_of(list: Seq<Seq<char>>)
    ensures
        json::all_texts(Seq::new(list.len(), |i: int| JsonTree::Str(list[i]))) == Some(list),
    decreases list.len(),
{
    let s = Seq::new(list.len(), |i: int| JsonTree::Str(list[i]));
    if list.len() > 0 {
        let head = list.drop_last();
        lemma_all_texts_of(head);
        assert(s.drop_last() =~= Seq::new(head.len(), |i: int| JsonTree::Str(head[i])));
        assert(head.push(list.last()) =~= list);
    }
}

/// A version that did not load is not forgotten, whatever is noted later.
pub proof fn law_bad_versions_only_grow(
    known: Seq<String>,
    version: Seq<char>,
    noted: Seq<String>,
    earlier: Seq<char>,
)
    requires
        forall|t: Seq<char>| #[trigger]
            text::lists(noted, t) <==> text::lists(known, t) || t == version,
        text::lists(known, earlier),
    ensures
        text::lists(noted, earlier),
        text::lists(noted, version),
{
}

// ---------------------------------------------------------------------------
// Asking for versions
// ---------------------------------------------------------------------------
/// Why a request to the releases failed.
pub enum ApiFailure {
    /// The answer was an error; with what it said of the limit.
    Status { code: u16, remaining: Option<String>, reset: Option<String> },
    /// There was no answer.
    Transport(String),
}

/// The error of a failed request.
pub open spec fn api_error(url: Seq<char>, f: ApiFailure) -> Seq<char> {
    match f {
        ApiFailure::Status { code, remaining, reset } => if code == 403 {
            "GitHub API rate-limited fetching "@ + url + " (403, ratelimit-remaining="@
                + imports::or_default(text::opt_string_view(remaining), "?"@)
                + ", ratelimit-reset="@ + imports::or_default(text::opt_string_view(reset), "?"@)
                + " unix secs) -- set GITHUB_TOKEN or GH_TOKEN to raise the limit from 60/hr to 5000/hr"@
        } else {
            "GitHub API returned "@ + text::decimal(code as nat) + " fetching "@ + url
        },
        ApiFailure::Transport(e) => "network error fetching "@ + url + ": "@ + e@,
    }
}

fn or_text<'a>(o: &'a Option<String>, default: &'a str) -> (r: &'a str)
    ensures
        r@ == imports::or_default(text::opt_string_view(*o), default@),
{
    match o {
        Some(s) => s.as_str(),
        None => default,
    }
}

pub fn describe_github_api_error(url: &str, failure: &ApiFailure) -> (r: String)
    ensures
        r@ == api_error(url@, *failure),
{
    match failure {
        ApiFailure::Status { code, remaining, reset } => if *code == 403 {
            let head = text::add5(
                "GitHub API rate-limited fetching ",
                url,
                " (403, ratelimit-remaining=",
                or_text(remaining, "?"),
                ", ratelimit-reset=",
            );
            text::add3(
                head.as_str(),
                or_text(reset, "?"),
                " unix secs) -- set GITHUB_TOKEN or GH_TOKEN to raise the limit from 60/hr to 5000/hr",
            )
        } else {
            text::add4(
                "GitHub API returned ",
                text::u64_text(*code as u64).as_str(),
                " fetching ",
                url,
            )
        },
        ApiFailure::Transport(e) => text::add4("network error fetching ", url, ": ", e.as_str()),
    }
}

/// Whether a request is made again without the token: it was made with one,
/// and the token was refused.
pub fn retries_without_token(had_token: bool, failed_with: Option<u16>) -> (r: bool)
    ensures
        r == (had_token && failed_with == Some(401u16)),
{
    had_token && match failed_with {
        Some(code) => code == 401,
        None => false,
    }
}

/// The token for requests, from either variable; an empty one is none.
pub fn github_token<'a>(own: Option<&'a str>, common: Option<&'a str>) -> (r: Option<&'a str>)
    ensures
        text::opt_view(r) == (match imports::first_of(text::opt_view(own), text::opt_view(common)) {
            Some(t) => if t.len() == 0 {
                None
            } else {
                Some(t)
            },
            None => None,
        }),
{
    let token = match own {
        Some(t) => t,
        None => match common {
            Some(t) => t,
            None => {
                return None;
            },
        },
    };
    if token.is_empty() {
        None
    } else {
        Some(token)
    }
}

/// The version of a release.
pub open spec fn release_version(release: JsonTree) -> Option<Seq<char>> {
    match json::field_str(release, "tag_name"@) {
        Some(tag) => Some(download::tag_version(tag)),
        None => None,
    }
}

/// The version of a release.
pub fn version_of_release(release: &Json) -> (r: Option<String>)
    ensures
        text::opt_string_view(r) == release_version(json::tree(*release)),
{
    match release.str_field("tag_name") {
        Some(tag) => Some(text::trim_leading(tag, 'v').to_owned()),
        None => None,
    }
}

/// The newest version of the runner, from what the releases answered.
pub fn fetch_latest_runner_version(body: &str) -> (r: Result<Option<String>, String>)
    ensures
        match (r, json::parsed_json(body@)) {
            (Ok(v), Ok(t)) => text::opt_string_view(v) == release_version(t),
            (Err(e), Err(f)) => e@ == f,
            _ => false,
        },
{
    match json::parse(body) {
        Ok(j) => Ok(version_of_release(&j)),
        Err(e) => Err(e),
    }
}

/// Whether an asset is the plugin: it has the name, or that of the larger
/// build where the plugin has two.
pub open spec fn is_wanted_asset(asset: JsonTree, basename: Seq<char>) -> bool {
    match json::field_str(asset, "name"@) {
        Some(n) => n == basename + ".wasm"@ || (basename == "plugkit-slim"@ && n
            == "plugkit.wasm"@),
        None => false,
    }
}

/// Whether one of the assets is the plugin.
pub open spec fn has_wanted(assets: Seq<JsonTree>, basename: Seq<char>) -> bool {
    exists|i: int| 0 <= i < assets.len() && is_wanted_asset(#[trigger] assets[i], basename)
}

/// Whether a release carries the plugin.
pub open spec fn carries(release: JsonTree, basename: Seq<char>) -> bool {
    match json::field(release, "assets"@) {
        Some(JsonTree::Array(assets)) => has_wanted(assets, basename),
        _ => false,
    }
}

/// The version of the first release, from position `i` on, that carries the
/// plugin.
pub open spec fn first_carrying(releases: Seq<JsonTree>, basename: Seq<char>, i: int) -> Option<
    Seq<char>,
>
    decreases releases.len() - i,
{
    if i < 0 || i >= releases.len() {
        None
    } else if carries(releases[i], basename) {
        release_version(releases[i])
    } else {
        first_carrying(releases, basename, i + 1)
    }
}

/// The newest version of a plugin among the releases of its repository, which
/// other plugins may share.
pub open spec fn newest_version(
    parsed: Result<JsonTree, Seq<char>>,
    repo: Seq<char>,
    basename: Seq<char>,
) -> Result<Option<Seq<char>>, Seq<char>> {
    match parsed {
        Ok(JsonTree::Array(releases)) => Ok(first_carrying(releases, basename, 0)),
        Ok(_) => Err("unexpected releases-list response shape for "@ + repo),
        Err(e) => Err(e),
    }
}

/// A version or an error, as values.
pub open spec fn version_result(r: Result<Option<String>, String>) -> Result<
    Option<Seq<char>>,
    Seq<char>,
> {
    match r {
        Ok(v) => Ok(text::opt_string_view(v)),
        Err(e) => Err(e@),
    }
}

fn asset_is_wanted(asset: &Json, basename: &str) -> (r: bool)
    ensures
        r == is_wanted_asset(json::tree(*asset), basename@),
{
    match asset.str_field("name") {
        Some(n) => text::str_eq(n, text::add2(basename, ".wasm").as_str()) || (text::str_eq(
            basename,
            "plugkit-slim",
        ) && text::str_eq(n, "plugkit.wasm")),
        None => false,
    }
}

fn release_carries(release: &Json, basename: &str) -> (r: bool)
    ensures
        r == carries(json::tree(*release), basename@),
{
    match release.get("assets") {
        Some(Json::Array(assets)) => {
            proof {
                json::lemma_trees(assets@);
            }
            let ghost all = json::trees(assets@);
            for i in 0..assets.len()
                invariant
                    all == json::trees(assets@),
                    all.len() == assets@.len(),
                    json::field(json::tree(*release), "assets"@) == Some(JsonTree::Array(all)),
                    forall|k: int| 0 <= k < assets@.len() ==> all[k] == #[trigger] json::tree(assets@[k]),
                    forall|j: int| 0 <= j < i ==> !is_wanted_asset(#[trigger] all[j], basename@),
            {
                assert(all[i as int] == json::tree(assets@[i as int]));
                if asset_is_wanted(&assets[i], basename) {
                    assert(is_wanted_asset(all[i as int], basename@));
                    assert(has_wanted(all, basename@));
                    return true;
                }
            }
            false
        },
        Some(_) => false,
        None => false,
    }
}

/// The newest version of a plugin, from the list of releases.
pub fn newest_release(releases: &Json, repo: &str, basename: &str) -> (r: Result<
    Option<String>,
    String,
>)
    ensures
        version_result(r) == newest_version(Ok(json::tree(*releases)), repo@, basename@),
{
    match releases {
        Json::Array(list) => {
            proof {
                json::lemma_trees(list@);
            }
            let ghost all = json::trees(list@);
            for i in 0..list.len()
                invariant
                    all == json::trees(list@),
                    all.len() == list@.len(),
                    json::tree(*releases) == JsonTree::Array(all),
                    forall|k: int| 0 <= k < list@.len() ==> all[k] == #[trigger] json::tree(list@[k]),
                    first_carrying(all, basename@, 0) == first_carrying(all, basename@, i as int),
            {
                assert(all[i as int] == json::tree(list@[i as int]));
                if release_carries(&list[i], basename) {
                    return Ok(version_of_release(&list[i]));
                }
            }
            Ok(None)
        },
        _ => Err(text::add2("unexpected releases-list response shape for ", repo)),
    }
}

/// The newest version of a plugin, from what the releases answered.
pub fn fetch_latest_plugin_version(body: &str, repo: &str, basename: &str) -> (r: Result<
    Option<String>,
    String,
>)
    ensures
        version_result(r) == newest_version(json::parsed_json(body@), repo@, basename@),
{
    match json::parse(body) {
        Ok(j) => newest_release(&j, repo, basename),
        Err(e) => Err(e),
    }
}

// ---------------------------------------------------------------------------
// The runner's own update
// ---------------------------------------------------------------------------
/// The asset that is the runner, on a kind of machine.
pub open spec fn runner_asset(os: Seq<char>, arch: Seq<char>) -> Option<Seq<char>> {
    if os == "windows"@ && arch == "x86_64"@ {
        Some("agentplug-runner-windows-x64.exe"@)
    } else if os == "windows"@ && arch == "aarch64"@ {
        Some("agentplug-runner-windows-arm64.exe"@)
    } else if os == "macos"@ && arch == "x86_64"@ {
        Some("agentplug-runner-macos-x64"@)
    } else if os == "macos"@ && arch == "aarch64"@ {
        Some("agentplug-runner-macos-arm64"@)
    } else if os == "linux"@ && arch == "x86_64"@ {
        Some("agentplug-runner-linux-x64"@)
    } else if os == "linux"@ && arch == "aarch64"@ {
        Some("agentplug-runner-linux-arm64"@)
    } else {
        None
    }
}

pub fn runner_asset_name(os: &str, arch: &str) -> (r: Option<&'static str>)
    ensures
        text::opt_view(r) == runner_asset(os@, arch@),
{
    let x64 = text::str_eq(arch, "x86_64");
    let arm = text::str_eq(arch, "aarch64");
    if text::str_eq(os, "windows") && x64 {
        Some("agentplug-runner-windows-x64.exe")
    } else if text::str_eq(os, "windows") && arm {
        Some("agentplug-runner-windows-arm64.exe")
    } else if text::str_eq(os, "macos") && x64 {
        Some("agentplug-runner-macos-x64")
    } else if text::str_eq(os, "macos") && arm {
        Some("agentplug-runner-macos-arm64")
    } else if text::str_eq(os, "linux") && x64 {
        Some("agentplug-runner-linux-x64")
    } else if text::str_eq(os, "linux") && arm {
        Some("agentplug-runner-linux-arm64")
    } else {
        None
    }
}

/// What the noted version of the runner says of a newer one.
#[derive(Debug, Clone, Copy, PartialEq, Eq, Structural)]
pub enum MarkerTrust {
    /// It is the newest, and the one that runs: there is nothing to do.
    Current,
    /// It is another: the newest is taken.
    Outdated,
    /// It is the newest, but not the one that runs: the note is put right, and
    /// the newest taken.
    Wrong,
}

pub open spec fn trust_in(marker: Option<Seq<char>>, latest: Seq<char>, running: Seq<char>) -> MarkerTrust {
    if marker != Some(latest) {
        MarkerTrust::Outdated
    } else if latest == running {
        MarkerTrust::Current
    } else {
        MarkerTrust::Wrong
    }
}

/// What the noted version of the runner says of the newest.
pub fn marker_trust(marker: Option<&str>, latest: &str, running: &str) -> (r: MarkerTrust)
    ensures
        r == trust_in(text::opt_view(marker), latest@, running@),
{
    match marker {
        Some(m) => if !text::str_eq(m, latest) {
            MarkerTrust::Outdated
        } else if text::str_eq(latest, running) {
            MarkerTrust::Current
        } else {
            MarkerTrust::Wrong
        },
        None => MarkerTrust::Outdated,
    }
}

/// Whether a file is named as one that waits to take a place.
pub open spec fn is_staged_name(p: Seq<char>) -> bool {
    match path::extension(path::last_segment(p)) {
        Some(e) => text::same_but_case(e, "new"@),
        None => false,
    }
}

fn staged_name(p: &str) -> (r: bool)
    ensures
        r == is_staged_name(p@),
{
    match path::extension_of(path::last_segment_of(p)) {
        Some(e) => text::eq_but_case(e, "new"),
        None => false,
    }
}

/// The place of a runner: its path without the marks of one that waits.
pub open spec fn canonical(p: Seq<char>) -> Seq<char>
    decreases p.len(),
    via canonical_shrinks
{
    if is_staged_name(p) {
        canonical(path::with_extension(p, ""@))
    } else {
        p
    }
}

#[via_fn]
proof fn canonical_shrinks(p: Seq<char>) {
    if is_staged_name(p) {
        lemma_extension_goes(p);
    }
}

proof fn lemma_extension_goes(p: Seq<char>)
    requires
        path::extension(path::last_segment(p)) is Some,
    ensures
        path::with_extension(p, ""@).len() < p.len(),
{
    reveal_strlit("");
    reveal_strlit("/");
    text::lemma_last_cut(p, '/');
    let name = path::last_segment(p);
    text::lemma_last_cut(name, '.');
}

/// The place of a runner: its path without the marks of one that waits.
pub fn canonical_runner_exe_path(current_exe: &str) -> (r: String)
    ensures
        r@ == canonical(current_exe@),
{
    let mut out = current_exe.to_owned();
    while staged_name(out.as_str())
        invariant
            canonical(out@) == canonical(current_exe@),
        decreases out@.len(),
    {
        proof {
            lemma_extension_goes(out@);
        }
        out = path::replace_extension(out.as_str(), "");
    }
    out
}

/// The place of a runner has no mark of one that waits, and is its own place.
pub proof fn law_canonical_is_settled(p: Seq<char>)
    ensures
        !is_staged_name(canonical(p)),
        canonical(canonical(p)) == canonical(p),
    decreases p.len(),
{
    if is_staged_name(p) {
        lemma_extension_goes(p);
        law_canonical_is_settled(path::with_extension(p, ""@));
    }
}

/// Where a new runner waits: beside the place of the runner, under another
/// mark where the one that runs is itself one that waited.
pub open spec fn staging_place(current_exe: Seq<char>) -> Seq<char> {
    path::suffixed(
        canonical(current_exe),
        if is_staged_name(current_exe) {
            "new2"@
        } else {
            "new"@
        },
    )
}

/// A new runner never waits in the place of the one that runs, whose file may
/// be locked for as long as it runs.
pub proof fn law_staging_spares_the_running_runner(current_exe: Seq<char>)
    ensures
        staging_place(current_exe) != current_exe,
{
    let p = current_exe;
    let c = canonical(p);
    let mark = if is_staged_name(p) {
        "new2"@
    } else {
        "new"@
    };
    reveal_strlit("new");
    reveal_strlit("new2");
    reveal_strlit("/");
    reveal_strlit(".");
    text::lemma_last_cut(c, '/');
    let name = path::last_segment(c);
    text::lemma_last_cut(name, '.');
    let staged = path::suffixed(c, mark);
    assert(staged.len() > c.len());
    assert(staged.last() == mark.last());
    if is_staged_name(p) {
        text::lemma_last_cut(p, '/');
        let own = path::last_segment(p);
        text::lemma_last_cut(own, '.');
        let e = path::extension(own)->0;
        assert(e.len() == 3);
        assert(p.last() == e[2]);
        assert(text::ascii_lower(e[2]) == text::ascii_lower("new"@[2]));
    }
}

/// Where a new runner waits.
pub fn staged_runner_path(current_exe: &str) -> (r: String)
    ensures
        r@ == staging_place(current_exe@),
{
    let suffix = if staged_name(current_exe) {
        "new2"
    } else {
        "new"
    };
    path::add_suffix(canonical_runner_exe_path(current_exe).as_str(), suffix)
}

/// Where a runner that waits is looked for.
pub fn waiting_runner_path(current_exe: &str) -> (r: String)
    ensures
        r@ == path::suffixed(canonical(current_exe@), "new"@),
{
    path::add_suffix(canonical_runner_exe_path(current_exe).as_str(), "new")
}

/// Where the runner that was in place is kept.
pub fn previous_runner_path(canonical_exe: &str) -> (r: String)
    ensures
        r@ == path::suffixed(canonical_exe@, "prev"@),
{
    path::add_suffix(canonical_exe, "prev")
}

// ---------------------------------------------------------------------------
// Refreshing a plugin
// ---------------------------------------------------------------------------
/// What is done next to refresh a plugin.
pub enum RefreshStep {
    /// Nothing: the plugin stays as it is.
    Stay,
    /// The plugin is a build of its own and stays; that is noted.
    NoteSideload,
    /// The releases are asked for the newest version.
    AskLatest,
    /// The hashes of the release and of what is installed are held against
    /// each other.
    CompareHashes,
    /// The newest version is known not to load; the plugin stays.
    StayFromBad,
    /// The newest version is installed.
    Install,
}

/// The first step: a plugin that is installed in a release version, and that
/// comes from somewhere, is looked for.
pub fn refresh_plugin_if_stale(installed: Option<&str>, has_source: bool) -> (r: RefreshStep)
    ensures
        r == (match text::opt_view(installed) {
            None => RefreshStep::Stay,
            Some(v) => if !download::is_release_version(v) {
                RefreshStep::NoteSideload
            } else if has_source {
                RefreshStep::AskLatest
            } else {
                RefreshStep::Stay
            },
        }),
{
    match installed {
        None => RefreshStep::Stay,
        Some(v) => if !download::is_recognized_release_semver(v) {
            RefreshStep::NoteSideload
        } else if has_source {
            RefreshStep::AskLatest
        } else {
            RefreshStep::Stay
        },
    }
}

/// What is done with a version that differs from what is installed: it is
/// installed, unless it is known not to load.
pub open spec fn taken(latest: Seq<char>, known_bad: Seq<String>) -> RefreshStep {
    if text::lists(known_bad, latest) {
        RefreshStep::StayFromBad
    } else {
        RefreshStep::Install
    }
}

/// What is done once the releases answered.
pub open spec fn after_latest(
    installed: Seq<char>,
    latest: Option<Seq<char>>,
    known_bad: Seq<String>,
) -> RefreshStep {
    match latest {
        None => RefreshStep::Stay,
        Some(l) => if l == installed {
            RefreshStep::CompareHashes
        } else {
            taken(l, known_bad)
        },
    }
}

/// The step after the releases answered.
pub fn latest_known(installed: &str, latest: Option<&str>, known_bad: &Vec<String>) -> (r: RefreshStep)
    ensures
        r == after_latest(installed@, text::opt_view(latest), known_bad@),
{
    match latest {
        None => RefreshStep::Stay,
        Some(l) => if text::str_eq(l, installed) {
            RefreshStep::CompareHashes
        } else if text::list_contains(known_bad, l) {
            RefreshStep::StayFromBad
        } else {
            RefreshStep::Install
        },
    }
}

/// What is done once the hashes were compared: a release that changed under the
/// same version is taken again.
pub open spec fn after_hashes(
    latest: Seq<char>,
    remote: Option<Seq<char>>,
    local: Option<Seq<char>>,
    known_bad: Seq<String>,
) -> RefreshStep {
    match (remote, local) {
        (Some(a), Some(b)) => if text::same_but_case(a, b) {
            RefreshStep::Stay
        } else {
            taken(latest, known_bad)
        },
        _ => RefreshStep::Stay,
    }
}

/// A version that is known not to load is never installed again, neither as a
/// newer one nor as one that changed.
pub proof fn law_bad_versions_are_not_taken(
    installed: Seq<char>,
    latest: Seq<char>,
    remote: Option<Seq<char>>,
    local: Option<Seq<char>>,
    known_bad: Seq<String>,
)
    requires
        text::lists(known_bad, latest),
    ensures
        after_latest(installed, Some(latest), known_bad) != RefreshStep::Install,
        after_hashes(latest, remote, local, known_bad) != RefreshStep::Install,
{
}

/// The step after the hashes were compared.
pub fn hashes_compared(
    latest: &str,
    remote: Option<&str>,
    local: Option<&str>,
    known_bad: &Vec<String>,
) -> (r: RefreshStep)
    ensures
        r == after_hashes(latest@, text::opt_view(remote), text::opt_view(local), known_bad@),
{
    match (remote, local) {
        (Some(a), Some(b)) => if text::eq_but_case(a, b) {
            RefreshStep::Stay
        } else if text::list_contains(known_bad, latest) {
            RefreshStep::StayFromBad
        } else {
            RefreshStep::Install
        },
        _ => RefreshStep::Stay,
    }
}

/// Whether the installed skills are refreshed too: after an update of the
/// plugin that they belong to.
pub fn refreshes_skills(plugin_name: &str) -> (r: bool)
    ensures
        r == (plugin_name@ == "gm"@),
{
    text::str_eq(plugin_name, "gm")
}

/// What is noted of a plugin that is a build of its own.
pub fn sideload_marker(plugin_name: &str, installed: &str, now_ms: u64) -> (r: Json)
    ensures
        json::tree(r) == json::obj4(
            "plugin"@,
            JsonTree::Str(plugin_name@),
            "installed_marker"@,
            JsonTree::Str(installed@),
            "detected_ts"@,
            json::uint_tree(now_ms as nat),
            "note"@,
            JsonTree::Str(
                "installed .version file is not recognized X.Y.Z semver; treated as an intentional local-dev sideload and never auto-overwritten"@,
            ),
        ),
{
    json::object4(
        "plugin",
        json::str(plugin_name),
        "installed_marker",
        json::str(installed),
        "detected_ts",
        json::uint(now_ms),
        "note",
        json::str(
            "installed .version file is not recognized X.Y.Z semver; treated as an intentional local-dev sideload and never auto-overwritten",
        ),
    )
}

// ---------------------------------------------------------------------------
// Installing a plugin
// ---------------------------------------------------------------------------
/// How long after a failed installation no other is tried, in milliseconds.
pub const PLUGIN_INSTALL_RETRY_COOLDOWN_MS: u64 = 30_000;

/// Milliseconds in whole seconds, rounded to the nearest, and to the even one
/// half way.
pub open spec fn whole_seconds(ms: nat) -> nat {
    let q = ms / 1000;
    let rest = ms % 1000;
    if rest > 500 || (rest == 500 && q % 2 == 1) {
        q + 1
    } else {
        q
    }
}

fn seconds_of(ms: u64) -> (r: u64)
    ensures
        r == whole_seconds(ms as nat),
{
    let q: u64 = ms / 1000;
    let rest: u64 = ms % 1000;
    if rest > 500 || (rest == 500 && q % 2 == 1) {
        q + 1
    } else {
        q
    }
}

/// How long ago the installation failed, from the file that notes it.
pub open spec fn failed_ago(marker: Option<Seq<char>>, now_ms: u64) -> Option<nat> {
    match marker {
        Some(s) => match text::parsed_uint(text::trimmed(s), u64::MAX as nat) {
            Some(at) => Some(if at < now_ms {
                (now_ms - at) as nat
            } else {
                0
            }),
            None => None,
        },
        None => None,
    }
}

/// How long ago the installation of a plugin failed.
pub fn read_plugin_install_failure_elapsed(marker: Option<&str>, now_ms: u64) -> (r: Option<u64>)
    ensures
        imports::opt_nat(r) == failed_ago(text::opt_view(marker), now_ms),
{
    match marker {
        Some(s) => match text::parse_u64(text::trim(s)) {
            Some(at) => Some(now_ms.saturating_sub(at)),
            None => None,
        },
        None => None,
    }
}

/// What is done about a plugin that is wanted.
pub enum InstallStep {
    /// It is there.
    Installed,
    /// It cannot be had now.
    Refused(String),
    /// It is fetched.
    Fetch,
}

/// What is done about a plugin, as a value.
pub enum InstallView {
    Installed,
    Refused(Seq<char>),
    Fetch,
}

pub open spec fn install_view(s: InstallStep) -> InstallView {
    match s {
        InstallStep::Installed => InstallView::Installed,
        InstallStep::Refused(e) => InstallView::Refused(e@),
        InstallStep::Fetch => InstallView::Fetch,
    }
}

/// What is done about a plugin that is wanted: what is there is taken, unless
/// a version is asked for; a failed installation is not tried again at once;
/// and it must come from somewhere.
pub open spec fn install_step(
    plugin: Seq<char>,
    wasm_there: bool,
    version_asked: bool,
    failed: Option<nat>,
    has_source: bool,
) -> InstallView {
    if wasm_there && !version_asked {
        InstallView::Installed
    } else {
        match failed {
            Some(ago) => if !version_asked && ago < PLUGIN_INSTALL_RETRY_COOLDOWN_MS {
                InstallView::Refused(
                    "plugin "@ + plugin + " install failed "@ + text::decimal(whole_seconds(ago))
                        + "s ago -- retry backoff active for "@ + text::decimal(
                        whole_seconds((PLUGIN_INSTALL_RETRY_COOLDOWN_MS - ago) as nat),
                    ) + "s more"@,
                )
            } else if has_source {
                InstallView::Fetch
            } else {
                InstallView::Refused(download::unknown_plugin(plugin))
            },
            None => if has_source {
                InstallView::Fetch
            } else {
                InstallView::Refused(download::unknown_plugin(plugin))
            },
        }
    }
}

/// The first step of an installation.
pub fn ensure_plugin_installed(
    plugin_name: &str,
    dest_exists: bool,
    explicit_version: Option<&str>,
    failed_ms_ago: Option<u64>,
    has_source: bool,
) -> (r: InstallStep)
    ensures
        install_view(r) == install_step(
            plugin_name@,
            dest_exists,
            explicit_version is Some,
            imports::opt_nat(failed_ms_ago),
            has_source,
        ),
{
    let asked = explicit_version.is_some();
    if dest_exists && !asked {
        return InstallStep::Installed;
    }
    match failed_ms_ago {
        Some(ago) => if !asked && ago < PLUGIN_INSTALL_RETRY_COOLDOWN_MS {
            let head = text::add5(
                "plugin ",
                plugin_name,
                " install failed ",
                text::u64_text(seconds_of(ago)).as_str(),
                "s ago -- retry backoff active for ",
            );
            return InstallStep::Refused(
                text::add3(
                    head.as_str(),
                    text::u64_text(seconds_of(PLUGIN_INSTALL_RETRY_COOLDOWN_MS - ago)).as_str(),
                    "s more",
                ),
            );
        },
        None => {},
    }
    if has_source {
        InstallStep::Fetch
    } else {
        InstallStep::Refused(download::unknown_plugin_error(plugin_name))
    }
}

/// A plugin that is there is never fetched without a version to fetch.
pub proof fn law_installed_plugin_is_left_alone(
    plugin: Seq<char>,
    failed: Option<nat>,
    has_source: bool,
)
    ensures
        install_step(plugin, true, false, failed, has_source) == InstallView::Installed,
{
}

/// Whether a version that is to be installed is already there.
pub fn version_is_there(dest_exists: bool, noted: Option<&str>, version: &str) -> (r: bool)
    ensures
        r == (dest_exists && match text::opt_view(noted) {
            Some(n) => text::trimmed(n) == version@,
            None => false,
        }),
{
    dest_exists && match noted {
        Some(n) => text::str_eq(text::trim(n), version),
        None => false,
    }
}

/// The asset that is tried where the first is not in a release.
pub fn fallback_asset(asset_basename: &str) -> (r: Option<&'static str>)
    ensures
        text::opt_view(r) == (if asset_basename@ == "plugkit-slim"@ {
            Some("plugkit"@)
        } else {
            None
        }),
{
    if text::str_eq(asset_basename, "plugkit-slim") {
        Some("plugkit")
    } else {
        None
    }
}

/// The error where a plugin could be had in neither way.
pub fn all_paths_failed(plugin_name: &str, api_error: &str, direct_error: &str) -> (r: String)
    ensures
        r@ == "plugin "@ + plugin_name@ + " install failed on all paths -- GitHub API: "@
            + api_error@ + "; direct release download: "@ + direct_error@,
{
    let head = text::add4(
        "plugin ",
        plugin_name,
        " install failed on all paths -- GitHub API: ",
        api_error,
    );
    text::add3(head.as_str(), "; direct release download: ", direct_error)
}

/// What becomes of the note of a failed installation.
pub enum FailureNote {
    /// It is left as it is.
    Leave,
    /// It is removed.
    Remove,
    /// It is written anew.
    Write(String),
}

/// What becomes of the note of a failed installation, once another was tried.
pub fn failure_note(version_asked: bool, succeeded: bool, now_ms: u64) -> (r: FailureNote)
    ensures
        match r {
            FailureNote::Leave => version_asked,
            FailureNote::Remove => !version_asked && succeeded,
            FailureNote::Write(t) => !version_asked && !succeeded && t@ == text::decimal(
                now_ms as nat,
            ),
        },
{
    if version_asked {
        FailureNote::Leave
    } else if succeeded {
        FailureNote::Remove
    } else {
        FailureNote::Write(text::u64_text(now_ms))
    }
}

/// A failed installation is not tried again for as long as its note is fresh.
pub proof fn law_failed_install_waits(
    plugin: Seq<char>,
    failed_at: u64,
    now_ms: u64,
    has_source: bool,
)
    requires
        failed_at <= now_ms < failed_at + PLUGIN_INSTALL_RETRY_COOLDOWN_MS,
    ensures
        install_step(
            plugin,
            false,
            false,
            failed_ago(Some(text::decimal(failed_at as nat)), now_ms),
            has_source,
        ) is Refused,
{
    text::lemma_decimal(failed_at as nat);
    text::law_decimal_reads_back(failed_at as nat, u64::MAX as nat);
    let s = text::decimal(failed_at as nat);
    assert(text::is_digit(s[0]));
    assert(text::is_digit(s.last()));
    assert(text::trimmed(s) == s);
}

// ---------------------------------------------------------------------------
// Skills
// ---------------------------------------------------------------------------
/// A text with line feeds for the pairs of carriage return and line feed.
pub open spec fn unix_lines(s: Seq<char>) -> Seq<char>
    decreases s.len(),
{
    if s.len() == 0 {
        s
    } else if s.len() >= 2 && s[0] == '\r' && s[1] == '\n' {
        seq!['\n'] + unix_lines(s.skip(2))
    } else {
        seq![s[0]] + unix_lines(s.skip(1))
    }
}

pub fn normalize_newlines(s: &str) -> (r: String)
    ensures
        r@ == unix_lines(s@),
{
    let cs = text::chars_of(s);
    let n: usize = cs.len();
    let mut out: Vec<char> = Vec::new();
    let mut i: usize = 0;
    assert(s@.skip(0) =~= s@);
    assert(out@ + unix_lines(s@) =~= unix_lines(s@));
    while i < n
        invariant
            i <= n,
            n == cs@.len(),
            cs@ == s@,
            out@ + unix_lines(s@.skip(i as int)) == unix_lines(s@),
        decreases n - i,
    {
        let ghost rest = s@.skip(i as int);
        let ghost before = out@;
        if i + 1 < n && cs[i] == '\r' && cs[i + 1] == '\n' {
            out.push('\n');
            assert(rest.skip(2) =~= s@.skip(i + 2));
            assert(before + (seq!['\n'] + unix_lines(rest.skip(2))) =~= out@ + unix_lines(
                rest.skip(2),
            ));
            i += 2;
        } else {
            out.push(cs[i]);
            assert(rest.skip(1) =~= s@.skip(i + 1));
            assert(before + (seq![rest[0]] + unix_lines(rest.skip(1))) =~= out@ + unix_lines(
                rest.skip(1),
            ));
            i += 1;
        }
    }
    assert(out@ + unix_lines(s@.skip(n as int)) =~= out@);
    text::text_of(&out)
}

/// The directories in which skills are installed, of each agent one, under
/// the directory of the agent.
pub fn installed_skill_roots(home: &str, agent_dirs: &Vec<String>) -> (r: Vec<String>)
    ensures
        text::string_views(r@) == Seq::new(
            agent_dirs@.len(),
            |i: int| path::joined2(home@, agent_dirs@[i]@, "skills"@),
        ),
{
    let mut out: Vec<String> = Vec::new();
    for i in 0..agent_dirs.len()
        invariant
            text::string_views(out@) == Seq::new(
                i as nat,
                |j: int| path::joined2(home@, agent_dirs@[j]@, "skills"@),
            ),
    {
        let ghost before = out@;
        out.push(path::join2(home, agent_dirs[i].as_str(), "skills"));
        assert(text::string_views(out@) =~= text::string_views(before).push(
            path::joined2(home@, agent_dirs@[i as int]@, "skills"@),
        ));
        assert(text::string_views(out@) =~= Seq::new(
            (i + 1) as nat,
            |j: int| path::joined2(home@, agent_dirs@[j]@, "skills"@),
        ));
    }
    out
}

/// The file of a skill.
pub fn skill_file(root: &str, skill_name: &str) -> (r: String)
    ensures
        r@ == path::joined2(root@, skill_name@, "SKILL.md"@),
{
    path::join2(root, skill_name, "SKILL.md")
}

/// Where the newest text of a skill is.
pub fn skill_url(skill_name: &str) -> (r: String)
    ensures
        r@ == "https://raw.githubusercontent.com/AnEntrypoint/gm/main/skills/"@ + skill_name@
            + "/SKILL.md"@,
{
    text::add3(
        "https://raw.githubusercontent.com/AnEntrypoint/gm/main/skills/",
        skill_name,
        "/SKILL.md",
    )
}

/// The names of the skills that are installed, sorted and each once.
pub fn discover_installed_skill_names(found: &Vec<String>) -> (r: Vec<String>)
    ensures
        order::sorted(r@),
        forall|t: Seq<char>| #[trigger] text::lists(r@, t) <==> text::lists(found@, t),
{
    order::sorted_names(found)
}

/// The bytes of a text with line feeds alone.
pub open spec fn plain_bytes(s: Seq<char>) -> Seq<u8> {
    vstd::utf8::encode_utf8(unix_lines(s))
}

/// Whether an installed skill is written anew: it cannot be read, or is not
/// the newest text, whatever ends its lines.
pub fn skill_needs_write(existing: Option<&str>, newest: &str) -> (r: bool)
    ensures
        r == (match text::opt_view(existing) {
            Some(e) => download::hash_text(plain_bytes(e)) != download::hash_text(
                plain_bytes(newest@),
            ),
            None => true,
        }),
{
    match existing {
        Some(e) => {
            let a = normalize_newlines(e);
            let b = normalize_newlines(newest);
            !text::str_eq(
                download::sha256_hex(a.as_str().as_bytes()).as_str(),
                download::sha256_hex(b.as_str().as_bytes()).as_str(),
            )
        },
        None => true,
    }
}

/// A release carries a plugin just where one of its assets has the name of the
/// plugin, or that of the larger build where the plugin is the slim one.
pub proof fn law_release_carries_by_asset_name(release: JsonTree, basename: Seq<char>)
    ensures
        carries(release, basename) <==> exists|a: Seq<JsonTree>, k: int| #[trigger]
            names_asset(release, a, k, basename + ".wasm"@) || (basename == "plugkit-slim"@
                && names_asset(release, a, k, "plugkit.wasm"@)),
{
    let w = basename + ".wasm"@;
    if carries(release, basename) {
        let a = json::field(release, "assets"@)->0->Array_0;
        let k = choose|k: int| 0 <= k < a.len() && is_wanted_asset(#[trigger] a[k], basename);
        assert(names_asset(release, a, k, w) || names_asset(release, a, k, "plugkit.wasm"@));
    }
    if exists|a: Seq<JsonTree>, k: int| #[trigger]
        names_asset(release, a, k, w) || (basename == "plugkit-slim"@ && names_asset(
            release,
            a,
            k,
            "plugkit.wasm"@,
        )) {
        let (a, k) = choose|a: Seq<JsonTree>, k: int| #[trigger]
            names_asset(release, a, k, w) || (basename == "plugkit-slim"@ && names_asset(
                release,
                a,
                k,
                "plugkit.wasm"@,
            ));
        assert(is_wanted_asset(a[k], basename));
        assert(has_wanted(a, basename));
    }
}

/// Whether the asset at position `k` of a release has this name.
pub open spec fn names_asset(release: JsonTree, assets: Seq<JsonTree>, k: int, name: Seq<char>) -> bool {
    &&& json::field(release, "assets"@) == Some(JsonTree::Array(assets))
    &&& 0 <= k < assets.len()
    &&& json::field(assets[k], "name"@) == Some(JsonTree::Str(name))
}

/// The version that is found is that of the first release in the list that
/// carries the plugin: its tag without the letters `v` before it. Where no
/// release carries the plugin, none is found, and that is no error.
pub proof fn law_newest_release_is_the_first_that_carries(
    releases: Seq<JsonTree>,
    repo: Seq<char>,
    basename: Seq<char>,
    i: int,
    tag: Seq<char>,
    version: Seq<char>,
    vs: nat,
)
    requires
        0 <= i <= releases.len(),
        forall|j: int| 0 <= j < i ==> !carries(#[trigger] releases[j], basename),
        i < releases.len() ==> {
            &&& carries(releases[i], basename)
            &&& json::field(releases[i], "tag_name"@) == Some(JsonTree::Str(tag))
            &&& tag == Seq::new(vs, |k: int| 'v') + version
            &&& version.len() > 0 ==> version[0] != 'v'
        },
    ensures
        i < releases.len() ==> newest_version(Ok(JsonTree::Array(releases)), repo, basename) == Ok::<
            Option<Seq<char>>,
            Seq<char>,
        >(Some(version)),
        i == releases.len() ==> newest_version(Ok(JsonTree::Array(releases)), repo, basename) == Ok::<
            Option<Seq<char>>,
            Seq<char>,
        >(None),
{
    lemma_first_carrying(releases, basename, 0, i);
    if i < releases.len() {
        text::lemma_without_leading(version, 'v', vs);
    }
}

/// Releases that do not carry the plugin are passed over.
proof fn lemma_first_carrying(releases: Seq<JsonTree>, basename: Seq<char>, from: int, i: int)
    requires
        0 <= from <= i <= releases.len(),
        forall|j: int| from <= j < i ==> !carries(#[trigger] releases[j], basename),
    ensures
        first_carrying(releases, basename, from) == first_carrying(releases, basename, i),
    decreases i - from,
{
    if from < i {
        assert(!carries(releases[from], basename));
        lemma_first_carrying(releases, basename, from + 1, i);
    }
}

/// The runner to download is named after the machine: the system as it is, the
/// architecture as `x64` or `arm64`, and the extension of a program on Windows.
/// There is none for another machine.
pub proof fn law_runner_asset_names_its_machine(os: Seq<char>, arch: Seq<char>)
    ensures
        runner_asset(os, arch) is Some <==> (os == "windows"@ || os == "macos"@ || os == "linux"@) && (
        arch == "x86_64"@ || arch == "aarch64"@),
        runner_asset(os, arch) matches Some(name) ==> name == "agentplug-runner-"@ + os + "-"@ + (
        if arch == "x86_64"@ {
            "x64"@
        } else {
            "arm64"@
        }) + (if os == "windows"@ {
            ".exe"@
        } else {
            ""@
        }),
{
    reveal_strlit("windows");
    reveal_strlit("macos");
    reveal_strlit("linux");
    reveal_strlit("x86_64");
    reveal_strlit("aarch64");
    reveal_strlit("agentplug-runner-");
    reveal_strlit("-");
    reveal_strlit("x64");
    reveal_strlit("arm64");
    reveal_strlit(".exe");
    reveal_strlit("");
    reveal_strlit("agentplug-runner-windows-x64.exe");
    reveal_strlit("agentplug-runner-windows-arm64.exe");
    reveal_strlit("agentplug-runner-macos-x64");
    reveal_strlit("agentplug-runner-macos-arm64");
    reveal_strlit("agentplug-runner-linux-x64");
    reveal_strlit("agentplug-runner-linux-arm64");
    match runner_asset(os, arch) {
        Some(name) => {
            assert(name =~= "agentplug-runner-"@ + os + "-"@ + (if arch == "x86_64"@ {
                "x64"@
            } else {
                "arm64"@
            }) + (if os == "windows"@ {
                ".exe"@
            } else {
                ""@
            }));
        },
        None => {},
    }
}

/// A marker is believed where it names the newest version and that version
/// runs; a marker of the newest version beside an older runner is wrong, and
/// any other is outdated.
pub proof fn law_marker_is_held_against_what_runs(
    marker: Option<Seq<char>>,
    latest: Seq<char>,
    running: Seq<char>,
)
    ensures
        (trust_in(marker, latest, running) is Current) == (marker == Some(latest) && running == latest),
        (trust_in(marker, latest, running) is Wrong) == (marker == Some(latest) && running != latest),
        (trust_in(marker, latest, running) is Outdated) == (marker != Some(latest)),
{
}

/// A plugin is taken anew exactly where the newest version is another, or is
/// the same under another hash, and nothing marked that version as bad.
pub proof fn law_newer_plugins_are_taken(
    installed: Seq<char>,
    latest: Seq<char>,
    remote: Seq<char>,
    local: Seq<char>,
    known_bad: Seq<String>,
)
    ensures
        after_latest(installed, None, known_bad) is Stay,
        latest == installed ==> after_latest(installed, Some(latest), known_bad) is CompareHashes,
        latest != installed && (forall|i: int|
            0 <= i < known_bad.len() ==> (#[trigger] known_bad[i])@ != latest) ==> after_latest(
            installed,
            Some(latest),
            known_bad,
        ) is Install,
        latest != installed && (exists|i: int|
            0 <= i < known_bad.len() && (#[trigger] known_bad[i])@ == latest) ==> after_latest(
            installed,
            Some(latest),
            known_bad,
        ) is StayFromBad,
        remote == local ==> after_hashes(latest, Some(remote), Some(local), known_bad) is Stay,
        remote.len() != local.len() && (forall|i: int|
            0 <= i < known_bad.len() ==> (#[trigger] known_bad[i])@ != latest) ==> after_hashes(
            latest,
            Some(remote),
            Some(local),
            known_bad,
        ) is Install,
        forall|k: int|
            0 <= k < remote.len() && k < local.len() && '0' <= #[trigger] remote[k] <= '9' && remote[k]
                != local[k] && (forall|i: int|
                0 <= i < known_bad.len() ==> (#[trigger] known_bad[i])@ != latest) ==> after_hashes(
                latest,
                Some(remote),
                Some(local),
                known_bad,
            ) is Install,
        after_hashes(latest, None, Some(local), known_bad) is Stay,
        after_hashes(latest, Some(remote), None, known_bad) is Stay,
{
    assert forall|k: int|
        0 <= k < remote.len() && k < local.len() && '0' <= #[trigger] remote[k] <= '9' && remote[k]
            != local[k] && (forall|i: int|
            0 <= i < known_bad.len() ==> (#[trigger] known_bad[i])@ != latest) implies after_hashes(
        latest,
        Some(remote),
        Some(local),
        known_bad,
    ) is Install by {
        assert(text::ascii_lower(remote[k]) != text::ascii_lower(local[k]));
    }
}

/// A plugin is fetched where a version is asked for, or where it is missing and
/// its last install did not fail within half a minute; a plugin of unknown
/// origin is refused. The refusal after a failure counts the seconds gone and
/// those to come.
pub proof fn law_missing_plugin_is_fetched(
    plugin: Seq<char>,
    wasm_there: bool,
    version_asked: bool,
    failed: Option<nat>,
    secs: nat,
)
    ensures
        wasm_there && !version_asked ==> install_step(plugin, wasm_there, version_asked, failed, true)
            is Installed,
        version_asked ==> install_step(plugin, wasm_there, version_asked, failed, true) is Fetch,
        !wasm_there && !version_asked && (failed is None || failed->0 >= 30_000) ==> install_step(
            plugin,
            wasm_there,
            version_asked,
            failed,
            true,
        ) is Fetch,
        !wasm_there && !version_asked && failed is Some && failed->0 < 30_000 ==> install_step(
            plugin,
            wasm_there,
            version_asked,
            failed,
            true,
        ) is Refused,
        secs < 30 ==> install_step(plugin, false, false, Some(1000 * secs), true)
            == InstallView::Refused(
            "plugin "@ + plugin + " install failed "@ + text::decimal(secs)
                + "s ago -- retry backoff active for "@ + text::decimal((30 - secs) as nat)
                + "s more"@,
        ),
        !wasm_there && failed is None ==> install_step(plugin, wasm_there, version_asked, failed, false)
            == InstallView::Refused(
            "unknown plugin "@ + plugin
                + " -- not registered in agentplug-runner's plugin_asset_spec map"@,
        ),
{
}

/// A time in seconds is the nearest whole one.
pub proof fn law_seconds_are_the_nearest(ms: nat)
    ensures
        1000 * whole_seconds(ms) <= ms + 500,
        ms <= 1000 * whole_seconds(ms) + 500,
        ms % 1000 == 500 ==> whole_seconds(ms) % 2 == 0,
{
}

/// How long ago an install failed is the time since its marker was written;
/// none where the marker lies ahead.
pub proof fn law_failure_is_dated_by_its_marker(at: u64, now_ms: u64)
    ensures
        at <= now_ms ==> failed_ago(Some(text::decimal(at as nat)), now_ms) == Some(
            (now_ms - at) as nat,
        ),
        at > now_ms ==> failed_ago(Some(text::decimal(at as nat)), now_ms) == Some(0nat),
        failed_ago(None, now_ms) is None,
{
    text::law_decimal_reads_back(at as nat, u64::MAX as nat);
    text::lemma_decimal(at as nat);
    let d = text::decimal(at as nat);
    assert(text::is_digit(d[0]));
    assert(text::is_digit(d.last()));
    assert(text::trimmed(d) == d);
}

/// Before a plugin is replaced, each of its files that is there is copied to
/// its own name with `.prev` behind it, in the same directory.
pub proof fn law_snapshot_keeps_the_files(
    install_dir: Seq<char>,
    plugin: Seq<char>,
    wasm_there: bool,
    version_there: bool,
)
    requires
        imports::good_plugin_name(plugin),
    ensures
        ({
            let stem = path::joined_path(install_dir, "plugins"@) + "/"@ + plugin;
            let wasm = stem + ".wasm"@;
            let version = stem + ".version"@;
            let copies = snapshot(
                plugin_file(install_dir, plugin, ".wasm"@),
                plugin_file(install_dir, plugin, ".version"@),
                wasm_there,
                version_there,
            );
            &&& wasm_there == copies.contains((wasm, wasm + ".prev"@))
            &&& version_there == copies.contains((version, version + ".prev"@))
            &&& copies.len() == (if wasm_there {
                1int
            } else {
                0
            }) + (if version_there {
                1int
            } else {
                0
            })
        }),
{
    lemma_plugin_files(install_dir, plugin);
    reveal_strlit("wasm.prev");
    reveal_strlit("version.prev");
    reveal_strlit(".");
    lemma_plugin_file(install_dir, plugin, "wasm"@, "wasm.prev"@);
    lemma_plugin_file(install_dir, plugin, "version"@, "version.prev"@);
    reveal_strlit("wasm");
    reveal_strlit("version");
    reveal_strlit(".wasm");
    reveal_strlit(".version");
    reveal_strlit(".prev");
    assert(".wasm"@ =~= "."@ + "wasm"@);
    assert(".version"@ =~= "."@ + "version"@);
    let stem = path::joined_path(install_dir, "plugins"@) + "/"@ + plugin;
    let wasm = stem + ".wasm"@;
    let version = stem + ".version"@;
    assert(plugin_file(install_dir, plugin, ".wasm"@) =~= wasm);
    assert(plugin_file(install_dir, plugin, ".version"@) =~= version);
    assert(path::with_extension(wasm, "wasm.prev"@) =~= wasm + ".prev"@);
    assert(path::with_extension(version, "version.prev"@) =~= version + ".prev"@);
    let copies = snapshot(wasm, version, wasm_there, version_there);
    if wasm_there {
        assert(copies[0] == (wasm, wasm + ".prev"@));
    }
    if version_there {
        assert(copies[copies.len() - 1] == (version, version + ".prev"@));
    }
}

/// A runner of a plain name has its place where it stands, and waits under its
/// own name with `.new` behind it; the one that waits belongs in the place of
/// the first, and the next one then waits under `.new2`.
pub proof fn law_runner_waits_beside_its_place(dir: Seq<char>, name: Seq<char>)
    requires
        name.len() > 0,
        !text::has_char(name, '/'),
        !text::has_char(name, '.'),
    ensures
        canonical(dir.push('/') + name) == dir.push('/') + name,
        staging_place(dir.push('/') + name) == dir.push('/') + name + ".new"@,
        canonical(dir.push('/') + name + ".new"@) == dir.push('/') + name,
        staging_place(dir.push('/') + name + ".new"@) == dir.push('/') + name + ".new2"@,
        canonical(dir.push('/') + name + ".exe"@) == dir.push('/') + name + ".exe"@,
        staging_place(dir.push('/') + name + ".exe"@) == dir.push('/') + name + ".exe.new"@,
{
    reveal_strlit("");
    reveal_strlit("/");
    reveal_strlit(".");
    reveal_strlit("new");
    reveal_strlit("new2");
    reveal_strlit("exe");
    reveal_strlit(".new");
    reveal_strlit(".new2");
    reveal_strlit(".exe");
    reveal_strlit(".exe.new");
    text::lemma_cut_at(name, '/');
    text::lemma_cut_at(name, '.');
    let p = dir.push('/') + name;
    text::lemma_last_cut_is(dir, '/', name);
    lemma_no_last_cut(name);
    assert(!is_staged_name(p));
    assert(path::suffixed(p, "new"@) =~= p + ".new"@);
    let staged = name + ".new"@;
    assert(staged =~= name.push('.') + "new"@);
    assert(p + ".new"@ =~= dir.push('/') + staged);
    text::lemma_last_cut_is(dir, '/', staged);
    text::lemma_last_cut_is(name, '.', "new"@);
    assert(is_staged_name(p + ".new"@));
    assert(path::with_extension(p + ".new"@, ""@) =~= p);
    assert(path::suffixed(p, "new2"@) =~= p + ".new2"@);
    let exe = name + ".exe"@;
    assert(exe =~= name.push('.') + "exe"@);
    assert(p + ".exe"@ =~= dir.push('/') + exe);
    text::lemma_last_cut_is(dir, '/', exe);
    text::lemma_last_cut_is(name, '.', "exe"@);
    assert(text::ascii_lower("exe"@[0]) != text::ascii_lower("new"@[0]));
    assert(!is_staged_name(p + ".exe"@));
    assert(path::suffixed(p + ".exe"@, "new"@) =~= p + ".exe.new"@);
}

proof fn lemma_no_last_cut(s: Seq<char>)
    requires
        forall|i: int| 0 <= i < s.len() ==> #[trigger] s[i] != '.',
    ensures
        text::last_cut(s, '.') is None,
    decreases s.len(),
{
    if s.len() > 0 {
        assert(s.last() == s[s.len() - 1]);
        lemma_no_last_cut(s.drop_last());
    }
}

/// Line ends of two characters become one; a text without them stays as it is.
pub proof fn law_line_ends_are_unified(a: Seq<char>, b: Seq<char>)
    requires
        forall|i: int| 0 <= i < a.len() ==> #[trigger] a[i] != '\r',
    ensures
        unix_lines(a) == a,
        unix_lines(a + seq!['\r', '\n'] + b) == a + seq!['\n'] + unix_lines(b),
    decreases a.len(),
{
    if a.len() == 0 {
        let s = a + seq!['\r', '\n'] + b;
        assert(s =~= seq!['\r', '\n'] + b);
        assert(s.skip(2) =~= b);
        assert(a + seq!['\n'] + unix_lines(b) =~= seq!['\n'] + unix_lines(b));
    } else {
        let rest = a.skip(1);
        law_line_ends_are_unified(rest, b);
        assert(seq![a[0]] + rest =~= a);
        let s = a + seq!['\r', '\n'] + b;
        assert(s.skip(1) =~= rest + seq!['\r', '\n'] + b);
        assert(seq![a[0]] + (rest + seq!['\n'] + unix_lines(b)) =~= a + seq!['\n'] + unix_lines(b));
    }
}

/// A refused request of the release list is told by its status; a refusal for
/// the rate tells what is left and when it is restored.
pub proof fn law_failed_requests_are_told(url: Seq<char>, code: u16, remaining: String, reset: String, e: String)
    ensures
        api_error(
            url,
            ApiFailure::Status { code: 403, remaining: Some(remaining), reset: Some(reset) },
        ) == "GitHub API rate-limited fetching "@ + url + " (403, ratelimit-remaining="@ + remaining@
            + ", ratelimit-reset="@ + reset@
            + " unix secs) -- set GITHUB_TOKEN or GH_TOKEN to raise the limit from 60/hr to 5000/hr"@,
        code != 403 ==> api_error(
            url,
            ApiFailure::Status { code, remaining: Some(remaining), reset: Some(reset) },
        ) == "GitHub API returned "@ + text::decimal(code as nat) + " fetching "@ + url,
        api_error(url, ApiFailure::Transport(e)) == "network error fetching "@ + url + ": "@ + e@,
{
}

/// A download that was left is known by a name that ends in `.tmp` and the
/// number of its process.
pub proof fn law_left_downloads_have_their_names(before: Seq<char>, tail: Seq<char>)
    requires
        !text::has_char(tail, '.'),
    ensures
        is_tmp_name(before.push('.') + tail) <==> ".tmp"@.is_suffix_of(before) && tail.len() > 0
            && text::all_digits(tail),
        !is_tmp_name(tail),
{
    text::lemma_cut_at(tail, '.');
    text::lemma_last_cut_is(before, '.', tail);
    lemma_no_last_cut(tail);
}

} // verus!

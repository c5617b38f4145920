//! Releases: where plugins and the runner come from, which of them is taken,
//! and what is kept to fall back on.
use crate::path;
use crate::precompiled;
use crate::text;
use vstd::prelude::*;
use vstd::string::*;

verus! {

// ---------------------------------------------------------------------------
// Hashes
// ---------------------------------------------------------------------------
/// What SHA-256 makes of bytes.
pub uninterp spec fn sha256_digest(bytes: Seq<u8>) -> Seq<u8>;

/// `sha2::Sha256::digest`: 32 bytes, which depend on the given bytes alone.
#[verifier::external_body]
fn sha256(bytes: &[u8]) -> (r: Vec<u8>)
    ensures
        r@ == sha256_digest(bytes@),
        r@.len() == 32,
{
    <sha2::Sha256 as sha2::Digest>::digest(bytes).to_vec()
}

/// The SHA-256 of bytes, in hexadecimal.
pub open spec fn hash_text(bytes: Seq<u8>) -> Seq<char> {
    precompiled::hex_bytes(sha256_digest(bytes))
}

proof fn lemma_hex_len(b: Seq<u8>)
    ensures
        precompiled::hex_bytes(b).len() == 2 * b.len(),
    decreases b.len(),
{
    if b.len() > 0 {
        lemma_hex_len(b.drop_last());
        reveal_with_fuel(precompiled::hex, 3);
    }
}

/// The SHA-256 of bytes, in hexadecimal.
pub fn sha256_hex(bytes: &[u8]) -> (r: String)
    ensures
        r@ == hash_text(bytes@),
        r@.len() == 64,
{
    let digest = sha256(bytes);
    proof {
        lemma_hex_len(digest@);
    }
    precompiled::bytes_hex(&digest)
}

/// Whether bytes are what a hash says, in either letter case.
pub open spec fn is_hash_of(bytes: Seq<u8>, expected: Seq<char>) -> bool {
    text::same_but_case(hash_text(bytes), expected)
}

/// The error of a download that is not what its hash says.
pub open spec fn hash_mismatch(url: Seq<char>, bytes: Seq<u8>, expected: Seq<char>) -> Seq<char> {
    "sha256 mismatch downloading "@ + url + ": expected "@ + expected + ", got "@ + hash_text(bytes)
}

/// Takes a download only where it is what its hash says.
pub fn download_and_verify(url: &str, bytes: &[u8], expected_sha256_hex: &str) -> (r: Result<
    (),
    String,
>)
    ensures
        match r {
            Ok(_) => is_hash_of(bytes@, expected_sha256_hex@),
            Err(e) => !is_hash_of(bytes@, expected_sha256_hex@) && e@ == hash_mismatch(
                url@,
                bytes@,
                expected_sha256_hex@,
            ),
        },
{
    let actual = sha256_hex(bytes);
    if text::eq_but_case(actual.as_str(), expected_sha256_hex) {
        Ok(())
    } else {
        let head = text::add4(
            "sha256 mismatch downloading ",
            url,
            ": expected ",
            expected_sha256_hex,
        );
        Err(text::add3(head.as_str(), ", got ", actual.as_str()))
    }
}

/// The hash in the file beside a release asset: its first word.
pub fn expected_hash(sidecar: &str, asset: &str, place: &str) -> (r: Result<String, String>)
    ensures
        match r {
            Ok(h) => text::first_word_in(sidecar@) == Some(h@),
            Err(e) => text::first_word_in(sidecar@) is None && e@ == "empty sha256 sidecar for "@
                + asset@ + " at "@ + place@,
        },
{
    match text::word_one(sidecar) {
        Some(w) => Ok(w.to_owned()),
        None => Err(text::add4("empty sha256 sidecar for ", asset, " at ", place)),
    }
}

// ---------------------------------------------------------------------------
// Versions
// ---------------------------------------------------------------------------
/// A release tag as a version: without the letters `v` before it.
pub open spec fn tag_version(tag: Seq<char>) -> Seq<char> {
    text::without_leading(tag, 'v')
}

/// The version in the address of a release asset.
pub open spec fn version_in_url(url: Seq<char>) -> Option<Seq<char>> {
    match text::cut_text(url, "/releases/download/"@) {
        Some((_, rest)) => {
            let tag = text::before_char(rest, '/');
            if tag.len() == 0 {
                None
            } else {
                Some(tag_version(tag))
            }
        },
        None => None,
    }
}

/// The version in the address of a release asset.
pub fn extract_version_from_release_url(url: &str) -> (r: Option<String>)
    ensures
        text::opt_string_view(r) == version_in_url(url@),
{
    match text::cut_at_text(url, "/releases/download/") {
        Some((_, rest)) => {
            let (tag, _) = text::cut(rest, '/');
            if tag.is_empty() {
                None
            } else {
                Some(text::trim_leading(tag, 'v').to_owned())
            }
        },
        None => None,
    }
}

/// Whether all of a text is digits, and it is not empty.
pub open spec fn is_number_segment(s: Seq<char>) -> bool {
    s.len() > 0 && text::all_digits(s)
}

/// Whether a version is one of a release: three numbers with dots between them.
pub open spec fn is_release_version(version: Seq<char>) -> bool {
    let segments = text::pieces(version, '.');
    segments.len() == 3 && forall|i: int|
        0 <= i < segments.len() ==> is_number_segment(#[trigger] segments[i])
}

pub fn is_recognized_release_semver(version: &str) -> (r: bool)
    ensures
        r == is_release_version(version@),
{
    let segments = text::split_on(version, '.');
    let ghost all = text::views(segments@);
    if segments.len() != 3 {
        return false;
    }
    for i in 0..segments.len()
        invariant
            all == text::views(segments@),
            all == text::pieces(version@, '.'),
            segments@.len() == 3,
            forall|j: int| 0 <= j < i ==> is_number_segment(#[trigger] all[j]),
    {
        assert(all[i as int] == segments@[i as int]@);
        if !text::only_digits(segments[i]) {
            return false;
        }
    }
    true
}

/// The version that a file notes, if it notes one.
pub open spec fn noted_version(content: Option<Seq<char>>) -> Option<Seq<char>> {
    match content {
        Some(s) => if text::is_blank(s) {
            None
        } else {
            Some(text::trimmed(s))
        },
        None => None,
    }
}

fn version_noted(content: Option<&str>) -> (r: Option<String>)
    ensures
        text::opt_string_view(r) == noted_version(text::opt_view(content)),
{
    match content {
        Some(s) => if text::blank(s) {
            None
        } else {
            Some(text::trim(s).to_owned())
        },
        None => None,
    }
}

/// The version of the runner that is installed, from the file that notes it.
pub fn installed_runner_version(content: Option<&str>) -> (r: Option<String>)
    ensures
        text::opt_string_view(r) == noted_version(text::opt_view(content)),
{
    version_noted(content)
}

/// The version of a plugin that is installed, from the file that notes it.
pub fn installed_plugin_version(content: Option<&str>) -> (r: Option<String>)
    ensures
        text::opt_string_view(r) == noted_version(text::opt_view(content)),
{
    version_noted(content)
}

/// Writing a version down and reading it gives the version.
pub proof fn law_noted_version_reads_back(version: Seq<char>)
    requires
        is_release_version(version),
    ensures
        noted_version(Some(version)) == Some(version),
{
    lemma_release_has_no_space(version);
}

proof fn lemma_release_has_no_space(version: Seq<char>)
    requires
        is_release_version(version),
    ensures
        text::trimmed(version) == version,
        !text::is_blank(version),
{
    let segments = text::pieces(version, '.');
    assert(is_number_segment(segments[0]));
    assert(is_number_segment(segments[2]));
    reveal_with_fuel(text::pieces, 4);
    text::lemma_cut_at(version, '.');
    let rest1 = text::after_char(version, '.');
    text::lemma_cut_at(rest1, '.');
    let rest2 = text::after_char(rest1, '.');
    text::lemma_cut_at(rest2, '.');
    assert(segments[0] == text::before_char(version, '.'));
    assert(version[0] == segments[0][0]);
    assert(text::is_digit(segments[0][0]));
    assert(segments[2] == rest2);
    assert(version.last() == rest2.last());
    assert(text::is_digit(rest2[rest2.len() - 1]));
}

// ---------------------------------------------------------------------------
// Where a plugin comes from
// ---------------------------------------------------------------------------
/// A repository and the name of the asset in its releases.
pub struct PluginAssetSpec {
    pub repo: String,
    pub asset_basename: String,
}

/// A plugin that a project declares, with where it comes from.
pub struct ProjectPluginSpec {
    pub name: String,
    pub repo: String,
    pub asset_basename: String,
}

/// A repository and an asset name, as values.
pub open spec fn asset_view(o: Option<PluginAssetSpec>) -> Option<(Seq<char>, Seq<char>)> {
    match o {
        Some(s) => Some((s.repo@, s.asset_basename@)),
        None => None,
    }
}

/// Where the plugins come from that are known without a declaration.
pub open spec fn builtin_asset(plugin: Seq<char>) -> Option<(Seq<char>, Seq<char>)> {
    if plugin == "gm"@ {
        Some(("AnEntrypoint/plugkit-bin"@, "plugkit-slim"@))
    } else if plugin == "bert"@ {
        Some(("AnEntrypoint/agentplug-bert-bin"@, "bert"@))
    } else if plugin == "libsql"@ {
        Some(("AnEntrypoint/agentplug-libsql-bin"@, "libsql"@))
    } else if plugin == "treesitter"@ {
        Some(("AnEntrypoint/agentplug-treesitter-bin"@, "treesitter"@))
    } else if plugin == "oxibrowser"@ {
        Some(("AnEntrypoint/obrowser-bin"@, "oxibrowser"@))
    } else if plugin == "crux"@ {
        Some(("AnEntrypoint/agentplug-crux-bin"@, "crux"@))
    } else if plugin == "liqology"@ {
        Some(("AnEntrypoint/liqology"@, "liqology"@))
    } else {
        None
    }
}

fn asset(repo: &str, asset_basename: &str) -> (r: Option<PluginAssetSpec>)
    ensures
        asset_view(r) == Some((repo@, asset_basename@)),
{
    Some(
        PluginAssetSpec { repo: repo.to_owned(), asset_basename: asset_basename.to_owned() },
    )
}

pub fn builtin_plugin_asset_spec(plugin_name: &str) -> (r: Option<PluginAssetSpec>)
    ensures
        asset_view(r) == builtin_asset(plugin_name@),
{
    if text::str_eq(plugin_name, "gm") {
        asset("AnEntrypoint/plugkit-bin", "plugkit-slim")
    } else if text::str_eq(plugin_name, "bert") {
        asset("AnEntrypoint/agentplug-bert-bin", "bert")
    } else if text::str_eq(plugin_name, "libsql") {
        asset("AnEntrypoint/agentplug-libsql-bin", "libsql")
    } else if text::str_eq(plugin_name, "treesitter") {
        asset("AnEntrypoint/agentplug-treesitter-bin", "treesitter")
    } else if text::str_eq(plugin_name, "oxibrowser") {
        asset("AnEntrypoint/obrowser-bin", "oxibrowser")
    } else if text::str_eq(plugin_name, "crux") {
        asset("AnEntrypoint/agentplug-crux-bin", "crux")
    } else if text::str_eq(plugin_name, "liqology") {
        asset("AnEntrypoint/liqology", "liqology")
    } else {
        None
    }
}

/// The first declaration of a plugin in a list, from position `i` on.
pub open spec fn declared_in(specs: Seq<ProjectPluginSpec>, plugin: Seq<char>, i: int) -> Option<
    (Seq<char>, Seq<char>),
>
    decreases specs.len() - i,
{
    if i < 0 || i >= specs.len() {
        None
    } else if specs[i].name@ == plugin {
        Some((specs[i].repo@, specs[i].asset_basename@))
    } else {
        declared_in(specs, plugin, i + 1)
    }
}

/// Where a plugin comes from: the first declaration of the projects from
/// position `i` on, or what is known without one.
pub open spec fn asset_for(
    declared: Seq<Vec<ProjectPluginSpec>>,
    plugin: Seq<char>,
    i: int,
) -> Option<(Seq<char>, Seq<char>)>
    decreases declared.len() - i,
{
    if i < 0 || i >= declared.len() {
        builtin_asset(plugin)
    } else if declared_in(declared[i]@, plugin, 0) is Some {
        declared_in(declared[i]@, plugin, 0)
    } else {
        asset_for(declared, plugin, i + 1)
    }
}

fn find_declared(specs: &Vec<ProjectPluginSpec>, plugin_name: &str) -> (r: Option<PluginAssetSpec>)
    ensures
        asset_view(r) == declared_in(specs@, plugin_name@, 0),
{
    for i in 0..specs.len()
        invariant
            declared_in(specs@, plugin_name@, 0) == declared_in(specs@, plugin_name@, i as int),
    {
        if text::str_eq(specs[i].name.as_str(), plugin_name) {
            return asset(specs[i].repo.as_str(), specs[i].asset_basename.as_str());
        }
    }
    None
}

/// Where a plugin comes from, given what each project declares.
pub fn plugin_asset_spec_for_roots(
    plugin_name: &str,
    declared: &Vec<Vec<ProjectPluginSpec>>,
) -> (r: Option<PluginAssetSpec>)
    ensures
        asset_view(r) == asset_for(declared@, plugin_name@, 0),
{
    for i in 0..declared.len()
        invariant
            asset_for(declared@, plugin_name@, 0) == asset_for(declared@, plugin_name@, i as int),
    {
        let found = find_declared(&declared[i], plugin_name);
        if found.is_some() {
            return found;
        }
    }
    builtin_plugin_asset_spec(plugin_name)
}

/// A project that declares a plugin decides where it comes from, also where
/// the plugin is known without a declaration. Of several projects the first
/// decides.
pub proof fn law_declarations_win(declared: Seq<Vec<ProjectPluginSpec>>, plugin: Seq<char>, i: int)
    requires
        0 <= i < declared.len(),
        declared_in(declared[i]@, plugin, 0) is Some,
        forall|j: int| 0 <= j < i ==> declared_in((#[trigger] declared[j])@, plugin, 0) is None,
    ensures
        asset_for(declared, plugin, 0) == declared_in(declared[i]@, plugin, 0),
{
    lemma_declarations_win(declared, plugin, 0, i);
}

proof fn lemma_declarations_win(
    declared: Seq<Vec<ProjectPluginSpec>>,
    plugin: Seq<char>,
    from: int,
    i: int,
)
    requires
        0 <= from <= i < declared.len(),
        declared_in(declared[i]@, plugin, 0) is Some,
        forall|j: int| 0 <= j < i ==> declared_in((#[trigger] declared[j])@, plugin, 0) is None,
    ensures
        asset_for(declared, plugin, from) == declared_in(declared[i]@, plugin, 0),
    decreases i - from,
{
    if from < i {
        assert(declared_in(declared[from]@, plugin, 0) is None);
        lemma_declarations_win(declared, plugin, from + 1, i);
    }
}

/// The projects whose declarations count: the known ones, and the current
/// directory.
pub fn declaring_roots(known: &Vec<String>, cwd: Option<&str>) -> (r: Vec<String>)
    ensures
        text::string_views(r@) == (match text::opt_view(cwd) {
            Some(d) => if path::lists_path(known@, d) {
                text::string_views(known@)
            } else {
                text::string_views(known@).push(d)
            },
            None => text::string_views(known@),
        }),
{
    let mut out: Vec<String> = Vec::new();
    for i in 0..known.len()
        invariant
            text::string_views(out@) == text::string_views(known@).take(i as int),
    {
        let ghost before = out@;
        out.push(known[i].clone());
        assert(text::string_views(out@) =~= text::string_views(before).push(known@[i as int]@));
        assert(text::string_views(known@).take(i + 1) =~= text::string_views(known@).take(
            i as int,
        ).push(known@[i as int]@));
    }
    assert(text::string_views(known@).take(known@.len() as int) =~= text::string_views(known@));
    match cwd {
        Some(d) => {
            if !path::list_contains_path(known, d) {
                let ghost before = out@;
                out.push(d.to_owned());
                assert(text::string_views(out@) =~= text::string_views(before).push(d@));
            }
        },
        None => {},
    }
    out
}

/// The error for a plugin that comes from nowhere.
pub open spec fn unknown_plugin(plugin: Seq<char>) -> Seq<char> {
    "unknown plugin "@ + plugin
        + " -- not registered in agentplug-runner's plugin_asset_spec map"@
}

pub fn unknown_plugin_error(plugin_name: &str) -> (r: String)
    ensures
        r@ == unknown_plugin(plugin_name@),
{
    text::add3(
        "unknown plugin ",
        plugin_name,
        " -- not registered in agentplug-runner's plugin_asset_spec map",
    )
}

// ---------------------------------------------------------------------------
// Addresses
// ---------------------------------------------------------------------------
/// The repository of the runner.
pub const RUNNER_BIN_REPO: &'static str = "AnEntrypoint/agentplug-bin";

/// Where the assets of a release are.
pub open spec fn release_base(repo: Seq<char>, version: Seq<char>) -> Seq<char> {
    "https://github.com/"@ + repo + "/releases/download/v"@ + version
}

pub fn release_base_url(repo: &str, version: &str) -> (r: String)
    ensures
        r@ == release_base(repo@, version@),
{
    text::add4("https://github.com/", repo, "/releases/download/v", version)
}

/// Where the assets of the newest release are.
pub fn latest_asset_url(repo: &str, asset_name: &str) -> (r: String)
    ensures
        r@ == "https://github.com/"@ + repo@ + "/releases/latest/download/"@ + asset_name@,
{
    text::add4("https://github.com/", repo, "/releases/latest/download/", asset_name)
}

/// Where the newest release of a repository is told.
pub fn latest_release_api_url(repo: &str) -> (r: String)
    ensures
        r@ == "https://api.github.com/repos/"@ + repo@ + "/releases/latest"@,
{
    text::add3("https://api.github.com/repos/", repo, "/releases/latest")
}

/// Where the releases of a repository are listed.
pub fn releases_api_url(repo: &str) -> (r: String)
    ensures
        r@ == "https://api.github.com/repos/"@ + repo@ + "/releases?per_page=100"@,
{
    text::add3("https://api.github.com/repos/", repo, "/releases?per_page=100")
}

/// The version of a release is found in the address of its assets, for a
/// repository without such a path in its name.
pub proof fn law_release_address_tells_version(repo: Seq<char>, version: Seq<char>, asset: Seq<char>)
    requires
        text::first_at(
            release_base(repo, version) + "/"@ + asset,
            "/releases/download/"@,
            ("https://github.com/"@ + repo).len() as int,
        ),
        is_release_version(version),
    ensures
        version_in_url(release_base(repo, version) + "/"@ + asset) == Some(version),
{
    let head = "https://github.com/"@ + repo;
    let marker = "/releases/download/"@;
    let url = release_base(repo, version) + "/"@ + asset;
    reveal_strlit("/releases/download/");
    reveal_strlit("/releases/download/v");
    reveal_strlit("/");
    let rest = seq!['v'] + version + "/"@ + asset;
    assert("/releases/download/v"@ =~= marker + seq!['v']);
    assert(url =~= head + marker + rest);
    assert(url.skip((head.len() + marker.len()) as int) =~= rest);
    lemma_first_cut(url, marker, head.len() as int);
    let tag = seq!['v'] + version;
    lemma_release_segments(version);
    assert forall|j: int| 0 <= j < tag.len() implies rest[j] != '/' by {
        if j > 0 {
            assert(rest[j] == version[j - 1]);
        }
    }
    assert(rest[tag.len() as int] == '/');
    text::lemma_cut_at_is(rest, '/', tag.len() as int);
    assert(text::before_char(rest, '/') =~= tag);
    assert(tag.skip(1) =~= version);
    assert(version[0] != 'v');
    reveal_with_fuel(text::without_leading, 2);
}

proof fn lemma_first_cut(s: Seq<char>, p: Seq<char>, i: int)
    requires
        text::first_at(s, p, i),
    ensures
        text::cut_text(s, p) == Some((s.take(i), s.skip(i + p.len()))),
{
    let k = choose|k: int| text::first_at(s, p, k);
    if k < i {
        assert(!text::occurs_at(s, p, k));
    }
    if i < k {
        assert(!text::occurs_at(s, p, i));
    }
}

proof fn lemma_release_segments(version: Seq<char>)
    requires
        is_release_version(version),
    ensures
        version.len() > 0,
        version[0] != 'v',
        forall|j: int| 0 <= j < version.len() ==> #[trigger] version[j] != '/',
{
    let segments = text::pieces(version, '.');
    assert(is_number_segment(segments[0]));
    assert(is_number_segment(segments[1]));
    assert(is_number_segment(segments[2]));
    reveal_with_fuel(text::pieces, 4);
    text::lemma_cut_at(version, '.');
    let n0 = text::cut_at(version, '.') as int;
    let rest1 = text::after_char(version, '.');
    text::lemma_cut_at(rest1, '.');
    let n1 = text::cut_at(rest1, '.') as int;
    let rest2 = text::after_char(rest1, '.');
    text::lemma_cut_at(rest2, '.');
    assert(segments[0] == text::before_char(version, '.'));
    assert(segments[1] == text::before_char(rest1, '.'));
    assert(segments[2] == rest2);
    assert(text::is_digit(segments[0][0]));
    assert(version[0] == segments[0][0]);
    assert forall|j: int| 0 <= j < version.len() implies #[trigger] version[j] != '/' by {
        if j < n0 {
            assert(version[j] == segments[0][j]);
            assert(text::is_digit(segments[0][j]));
        } else if j > n0 {
            let k = j - n0 - 1;
            assert(version[j] == rest1[k]);
            if k < n1 {
                assert(rest1[k] == segments[1][k]);
                assert(text::is_digit(segments[1][k]));
            } else if k > n1 {
                assert(rest1[k] == rest2[k - n1 - 1]);
                assert(text::is_digit(segments[2][k - n1 - 1]));
            }
        }
    }
}

/// A download is taken by its hash in hex, in capitals or not; a hash that
/// differs in a digit is refused.
pub proof fn law_download_is_held_against_its_hash(
    url: Seq<char>,
    bytes: Seq<u8>,
    expected: Seq<char>,
    k: int,
)
    ensures
        is_hash_of(bytes, precompiled::hex_bytes(sha256_digest(bytes))),
        expected.len() != 2 * sha256_digest(bytes).len() ==> !is_hash_of(bytes, expected),
        0 <= k < expected.len() && '0' <= expected[k] <= '9' && expected[k] != precompiled::hex_bytes(
            sha256_digest(bytes),
        )[k] ==> !is_hash_of(bytes, expected),
        hash_mismatch(url, bytes, expected) == "sha256 mismatch downloading "@ + url + ": expected "@
            + expected + ", got "@ + precompiled::hex_bytes(sha256_digest(bytes)),
{
    let d = sha256_digest(bytes);
    if d.len() > 0 {
        precompiled::law_bytes_are_written_in_hex(d, 0);
    }
    if 0 <= k < expected.len() && '0' <= expected[k] <= '9' && expected.len()
        == precompiled::hex_bytes(d).len() && expected[k] != precompiled::hex_bytes(d)[k] {
        assert(text::ascii_lower(precompiled::hex_bytes(d)[k]) != text::ascii_lower(expected[k]));
    }
}

/// The version of a release is its tag without the `v` before it.
pub proof fn law_tag_is_the_version_behind_v(version: Seq<char>)
    requires
        version.len() > 0,
        version[0] != 'v',
    ensures
        tag_version(version) == version,
        tag_version("v"@ + version) == version,
{
    reveal_strlit("v");
    reveal_with_fuel(text::without_leading, 3);
    assert(("v"@ + version).skip(1) =~= version);
}

/// A release version is three numbers with a dot between each two.
pub proof fn law_release_version_is_three_numbers(a: Seq<char>, b: Seq<char>, c: Seq<char>, version: Seq<char>)
    ensures
        a.len() > 0 && text::all_digits(a) && b.len() > 0 && text::all_digits(b) && c.len() > 0
            && text::all_digits(c) ==> is_release_version(a.push('.') + b.push('.') + c),
        is_release_version(version) ==> exists|x: Seq<char>, y: Seq<char>, z: Seq<char>|
            version == #[trigger] (x.push('.') + y.push('.') + z) && x.len() > 0 && text::all_digits(x)
                && y.len() > 0 && text::all_digits(y) && z.len() > 0 && text::all_digits(z),
{
    if a.len() > 0 && text::all_digits(a) && b.len() > 0 && text::all_digits(b) && c.len() > 0
        && text::all_digits(c) {
        let v = a.push('.') + b.push('.') + c;
        assert(v =~= a.push('.') + (b.push('.') + c));
        lemma_digits_are_no_dots(a);
        lemma_digits_are_no_dots(b);
        lemma_digits_are_no_dots(c);
        text::law_text_splits_at_each_mark(a, '.', b.push('.') + c);
        text::law_text_splits_at_each_mark(b, '.', c);
        text::law_text_splits_at_each_mark(c, '.', Seq::empty());
        assert(text::pieces(v, '.') =~= seq![a, b, c]);
    }
    if is_release_version(version) {
        let segments = text::pieces(version, '.');
        assert(is_number_segment(segments[0]));
        assert(is_number_segment(segments[1]));
        assert(is_number_segment(segments[2]));
        reveal_with_fuel(text::pieces, 4);
        text::lemma_cut_at(version, '.');
        let rest1 = text::after_char(version, '.');
        text::lemma_cut_at(rest1, '.');
        let rest2 = text::after_char(rest1, '.');
        let x = text::before_char(version, '.');
        let y = text::before_char(rest1, '.');
        assert(segments =~= seq![x, y, rest2]);
        assert(version =~= x.push('.') + y.push('.') + rest2);
    }
}

proof fn lemma_digits_are_no_dots(s: Seq<char>)
    requires
        text::all_digits(s),
    ensures
        forall|i: int| 0 <= i < s.len() ==> #[trigger] s[i] != '.',
{
    assert forall|i: int| 0 <= i < s.len() implies #[trigger] s[i] != '.' by {
        assert(text::is_digit(s[i]));
    }
}

/// The plugins that come with the runner, and where each is found.
pub proof fn law_plugins_of_the_runner(plugin: Seq<char>)
    ensures
        builtin_asset(plugin) is Some <==> plugin == "gm"@ || plugin == "bert"@ || plugin == "libsql"@
            || plugin == "treesitter"@ || plugin == "oxibrowser"@ || plugin == "crux"@ || plugin
            == "liqology"@,
        plugin == "gm"@ ==> builtin_asset(plugin) == Some(
            ("AnEntrypoint/plugkit-bin"@, "plugkit-slim"@),
        ),
        plugin == "oxibrowser"@ ==> builtin_asset(plugin) == Some(
            ("AnEntrypoint/obrowser-bin"@, plugin),
        ),
        plugin == "liqology"@ ==> builtin_asset(plugin) == Some(("AnEntrypoint/"@ + plugin, plugin)),
        plugin == "bert"@ || plugin == "libsql"@ || plugin == "treesitter"@ || plugin == "crux"@
            ==> builtin_asset(plugin) == Some(
            ("AnEntrypoint/agentplug-"@ + plugin + "-bin"@, plugin),
        ),
{
    reveal_strlit("gm");
    reveal_strlit("bert");
    reveal_strlit("libsql");
    reveal_strlit("treesitter");
    reveal_strlit("oxibrowser");
    reveal_strlit("crux");
    reveal_strlit("liqology");
    assert("treesitter"@[0] == 't' && "oxibrowser"@[0] == 'o');
    assert("bert"@[0] == 'b' && "crux"@[0] == 'c');
    reveal_strlit("AnEntrypoint/");
    reveal_strlit("AnEntrypoint/liqology");
    reveal_strlit("AnEntrypoint/agentplug-");
    reveal_strlit("-bin");
    reveal_strlit("AnEntrypoint/agentplug-bert-bin");
    reveal_strlit("AnEntrypoint/agentplug-libsql-bin");
    reveal_strlit("AnEntrypoint/agentplug-treesitter-bin");
    reveal_strlit("AnEntrypoint/agentplug-crux-bin");
    if plugin == "liqology"@ {
        assert("AnEntrypoint/liqology"@ =~= "AnEntrypoint/"@ + plugin);
    } else if plugin == "bert"@ {
        assert("AnEntrypoint/agentplug-bert-bin"@ =~= "AnEntrypoint/agentplug-"@ + plugin + "-bin"@);
    } else if plugin == "libsql"@ {
        assert("AnEntrypoint/agentplug-libsql-bin"@ =~= "AnEntrypoint/agentplug-"@ + plugin + "-bin"@);
    } else if plugin == "treesitter"@ {
        assert("AnEntrypoint/agentplug-treesitter-bin"@ =~= "AnEntrypoint/agentplug-"@ + plugin
            + "-bin"@);
    } else if plugin == "crux"@ {
        assert("AnEntrypoint/agentplug-crux-bin"@ =~= "AnEntrypoint/agentplug-"@ + plugin + "-bin"@);
    }
}

/// Of the plugins of a project, the first of a name is taken.
pub proof fn law_first_declaration_counts(specs: Seq<ProjectPluginSpec>, plugin: Seq<char>, k: int)
    ensures
        (forall|i: int| 0 <= i < specs.len() ==> (#[trigger] specs[i]).name@ != plugin) ==> declared_in(
            specs,
            plugin,
            0,
        ) is None,
        0 <= k < specs.len() && specs[k].name@ == plugin && (forall|i: int|
            0 <= i < k ==> (#[trigger] specs[i]).name@ != plugin) ==> declared_in(specs, plugin, 0)
            == Some((specs[k].repo@, specs[k].asset_basename@)),
{
    lemma_declared_in(specs, plugin, 0, k);
}

proof fn lemma_declared_in(specs: Seq<ProjectPluginSpec>, plugin: Seq<char>, from: int, k: int)
    requires
        0 <= from <= specs.len(),
    ensures
        (forall|i: int| from <= i < specs.len() ==> (#[trigger] specs[i]).name@ != plugin)
            ==> declared_in(specs, plugin, from) is None,
        from <= k < specs.len() && specs[k].name@ == plugin && (forall|i: int|
            from <= i < k ==> (#[trigger] specs[i]).name@ != plugin) ==> declared_in(specs, plugin, from)
            == Some((specs[k].repo@, specs[k].asset_basename@)),
    decreases specs.len() - from,
{
    if from < specs.len() {
        lemma_declared_in(specs, plugin, from + 1, k);
    }
}

/// The files of a release lie under the repository and the tag of its version.
pub proof fn law_release_lies_under_its_tag(repo: Seq<char>, version: Seq<char>)
    ensures
        release_base(repo, version) == "https://github.com/"@ + repo + "/releases/download/"@ + ("v"@
            + version),
{
    reveal_strlit("/releases/download/v");
    reveal_strlit("/releases/download/");
    reveal_strlit("v");
    assert(release_base(repo, version) =~= "https://github.com/"@ + repo + "/releases/download/"@ + (
    "v"@ + version));
}

/// An address that tells no release tells no version.
pub proof fn law_other_addresses_tell_no_version(url: Seq<char>)
    ensures
        !text::has_text(url, "/releases/download/"@) ==> version_in_url(url) is None,
{
}

} // verus!

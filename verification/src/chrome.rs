//! Finding Chrome, and its processes, on the machine.
use crate::browser;
use crate::imports;
use crate::path;
use crate::text;
use vstd::prelude::*;
use vstd::string::*;

verus! {

/// The kinds of machine on which Chrome is found in different places.
#[derive(Debug, Clone, Copy, PartialEq, Eq, Structural)]
pub enum Platform {
    Windows,
    MacOs,
    Other,
}

/// The file names under which a command may be found.
pub open spec fn command_names(command: Seq<char>, platform: Platform) -> Seq<Seq<char>> {
    if platform == Platform::Windows {
        seq![command + ".exe"@, command + ".cmd"@, command]
    } else {
        seq![command]
    }
}

/// The files that a command may be, under the directories of the search path,
/// in the order in which they are tried.
pub open spec fn command_files(dirs: Seq<Seq<char>>, names: Seq<Seq<char>>) -> Seq<Seq<char>>
    decreases dirs.len(),
{
    if dirs.len() == 0 {
        Seq::empty()
    } else {
        command_files(dirs.drop_last(), names) + Seq::new(
            names.len(),
            |i: int| path::joined_path(dirs.last(), names[i]),
        )
    }
}

/// The files that a command may be, in the order in which they are tried.
pub fn which_candidates(dirs: &Vec<String>, command: &str, platform: Platform) -> (r: Vec<String>)
    ensures
        text::string_views(r@) == command_files(
            text::string_views(dirs@),
            command_names(command@, platform),
        ),
{
    let mut names: Vec<String> = Vec::new();
    if platform == Platform::Windows {
        names.push(text::add2(command, ".exe"));
        names.push(text::add2(command, ".cmd"));
    }
    names.push(command.to_owned());
    let ghost wanted = command_names(command@, platform);
    assert(text::string_views(names@) =~= wanted);
    let ghost all = text::string_views(dirs@);
    let mut out: Vec<String> = Vec::new();
    assert(text::string_views(out@) =~= Seq::<Seq<char>>::empty());
    for d in 0..dirs.len()
        invariant
            all == text::string_views(dirs@),
            wanted == text::string_views(names@),
            text::string_views(out@) == command_files(all.take(d as int), wanted),
    {
        let ghost before = text::string_views(out@);
        let ghost dir = dirs@[d as int]@;
        assert(all.take(d + 1).drop_last() =~= all.take(d as int));
        assert(all.take(d + 1).last() == dir);
        for n in 0..names.len()
            invariant
                d < dirs@.len(),
                dir == dirs@[d as int]@,
                wanted == text::string_views(names@),
                text::string_views(out@) == before + Seq::new(
                    n as nat,
                    |i: int| path::joined_path(dir, wanted[i]),
                ),
        {
            let ghost so_far = out@;
            out.push(path::join(dirs[d].as_str(), names[n].as_str()));
            assert(text::string_views(out@) =~= text::string_views(so_far).push(
                path::joined_path(dir, wanted[n as int]),
            ));
            assert(text::string_views(out@) =~= before + Seq::new(
                (n + 1) as nat,
                |i: int| path::joined_path(dir, wanted[i]),
            ));
        }
    }
    assert(all.take(dirs@.len() as int) =~= all);
    out
}

/// The places where Chrome is installed.
pub open spec fn install_places(platform: Platform, home: Option<Seq<char>>) -> Seq<Seq<char>> {
    match platform {
        Platform::Windows => seq![
            "C:\\Program Files\\Google\\Chrome\\Application\\chrome.exe"@,
            "C:\\Program Files (x86)\\Google\\Chrome\\Application\\chrome.exe"@,
        ],
        Platform::MacOs => {
            let shared = seq![
                "/Applications/Google Chrome.app/Contents/MacOS/Google Chrome"@,
                "/Applications/Chromium.app/Contents/MacOS/Chromium"@,
            ];
            match home {
                Some(h) => shared.push(
                    path::joined_path(
                        h,
                        "Applications/Google Chrome.app/Contents/MacOS/Google Chrome"@,
                    ),
                ),
                None => shared,
            }
        },
        Platform::Other => seq![
            "/usr/bin/google-chrome"@,
            "/usr/bin/chromium"@,
            "/usr/bin/chromium-browser"@,
        ],
    }
}

/// The places where Chrome is installed.
pub fn chrome_candidates(platform: Platform, home: Option<&str>) -> (r: Vec<String>)
    ensures
        text::string_views(r@) == install_places(platform, text::opt_view(home)),
{
    let mut out: Vec<String> = Vec::new();
    match platform {
        Platform::Windows => {
            out.push("C:\\Program Files\\Google\\Chrome\\Application\\chrome.exe".to_owned());
            out.push("C:\\Program Files (x86)\\Google\\Chrome\\Application\\chrome.exe".to_owned());
        },
        Platform::MacOs => {
            out.push("/Applications/Google Chrome.app/Contents/MacOS/Google Chrome".to_owned());
            out.push("/Applications/Chromium.app/Contents/MacOS/Chromium".to_owned());
            match home {
                Some(h) => {
                    out.push(
                        path::join(
                            h,
                            "Applications/Google Chrome.app/Contents/MacOS/Google Chrome",
                        ),
                    );
                },
                None => {},
            }
        },
        Platform::Other => {
            out.push("/usr/bin/google-chrome".to_owned());
            out.push("/usr/bin/chromium".to_owned());
            out.push("/usr/bin/chromium-browser".to_owned());
        },
    }
    assert(text::string_views(out@) =~= install_places(platform, text::opt_view(home)));
    out
}

/// The first of the places where there is a file.
pub open spec fn first_there(places: Seq<Seq<char>>, there: Seq<bool>) -> Option<Seq<char>>
    decreases places.len(),
{
    if places.len() == 0 {
        None
    } else if there[0] {
        Some(places[0])
    } else {
        first_there(places.skip(1), there.skip(1))
    }
}

/// The first of the places where there is a file.
pub fn first_existing(places: &Vec<String>, there: &Vec<bool>) -> (r: Option<String>)
    requires
        places@.len() == there@.len(),
    ensures
        text::opt_string_view(r) == first_there(text::string_views(places@), there@),
{
    let ghost all = text::string_views(places@);
    assert(all.skip(0) =~= all);
    assert(there@.skip(0) =~= there@);
    for i in 0..places.len()
        invariant
            all == text::string_views(places@),
            places@.len() == there@.len(),
            first_there(all, there@) == first_there(all.skip(i as int), there@.skip(i as int)),
    {
        assert(all.skip(i as int)[0] == places@[i as int]@);
        assert(all.skip(i as int).skip(1) =~= all.skip(i + 1));
        assert(there@.skip(i as int).skip(1) =~= there@.skip(i + 1));
        if there[i] {
            return Some(places[i].clone());
        }
    }
    None
}

/// The path that is set for Chrome: one of the two variables.
pub fn explicit_chrome_path<'a>(own: Option<&'a str>, common: Option<&'a str>) -> (r: Option<
    &'a str,
>)
    ensures
        text::opt_view(r) == imports::first_of(text::opt_view(own), text::opt_view(common)),
{
    match own {
        Some(p) => Some(p),
        None => common,
    }
}

/// Where Chrome is: the path that is set, the one among the browsers of a test
/// runner, the first that is installed, or the first on the search path.
pub fn find_chrome(
    explicit: Option<String>,
    bundled: Option<String>,
    installed: Option<String>,
    on_path: Option<String>,
) -> (r: Option<String>)
    ensures
        text::opt_string_view(r) == imports::first_of(
            imports::first_of(
                imports::first_of(text::opt_string_view(explicit), text::opt_string_view(bundled)),
                text::opt_string_view(installed),
            ),
            text::opt_string_view(on_path),
        ),
{
    match explicit {
        Some(p) => Some(p),
        None => match bundled {
            Some(p) => Some(p),
            None => match installed {
                Some(p) => Some(p),
                None => on_path,
            },
        },
    }
}

/// An entry of a directory.
pub struct DirEntry {
    pub path: String,
    pub is_dir: bool,
}

/// The directories among the first `n` entries.
pub open spec fn dirs_among(entries: Seq<DirEntry>, n: int) -> Seq<Seq<char>>
    decreases n,
{
    if n <= 0 {
        Seq::empty()
    } else if entries[n - 1].is_dir {
        dirs_among(entries, n - 1).push(entries[n - 1].path@)
    } else {
        dirs_among(entries, n - 1)
    }
}

/// Whether an entry is a file of that name.
pub open spec fn is_file_named(e: DirEntry, name: Seq<char>) -> bool {
    !e.is_dir && path::last_segment(e.path@) == name
}

/// Goes through the entries of a directory in search of a file. Gives the
/// first of that name; the directories on the way are left to be searched.
pub fn scan_entries(to_search: &mut Vec<String>, entries: &Vec<DirEntry>, name: &str) -> (r: Option<
    String,
>)
    ensures
        match r {
            Some(p) => exists|i: int|
                {
                    &&& 0 <= i < entries@.len()
                    &&& is_file_named(#[trigger] entries@[i], name@)
                    &&& entries@[i].path@ == p@
                    &&& forall|j: int| 0 <= j < i ==> !is_file_named(#[trigger] entries@[j], name@)
                    &&& text::string_views(final(to_search)@) == text::string_views(old(to_search)@)
                        + dirs_among(entries@, i)
                },
            None => {
                &&& forall|j: int|
                    0 <= j < entries@.len() ==> !is_file_named(#[trigger] entries@[j], name@)
                &&& text::string_views(final(to_search)@) == text::string_views(old(to_search)@)
                    + dirs_among(entries@, entries@.len() as int)
            },
        },
{
    let ghost before = text::string_views(to_search@);
    assert(before + dirs_among(entries@, 0) =~= before);
    for i in 0..entries.len()
        invariant
            forall|j: int| 0 <= j < i ==> !is_file_named(#[trigger] entries@[j], name@),
            before == text::string_views(old(to_search)@),
            text::string_views(to_search@) == before + dirs_among(entries@, i as int),
    {
        let ghost so_far = to_search@;
        let e = &entries[i];
        if e.is_dir {
            to_search.push(e.path.clone());
            assert(text::string_views(to_search@) =~= text::string_views(so_far).push(e.path@));
            assert(text::string_views(to_search@) =~= before + dirs_among(entries@, i + 1));
        } else if text::str_eq(path::last_segment_of(e.path.as_str()), name) {
            assert(is_file_named(entries@[i as int], name@));
            return Some(e.path.clone());
        }
    }
    None
}

/// The profile of the user's own browser, in one letter case and with one
/// separator.
pub fn own_profile(local_app_data: &str) -> (r: String)
    ensures
        r@ == browser::folded(
            path::joined3(local_app_data@, "Google"@, "Chrome"@, "User Data"@),
        ),
{
    browser::fold(path::join3(local_app_data, "Google", "Chrome", "User Data").as_str())
}

/// Whether a process is there, from what a task list shows of it: one line
/// with commas. A list that did not come shows nothing to the contrary.
pub fn task_list_shows(listing: Option<&str>) -> (r: bool)
    ensures
        r == (match text::opt_view(listing) {
            Some(l) => text::has_char(browser::first_line(l), ','),
            None => true,
        }),
{
    match listing {
        Some(l) => match text::cut(browser::line_one(l), ',') {
            (_, Some(_)) => true,
            (_, None) => false,
        },
        None => true,
    }
}

/// How long processes are not queried again after a query that did not answer,
/// in milliseconds.
pub const QUERY_COOLDOWN_MS: u64 = 300_000;

/// Whether processes are not queried now, because a query did not answer a
/// short time ago. Zero stands for no such query.
pub fn query_suspended(last_timeout_ms: u64, now_ms: u64) -> (r: bool)
    ensures
        r == (last_timeout_ms != 0 && now_ms - last_timeout_ms < QUERY_COOLDOWN_MS),
{
    last_timeout_ms != 0 && now_ms.saturating_sub(last_timeout_ms) < QUERY_COOLDOWN_MS
}

/// The first of the places that is there is taken; none where none is.
pub proof fn law_first_place_there_is_taken(places: Seq<Seq<char>>, there: Seq<bool>, i: int)
    requires
        places.len() == there.len(),
    ensures
        (forall|j: int| 0 <= j < there.len() ==> !#[trigger] there[j]) ==> first_there(places, there) is None,
        0 <= i < places.len() && there[i] && (forall|j: int| 0 <= j < i ==> !#[trigger] there[j])
            ==> first_there(places, there) == Some(places[i]),
    decreases places.len(),
{
    if places.len() > 0 && !there[0] {
        let t = there.skip(1);
        assert forall|j: int| 0 <= j < t.len() implies t[j] == #[trigger] there[j + 1] by {
        }
        law_first_place_there_is_taken(places.skip(1), t, i - 1);
        if forall|j: int| 0 <= j < there.len() ==> !#[trigger] there[j] {
            assert forall|j: int| 0 <= j < t.len() implies !#[trigger] t[j] by {
                assert(t[j] == there[j + 1]);
            }
        }
        if 0 <= i < places.len() && there[i] && (forall|j: int| 0 <= j < i ==> !#[trigger] there[j]) {
            assert forall|j: int| 0 <= j < i - 1 implies !#[trigger] t[j] by {
                assert(t[j] == there[j + 1]);
            }
            assert(t[i - 1] == there[i]);
            assert(places.skip(1)[i - 1] == places[i]);
        }
    }
}

/// A command is looked for in each directory under each of its names, the
/// directories in their order and the names within each.
pub proof fn law_commands_are_looked_for_everywhere(
    dirs: Seq<Seq<char>>,
    names: Seq<Seq<char>>,
    d: int,
    n: int,
)
    requires
        0 <= d < dirs.len(),
        0 <= n < names.len(),
    ensures
        command_files(dirs, names).len() == dirs.len() * names.len(),
        0 <= d * names.len() + n < command_files(dirs, names).len(),
        command_files(dirs, names)[d * names.len() + n] == path::joined_path(dirs[d], names[n]),
    decreases dirs.len(),
{
    let head = dirs.drop_last();
    let k = names.len() as int;
    lemma_command_count(head, names);
    lemma_command_count(dirs, names);
    assert(head.len() * k + k == dirs.len() * k) by (nonlinear_arith)
        requires
            head.len() + 1 == dirs.len(),
    ;
    if d < head.len() {
        law_commands_are_looked_for_everywhere(head, names, d, n);
    } else {
        assert(d == head.len());
    }
}

proof fn lemma_command_count(dirs: Seq<Seq<char>>, names: Seq<Seq<char>>)
    ensures
        command_files(dirs, names).len() == dirs.len() * names.len(),
    decreases dirs.len(),
{
    if dirs.len() > 0 {
        lemma_command_count(dirs.drop_last(), names);
        assert(dirs.drop_last().len() * names.len() + names.len() == dirs.len() * names.len())
            by (nonlinear_arith)
            requires
                dirs.drop_last().len() + 1 == dirs.len(),
        ;
    } else {
        assert(dirs.len() * names.len() == 0) by (nonlinear_arith)
            requires
                dirs.len() == 0,
        ;
    }
}

/// A command is named as it is; on Windows it is looked for as a program and as
/// a script before that.
pub proof fn law_commands_have_their_names(command: Seq<char>, platform: Platform)
    ensures
        command_names(command, platform).last() == command,
        platform != Platform::Windows ==> command_names(command, platform).len() == 1,
        platform == Platform::Windows ==> command_names(command, platform).len() == 3 && command_names(
            command,
            platform,
        )[0] == command + ".exe"@ && command_names(command, platform)[1] == command + ".cmd"@,
{
}

/// Chrome is looked for where each platform installs it, on macOS in the home
/// directory last.
pub proof fn law_chrome_is_where_it_is_installed(home: Seq<char>)
    requires
        home.len() > 0,
        home.last() != '/',
    ensures
        install_places(Platform::Windows, Some(home)) == seq![
            "C:\\Program Files\\Google\\Chrome\\Application\\chrome.exe"@,
            "C:\\Program Files (x86)\\Google\\Chrome\\Application\\chrome.exe"@,
        ],
        install_places(Platform::MacOs, None).len() == 2,
        install_places(Platform::MacOs, Some(home)).len() == 3,
        install_places(Platform::MacOs, Some(home)).take(2) == install_places(Platform::MacOs, None),
        install_places(Platform::MacOs, None)[0]
            == "/Applications/Google Chrome.app/Contents/MacOS/Google Chrome"@,
        install_places(Platform::MacOs, None)[1] == "/Applications/Chromium.app/Contents/MacOS/Chromium"@,
        install_places(Platform::MacOs, Some(home))[2] == home
            + "/Applications/Google Chrome.app/Contents/MacOS/Google Chrome"@,
        install_places(Platform::Other, Some(home)) == seq![
            "/usr/bin/google-chrome"@,
            "/usr/bin/chromium"@,
            "/usr/bin/chromium-browser"@,
        ],
{
    reveal_strlit("/Applications/Google Chrome.app/Contents/MacOS/Google Chrome");
    reveal_strlit("Applications/Google Chrome.app/Contents/MacOS/Google Chrome");
    assert(install_places(Platform::MacOs, Some(home)).take(2) =~= install_places(
        Platform::MacOs,
        None,
    ));
    assert(install_places(Platform::MacOs, Some(home))[2] =~= home
        + "/Applications/Google Chrome.app/Contents/MacOS/Google Chrome"@);
}

/// The directories among some entries are those, and only those, and in order.
pub proof fn law_directories_are_told_apart(entries: Seq<DirEntry>, i: int)
    requires
        0 <= i < entries.len(),
        entries[i].is_dir,
    ensures
        dirs_among(entries, entries.len() as int).contains(entries[i].path@),
        forall|k: int|
            0 <= k < dirs_among(entries, entries.len() as int).len() ==> exists|j: int|
                0 <= j < entries.len() && (#[trigger] entries[j]).is_dir && entries[j].path@
                    == #[trigger] dirs_among(entries, entries.len() as int)[k],
{
    lemma_dirs_among(entries, entries.len() as int, i);
}

proof fn lemma_dirs_among(entries: Seq<DirEntry>, n: int, i: int)
    requires
        0 <= n <= entries.len(),
    ensures
        0 <= i < n && entries[i].is_dir ==> dirs_among(entries, n).contains(entries[i].path@),
        forall|k: int|
            0 <= k < dirs_among(entries, n).len() ==> exists|j: int|
                0 <= j < entries.len() && (#[trigger] entries[j]).is_dir && entries[j].path@
                    == #[trigger] dirs_among(entries, n)[k],
    decreases n,
{
    if n > 0 {
        lemma_dirs_among(entries, n - 1, i);
        let rest = dirs_among(entries, n - 1);
        let all = dirs_among(entries, n);
        if 0 <= i < n - 1 && entries[i].is_dir {
            let k = choose|k: int| 0 <= k < rest.len() && rest[k] == entries[i].path@;
            assert(all[k] == entries[i].path@);
        }
        if entries[n - 1].is_dir {
            assert(all[rest.len() as int] == entries[n - 1].path@);
        }
        assert forall|k: int| 0 <= k < all.len() implies exists|j: int|
            0 <= j < entries.len() && (#[trigger] entries[j]).is_dir && entries[j].path@
                == #[trigger] all[k] by {
            if k < rest.len() {
                assert(rest[k] == all[k]);
            } else {
                assert(entries[n - 1].path@ == all[k]);
            }
        }
    }
}

/// A file is found by its own name, wherever it lies; a directory is no file.
pub proof fn law_files_are_found_by_name(e: DirEntry, dir: Seq<char>, name: Seq<char>)
    requires
        e.path@ == dir.push('/') + name,
        !text::has_char(name, '/'),
    ensures
        is_file_named(e, name) <==> !e.is_dir,
{
    text::lemma_cut_at(name, '/');
    text::lemma_last_cut_is(dir, '/', name);
}

} // verus!

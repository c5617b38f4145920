//! The projects that the daemon serves.
use crate::path;
use crate::text;
use vstd::prelude::*;
use vstd::string::*;

verus! {

/// Where the projects are registered.
pub fn registry_path(install_dir: &str) -> (r: String)
    ensures
        r@ == path::joined_path(install_dir@, "daemon-registry.txt"@),
{
    path::join(install_dir, "daemon-registry.txt")
}

/// Where the requests of a project are.
pub open spec fn spool_of(root: Seq<char>) -> Seq<char> {
    path::joined2(root, ".gm"@, "exec-spool"@)
}

pub fn spool_dir(root: &str) -> (r: String)
    ensures
        r@ == spool_of(root@),
{
    path::join2(root, ".gm", "exec-spool")
}

/// The verbs for which a project has a directory of requests.
pub open spec fn spool_verbs() -> Seq<Seq<char>> {
    seq![
        "instruction"@,
        "transition"@,
        "phase-status"@,
        "prd-add"@,
        "prd-list"@,
        "prd-resolve"@,
        "prd-status"@,
        "mutable-add"@,
        "mutable-list"@,
        "mutable-resolve"@,
        "fs_read"@,
        "fs_write"@,
        "fs_readdir"@,
        "fs_stat"@,
        "scan_deps"@,
        "fetch"@,
        "env_get"@,
        "kv_get"@,
        "kv_put"@,
        "kv_query"@,
        "exec_js"@,
        "lang"@,
        "serp"@,
        "browser"@,
        "cdp"@,
        "health"@,
        "config_resolve"@,
        "config-sync-now"@,
        "dataflow_resolve"@,
        "sql_open"@,
        "sql_close"@,
        "sql_list_dbs"@,
        "sql_exec"@,
        "sql_query"@,
        "sql_smoke"@,
        "sql_serialize"@,
        "sql_deserialize"@,
        "cache_get"@,
        "cache_put"@,
        "cache_invalidate"@,
        "cache_stats"@,
        "codeinsight_index"@,
        "codesearch"@,
        "callers"@,
        "callees"@,
        "impact"@,
        "memorize"@,
        "memorize-prune"@,
        "memorize-vacuum"@,
        "memorize-retention"@,
        "recall"@,
        "tencentdb-compat-probe"@,
        "tencentdb-memory-import"@,
        "python"@,
        "bash"@,
        "powershell"@,
        "ssh"@,
        "go"@,
        "rust"@,
        "c"@,
        "cpp"@,
        "java"@,
        "deno"@,
        "status"@,
        "wait"@,
        "close"@,
        "filter"@,
        "git_status"@,
        "branch_status"@,
        "git_push"@,
        "git_add"@,
        "git_commit"@,
        "git_finalize"@,
        "git_log"@,
        "git_diff"@,
        "git_show"@,
        "git_fetch"@,
        "git_pull"@,
        "ci-status"@,
        "git_branch"@,
        "git_checkout"@,
        "git_merge"@,
        "git_merge_abort"@,
        "git_branch_delete"@,
        "git_rm"@,
        "git_revert"@,
        "git_reset"@,
        "git_poll"@,
        "forget"@,
        "discipline"@,
    ]
}

/// The verbs for which a project has a directory of requests.
pub fn gm_spool_verbs() -> (r: Vec<String>)
    ensures
        text::string_views(r@) == spool_verbs(),
{
    let mut out: Vec<String> = Vec::new();
    out.push("instruction".to_owned());
    out.push("transition".to_owned());
    out.push("phase-status".to_owned());
    out.push("prd-add".to_owned());
    out.push("prd-list".to_owned());
    out.push("prd-resolve".to_owned());
    out.push("prd-status".to_owned());
    out.push("mutable-add".to_owned());
    out.push("mutable-list".to_owned());
    out.push("mutable-resolve".to_owned());
    out.push("fs_read".to_owned());
    out.push("fs_write".to_owned());
    out.push("fs_readdir".to_owned());
    out.push("fs_stat".to_owned());
    out.push("scan_deps".to_owned());
    out.push("fetch".to_owned());
    out.push("env_get".to_owned());
    out.push("kv_get".to_owned());
    out.push("kv_put".to_owned());
    out.push("kv_query".to_owned());
    out.push("exec_js".to_owned());
    out.push("lang".to_owned());
    out.push("serp".to_owned());
    out.push("browser".to_owned());
    out.push("cdp".to_owned());
    out.push("health".to_owned());
    out.push("config_resolve".to_owned());
    out.push("config-sync-now".to_owned());
    out.push("dataflow_resolve".to_owned());
    out.push("sql_open".to_owned());
    out.push("sql_close".to_owned());
    out.push("sql_list_dbs".to_owned());
    out.push("sql_exec".to_owned());
    out.push("sql_query".to_owned());
    out.push("sql_smoke".to_owned());
    out.push("sql_serialize".to_owned());
    out.push("sql_deserialize".to_owned());
    out.push("cache_get".to_owned());
    out.push("cache_put".to_owned());
    out.push("cache_invalidate".to_owned());
    out.push("cache_stats".to_owned());
    out.push("codeinsight_index".to_owned());
    out.push("codesearch".to_owned());
    out.push("callers".to_owned());
    out.push("callees".to_owned());
    out.push("impact".to_owned());
    out.push("memorize".to_owned());
    out.push("memorize-prune".to_owned());
    out.push("memorize-vacuum".to_owned());
    out.push("memorize-retention".to_owned());
    out.push("recall".to_owned());
    out.push("tencentdb-compat-probe".to_owned());
    out.push("tencentdb-memory-import".to_owned());
    out.push("python".to_owned());
    out.push("bash".to_owned());
    out.push("powershell".to_owned());
    out.push("ssh".to_owned());
    out.push("go".to_owned());
    out.push("rust".to_owned());
    out.push("c".to_owned());
    out.push("cpp".to_owned());
    out.push("java".to_owned());
    out.push("deno".to_owned());
    out.push("status".to_owned());
    out.push("wait".to_owned());
    out.push("close".to_owned());
    out.push("filter".to_owned());
    out.push("git_status".to_owned());
    out.push("branch_status".to_owned());
    out.push("git_push".to_owned());
    out.push("git_add".to_owned());
    out.push("git_commit".to_owned());
    out.push("git_finalize".to_owned());
    out.push("git_log".to_owned());
    out.push("git_diff".to_owned());
    out.push("git_show".to_owned());
    out.push("git_fetch".to_owned());
    out.push("git_pull".to_owned());
    out.push("ci-status".to_owned());
    out.push("git_branch".to_owned());
    out.push("git_checkout".to_owned());
    out.push("git_merge".to_owned());
    out.push("git_merge_abort".to_owned());
    out.push("git_branch_delete".to_owned());
    out.push("git_rm".to_owned());
    out.push("git_revert".to_owned());
    out.push("git_reset".to_owned());
    out.push("git_poll".to_owned());
    out.push("forget".to_owned());
    out.push("discipline".to_owned());
    assert(text::string_views(out@) =~= spool_verbs());
    out
}

/// The directories that a project gets for its requests.
pub fn spool_verb_dirs(root: &str) -> (r: Vec<String>)
    ensures
        text::string_views(r@) == Seq::new(
            spool_verbs().len(),
            |i: int| path::joined2(spool_of(root@), "in"@, spool_verbs()[i]),
        ),
{
    let spool = spool_dir(root);
    let verbs = gm_spool_verbs();
    let ghost names = text::string_views(verbs@);
    let mut out: Vec<String> = Vec::new();
    for i in 0..verbs.len()
        invariant
            names == text::string_views(verbs@),
            spool@ == spool_of(root@),
            text::string_views(out@) == Seq::new(
                i as nat,
                |j: int| path::joined2(spool@, "in"@, names[j]),
            ),
    {
        let ghost before = out@;
        assert(names[i as int] == verbs@[i as int]@);
        out.push(path::join2(spool.as_str(), "in", verbs[i].as_str()));
        assert(text::string_views(out@) =~= text::string_views(before).push(
            path::joined2(spool@, "in"@, names[i as int]),
        ));
        assert(text::string_views(out@) =~= Seq::new(
            (i + 1) as nat,
            |j: int| path::joined2(spool@, "in"@, names[j]),
        ));
    }
    out
}

// ---------------------------------------------------------------------------
// The registry
// ---------------------------------------------------------------------------
/// Whether a directory lies among the requests of a project.
pub open spec fn inside_spool(cwd: Seq<char>) -> bool {
    text::pieces(cwd, '/').contains(".gm"@) && text::has_text(
        text::replaced(cwd, '\\', '/'),
        "/.gm/exec-spool"@,
    )
}

pub fn cwd_is_inside_a_spool_tree(cwd: &str) -> (r: bool)
    ensures
        r == inside_spool(cwd@),
{
    let parts = text::split_on(cwd, '/');
    let ghost all = text::views(parts@);
    let mut found = false;
    for i in 0..parts.len()
        invariant
            all == text::views(parts@),
            found == all.take(i as int).contains(".gm"@),
    {
        let ghost h = all.take(i as int);
        let ghost h1 = all.take(i + 1);
        assert(h1 =~= h.push(parts@[i as int]@));
        let here = text::str_eq(parts[i], ".gm");
        proof {
            if here {
                assert(h1[i as int] == ".gm"@);
            }
            if h.contains(".gm"@) {
                let j = choose|j: int| 0 <= j < h.len() && h[j] == ".gm"@;
                assert(h1[j] == ".gm"@);
            }
            if h1.contains(".gm"@) {
                let j = choose|j: int| 0 <= j < h1.len() && h1[j] == ".gm"@;
                if j < i {
                    assert(h[j] == ".gm"@);
                }
            }
        }
        found = found || here;
    }
    assert(all.take(all.len() as int) =~= all);
    found && text::contains(text::replace_char(cwd, '\\', '/').as_str(), "/.gm/exec-spool")
}

/// The lines among the first `n` that name something, trimmed and each once.
pub open spec fn entries_in(lines: Seq<Seq<char>>, n: int) -> Seq<Seq<char>>
    decreases n,
{
    if n <= 0 {
        Seq::empty()
    } else {
        let rest = entries_in(lines, n - 1);
        let t = text::trimmed(lines[n - 1]);
        if t.len() == 0 || rest.contains(t) {
            rest
        } else {
            rest.push(t)
        }
    }
}

/// What the registry names, each once.
pub open spec fn entries_of(content: Seq<char>) -> Seq<Seq<char>> {
    entries_in(text::lines(content), text::lines(content).len() as int)
}

proof fn lemma_views_contain(list: Seq<String>, t: Seq<char>)
    ensures
        text::string_views(list).contains(t) == text::lists(list, t),
{
    let v = text::string_views(list);
    if v.contains(t) {
        let j = choose|j: int| 0 <= j < v.len() && v[j] == t;
        assert(list[j]@ == t);
    }
    if text::lists(list, t) {
        let j = choose|j: int| 0 <= j < list.len() && (#[trigger] list[j])@ == t;
        assert(v[j] == t);
    }
}

/// What the registry names, each once.
pub fn registry_entries(content: &str) -> (r: Vec<String>)
    ensures
        text::string_views(r@) == entries_of(content@),
{
    let lines = text::lines_of(content);
    let ghost all = text::views(lines@);
    let mut out: Vec<String> = Vec::new();
    assert(text::string_views(out@) =~= Seq::<Seq<char>>::empty());
    for i in 0..lines.len()
        invariant
            all == text::views(lines@),
            text::string_views(out@) == entries_in(all, i as int),
    {
        let t = text::trim(lines[i]);
        assert(all[i as int] == lines@[i as int]@);
        let ghost before = out@;
        proof {
            lemma_views_contain(out@, t@);
        }
        if !t.is_empty() && !text::list_contains(&out, t) {
            out.push(t.to_owned());
            assert(text::string_views(out@) =~= text::string_views(before).push(t@));
        }
    }
    out
}

/// The entries among the first `n` that stay: those that are there, and the
/// project itself.
pub open spec fn staying(entries: Seq<Seq<char>>, there: Seq<bool>, cwd: Seq<char>, n: int) -> Seq<
    Seq<char>,
>
    decreases n,
{
    if n <= 0 {
        Seq::empty()
    } else {
        let rest = staying(entries, there, cwd, n - 1);
        if entries[n - 1] == cwd || there[n - 1] {
            rest.push(entries[n - 1])
        } else {
            rest
        }
    }
}

/// The registry with a project in it, or nothing where it stays as it is.
pub open spec fn with_project(entries: Seq<Seq<char>>, there: Seq<bool>, cwd: Seq<char>) -> Option<
    Seq<Seq<char>>,
> {
    let live = staying(entries, there, cwd, entries.len() as int);
    if live.contains(cwd) {
        if live.len() == entries.len() {
            None
        } else {
            Some(live)
        }
    } else {
        Some(live.push(cwd))
    }
}

/// The text of a registry.
pub open spec fn registry_text(entries: Seq<Seq<char>>) -> Seq<char> {
    text::joined(entries, "\n"@) + "\n"@
}

/// The error for a directory that is no project.
pub open spec fn refusal(cwd: Seq<char>) -> Seq<char> {
    "refusing to register "@ + cwd
        + " as a project root -- its own path is already inside a .gm/exec-spool tree, which means this is spool runtime state (in/out/status files), not a genuine project directory. Launch the spool from the actual project root instead."@
}

/// Whether a directory may be registered; the error where it may not.
pub fn check_project(cwd: &str) -> (r: Result<(), String>)
    ensures
        match r {
            Ok(_) => !inside_spool(cwd@),
            Err(e) => inside_spool(cwd@) && e@ == refusal(cwd@),
        },
{
    if cwd_is_inside_a_spool_tree(cwd) {
        Err(
            text::add3(
                "refusing to register ",
                cwd,
                " as a project root -- its own path is already inside a .gm/exec-spool tree, which means this is spool runtime state (in/out/status files), not a genuine project directory. Launch the spool from the actual project root instead.",
            ),
        )
    } else {
        Ok(())
    }
}

/// The text of the registry with a project in it: without the projects that
/// are gone, and with this one. Nothing, where the registry stays as it is.
pub fn register_project(entries: &Vec<String>, there: &Vec<bool>, cwd: &str) -> (r: Option<String>)
    requires
        entries@.len() == there@.len(),
    ensures
        text::opt_string_view(r) == (match with_project(
            text::string_views(entries@),
            there@,
            cwd@,
        ) {
            Some(list) => Some(registry_text(list)),
            None => None,
        }),
{
    let ghost all = text::string_views(entries@);
    let mut live: Vec<String> = Vec::new();
    assert(text::string_views(live@) =~= Seq::<Seq<char>>::empty());
    for i in 0..entries.len()
        invariant
            all == text::string_views(entries@),
            entries@.len() == there@.len(),
            text::string_views(live@) == staying(all, there@, cwd@, i as int),
    {
        assert(all[i as int] == entries@[i as int]@);
        let ghost before = live@;
        if there[i] || text::str_eq(entries[i].as_str(), cwd) {
            live.push(entries[i].clone());
            assert(text::string_views(live@) =~= text::string_views(before).push(
                entries@[i as int]@,
            ));
        }
    }
    proof {
        lemma_views_contain(live@, cwd@);
    }
    if text::list_contains(&live, cwd) {
        if live.len() == entries.len() {
            return None;
        }
    } else {
        let ghost before = live@;
        live.push(cwd.to_owned());
        assert(text::string_views(live@) =~= text::string_views(before).push(cwd@));
    }
    Some(text::add2(text::join_strings(&live, "\n").as_str(), "\n"))
}

/// The projects that the registry names, one to a line.
pub fn read_registry(content: &str) -> (r: Vec<String>)
    ensures
        text::string_views(r@) == crate::registry::listed_names(
            text::lines(content@),
            text::lines(content@).len() as int,
        ),
{
    crate::registry::read_project_plugin_list(content)
}

/// Whether the entries of a registry are such as it is read to have: named,
/// trimmed, on one line, and each once.
pub open spec fn well_formed(entries: Seq<Seq<char>>) -> bool {
    &&& forall|i: int| 0 <= i < entries.len() ==> is_entry(#[trigger] entries[i])
    &&& forall|i: int, j: int| 0 <= i < j < entries.len() ==> entries[i] != entries[j]
}

/// Whether a text can be an entry of a registry.
pub open spec fn is_entry(t: Seq<char>) -> bool {
    t.len() > 0 && text::trimmed(t) == t && !text::has_char(t, '\n')
}

proof fn lemma_line_first(x: Seq<char>, rest: Seq<char>)
    requires
        is_entry(x),
    ensures
        text::lines(x + "\n"@ + rest) == seq![x] + text::lines(rest),
{
    reveal_strlit("\n");
    let s = x + "\n"@ + rest;
    text::lemma_cut_at(x, '\n');
    assert forall|j: int| 0 <= j < x.len() implies s[j] != '\n' by {
        assert(s[j] == x[j]);
    }
    assert(s[x.len() as int] == '\n');
    text::lemma_cut_at_is(s, '\n', x.len() as int);
    assert(text::before_char(s, '\n') =~= x);
    assert(text::after_char(s, '\n') =~= rest);
    lemma_trimmed_end(x);
    assert(x.last() != '\r');
}

proof fn lemma_trimmed_end(x: Seq<char>)
    requires
        x.len() > 0,
        text::trimmed(x) == x,
    ensures
        !text::is_space(x.last()),
{
    text::lemma_trimmed_start(x);
    lemma_trim_shortens(text::trimmed_start(x));
    if text::is_space(x.last()) {
        assert(text::trimmed_start(x).len() == x.len());
        if text::is_space(x[0]) {
            text::lemma_trimmed_start(x.skip(1));
        }
        assert(text::trimmed_start(x) =~= x);
        lemma_trim_shortens(x.drop_last());
    }
}

proof fn lemma_trim_shortens(x: Seq<char>)
    ensures
        text::trimmed_end(x).len() <= x.len(),
    decreases x.len(),
{
    if x.len() > 0 && text::is_space(x.last()) {
        lemma_trim_shortens(x.drop_last());
    }
}

proof fn lemma_lines_of_joined(list: Seq<Seq<char>>, tail: Seq<char>)
    requires
        list.len() > 0,
        forall|i: int| 0 <= i < list.len() ==> is_entry(#[trigger] list[i]),
    ensures
        text::lines(text::joined(list, "\n"@) + "\n"@ + tail) == list + text::lines(tail),
    decreases list.len(),
{
    if list.len() == 1 {
        lemma_line_first(list[0], tail);
        assert(list =~= seq![list[0]]);
    } else {
        let head = list.drop_last();
        let last = list.last();
        let next = last + "\n"@ + tail;
        lemma_lines_of_joined(head, next);
        lemma_line_first(last, tail);
        assert(text::joined(list, "\n"@) + "\n"@ + tail =~= text::joined(head, "\n"@) + "\n"@ + next);
        assert(head + (seq![last] + text::lines(tail)) =~= list + text::lines(tail));
    }
}

proof fn lemma_entries_in(list: Seq<Seq<char>>, n: int)
    requires
        well_formed(list),
        0 <= n <= list.len(),
    ensures
        entries_in(list, n) == list.take(n),
    decreases n,
{
    if n > 0 {
        lemma_entries_in(list, n - 1);
        let head = list.take(n - 1);
        assert(is_entry(list[n - 1]));
        assert(!head.contains(list[n - 1])) by {
            if head.contains(list[n - 1]) {
                let j = choose|j: int| 0 <= j < head.len() && head[j] == list[n - 1];
                assert(list[j] == list[n - 1]);
            }
        }
        assert(head.push(list[n - 1]) =~= list.take(n));
    } else {
        assert(list.take(0) =~= Seq::<Seq<char>>::empty());
    }
}

/// The registry reads back as it was written.
pub proof fn law_registry_reads_back(entries: Seq<Seq<char>>)
    requires
        well_formed(entries),
    ensures
        entries_of(registry_text(entries)) == entries,
{
    let written = registry_text(entries);
    if entries.len() == 0 {
        reveal_strlit("\n");
        let nothing = Seq::<char>::empty();
        assert(written =~= seq!['\n']);
        text::lemma_cut_at_is(written, '\n', 0);
        assert(text::before_char(written, '\n') =~= nothing);
        assert(text::after_char(written, '\n') =~= nothing);
        assert(text::lines(nothing) =~= Seq::empty());
        assert(text::lines(written) =~= seq![text::without_cr(nothing)]);
        assert(entries_in(text::lines(written), 0) =~= entries);
        assert(entries_in(text::lines(written), 1) =~= entries);
    } else {
        lemma_lines_of_joined(entries, Seq::empty());
        assert(text::joined(entries, "\n"@) + "\n"@ + Seq::<char>::empty() =~= written);
        assert(entries + text::lines(Seq::<char>::empty()) =~= entries);
        lemma_entries_in(entries, entries.len() as int);
        assert(entries.take(entries.len() as int) =~= entries);
    }
}

proof fn lemma_staying(entries: Seq<Seq<char>>, there: Seq<bool>, cwd: Seq<char>, n: int)
    requires
        well_formed(entries),
        0 <= n <= entries.len(),
    ensures
        staying(entries, there, cwd, n).len() <= n,
        well_formed(staying(entries, there, cwd, n)),
        forall|t: Seq<char>| #[trigger]
            staying(entries, there, cwd, n).contains(t) ==> entries.take(n).contains(t),
        (forall|i: int| 0 <= i < n ==> there[i]) ==> staying(entries, there, cwd, n)
            == entries.take(n),
    decreases n,
{
    if n > 0 {
        lemma_staying(entries, there, cwd, n - 1);
        let rest = staying(entries, there, cwd, n - 1);
        let all = staying(entries, there, cwd, n);
        let head = entries.take(n - 1);
        let now = entries.take(n);
        assert(now =~= head.push(entries[n - 1]));
        assert(is_entry(entries[n - 1]));
        assert(!head.contains(entries[n - 1])) by {
            if head.contains(entries[n - 1]) {
                let j = choose|j: int| 0 <= j < head.len() && head[j] == entries[n - 1];
                assert(entries[j] == entries[n - 1]);
            }
        }
        assert forall|t: Seq<char>| #[trigger] all.contains(t) implies now.contains(t) by {
            let j = choose|j: int| 0 <= j < all.len() && all[j] == t;
            if j < rest.len() {
                assert(rest[j] == t);
                assert(rest.contains(t));
                let k = choose|k: int| 0 <= k < head.len() && head[k] == t;
                assert(now[k] == t);
            } else {
                assert(now[n - 1] == t);
            }
        }
        if all.len() > rest.len() {
            assert forall|i: int, j: int| 0 <= i < j < all.len() implies all[i] != all[j] by {
                if j == rest.len() {
                    assert(rest[i] == all[i]);
                    assert(rest.contains(all[i]));
                    assert(head.contains(all[i]));
                }
            }
        }
    } else {
        assert(entries.take(0) =~= Seq::<Seq<char>>::empty());
    }
}

/// Once a project is registered it stays registered: registering it again
/// changes nothing, as long as the projects are there.
pub proof fn law_registering_twice_changes_nothing(
    entries: Seq<Seq<char>>,
    there: Seq<bool>,
    cwd: Seq<char>,
    there_now: Seq<bool>,
)
    requires
        well_formed(entries),
        is_entry(cwd),
        with_project(entries, there, cwd) matches Some(list) && there_now.len() == list.len()
            && forall|i: int| 0 <= i < list.len() ==> #[trigger] there_now[i],
    ensures
        ({
            let list = with_project(entries, there, cwd)->0;
            &&& list.contains(cwd)
            &&& with_project(entries_of(registry_text(list)), there_now, cwd) is None
        }),
{
    let list = with_project(entries, there, cwd)->0;
    let live = staying(entries, there, cwd, entries.len() as int);
    lemma_staying(entries, there, cwd, entries.len() as int);
    if !live.contains(cwd) {
        assert(list[live.len() as int] == cwd);
        assert forall|i: int, j: int| 0 <= i < j < list.len() implies list[i] != list[j] by {
            if j == live.len() {
                assert(live[i] == list[i]);
            }
        }
    }
    assert(list.contains(cwd));
    assert(list.len() > 0);
    law_registry_reads_back(list);
    lemma_staying(list, there_now, cwd, list.len() as int);
    assert(list.take(list.len() as int) =~= list);
}

/// Registering a project keeps the projects that are there and the project
/// itself, takes off those that are gone, and adds a new one at the end;
/// nothing changes where all are there and it is one of them.
pub proof fn law_registering_keeps_what_is_there(
    entries: Seq<Seq<char>>,
    there: Seq<bool>,
    cwd: Seq<char>,
    i: int,
)
    requires
        well_formed(entries),
        0 <= i < entries.len(),
    ensures
        with_project(entries, there, cwd) matches Some(list) ==> {
            &&& list.contains(cwd)
            &&& list.contains(entries[i]) <==> there[i] || entries[i] == cwd
            &&& forall|k: int| 0 <= k < list.len() ==> #[trigger] list[k] == cwd || entries.contains(list[k])
            &&& !entries.contains(cwd) ==> list.last() == cwd
        },
        with_project(entries, there, cwd) is None ==> entries.contains(cwd) && (there[i] || entries[i]
            == cwd),
        entries.contains(cwd) && (forall|j: int| 0 <= j < entries.len() ==> #[trigger] there[j])
            ==> with_project(entries, there, cwd) is None,
{
    let n = entries.len() as int;
    let live = staying(entries, there, cwd, n);
    lemma_staying(entries, there, cwd, n);
    assert(entries.take(n) =~= entries);
    lemma_who_stays(entries, there, cwd, n, i);
    if entries.contains(cwd) {
        let j = choose|j: int| 0 <= j < entries.len() && entries[j] == cwd;
        lemma_who_stays(entries, there, cwd, n, j);
    }
    assert(live.contains(cwd) ==> entries.contains(cwd));
    if live.len() == n {
        lemma_all_stay(entries, there, cwd, n, i);
    }
    match with_project(entries, there, cwd) {
        Some(list) => {
            if !live.contains(cwd) {
                assert(list[live.len() as int] == cwd);
                if live.contains(entries[i]) {
                    let k = choose|k: int| 0 <= k < live.len() && live[k] == entries[i];
                    assert(list[k] == entries[i]);
                }
                if list.contains(entries[i]) && entries[i] != cwd {
                    let k = choose|k: int| 0 <= k < list.len() && list[k] == entries[i];
                    assert(live[k] == entries[i]);
                }
            }
            assert forall|k: int| 0 <= k < list.len() implies #[trigger] list[k] == cwd
                || entries.contains(list[k]) by {
                if k < live.len() {
                    assert(live[k] == list[k]);
                    assert(live.contains(list[k]));
                }
            }
        },
        None => {},
    }
}

proof fn lemma_who_stays(entries: Seq<Seq<char>>, there: Seq<bool>, cwd: Seq<char>, n: int, i: int)
    requires
        well_formed(entries),
        0 <= i < n <= entries.len(),
    ensures
        staying(entries, there, cwd, n).contains(entries[i]) <==> there[i] || entries[i] == cwd,
    decreases n,
{
    let rest = staying(entries, there, cwd, n - 1);
    let all = staying(entries, there, cwd, n);
    lemma_staying(entries, there, cwd, n - 1);
    if i < n - 1 {
        lemma_who_stays(entries, there, cwd, n - 1, i);
        assert(entries[i] != entries[n - 1]);
        if rest.contains(entries[i]) {
            let k = choose|k: int| 0 <= k < rest.len() && rest[k] == entries[i];
            assert(all[k] == entries[i]);
        }
        if all.contains(entries[i]) {
            let k = choose|k: int| 0 <= k < all.len() && all[k] == entries[i];
            assert(rest[k] == entries[i]);
        }
    } else {
        if rest.contains(entries[i]) {
            assert(entries.take(n - 1).contains(entries[i]));
            let head = entries.take(n - 1);
            let k = choose|k: int| 0 <= k < head.len() && head[k] == entries[i];
            assert(entries[k] == entries[i]);
        }
        if there[i] || entries[i] == cwd {
            assert(all[rest.len() as int] == entries[i]);
        }
    }
}

proof fn lemma_all_stay(entries: Seq<Seq<char>>, there: Seq<bool>, cwd: Seq<char>, n: int, i: int)
    requires
        well_formed(entries),
        0 <= i < n <= entries.len(),
        staying(entries, there, cwd, n).len() == n,
    ensures
        there[i] || entries[i] == cwd,
    decreases n,
{
    lemma_staying(entries, there, cwd, n - 1);
    if i < n - 1 {
        lemma_all_stay(entries, there, cwd, n - 1, i);
    }
}

/// The requests of a project lie in `.gm/exec-spool` under its root, and that
/// directory and what lies in it are no project.
pub proof fn law_spool_is_no_project(root: Seq<char>, rest: Seq<char>)
    requires
        root.len() > 0,
        root.last() != '/',
    ensures
        spool_of(root) == root + "/.gm/exec-spool"@,
        inside_spool(root + "/.gm/exec-spool"@),
        inside_spool(root + "/.gm/exec-spool"@ + rest),
        !text::has_text(text::replaced(root, '\\', '/'), "/.gm/exec-spool"@) ==> !inside_spool(root),
        !text::has_text(root, ".gm"@) ==> !inside_spool(root),
{
    reveal_strlit(".gm");
    reveal_strlit("exec-spool");
    reveal_strlit("/.gm/exec-spool");
    let gm = ".gm"@;
    assert(root.push('/') + gm =~= root + seq!['/', '.', 'g', 'm']);
    assert(spool_of(root) =~= root + "/.gm/exec-spool"@);
    lemma_spool_is_inside(root, Seq::empty());
    assert(root + "/.gm/exec-spool"@ + Seq::<char>::empty() =~= root + "/.gm/exec-spool"@);
    lemma_spool_is_inside(root, rest);
    if text::pieces(root, '/').contains(gm) {
        lemma_piece_is_inside(root, '/', gm);
    }
}

proof fn lemma_spool_is_inside(root: Seq<char>, rest: Seq<char>)
    ensures
        inside_spool(root + "/.gm/exec-spool"@ + rest),
{
    reveal_strlit(".gm");
    reveal_strlit("/.gm/exec-spool");
    let gm = ".gm"@;
    let tail = "exec-spool"@ + rest;
    reveal_strlit("exec-spool");
    let s = root + "/.gm/exec-spool"@ + rest;
    assert(s =~= root.push('/') + (gm.push('/') + tail));
    text::law_text_splits_at_each_mark(root, '/', gm.push('/') + tail);
    text::law_text_splits_at_each_mark(gm, '/', tail);
    let all = text::pieces(s, '/');
    let n = text::pieces(root, '/').len() as int;
    assert((text::pieces(gm, '/') + text::pieces(tail, '/'))[0] == gm);
    assert(all[n] == gm);
    let r = text::replaced(s, '\\', '/');
    assert(text::occurs_at(r, "/.gm/exec-spool"@, root.len() as int)) by {
        assert(r.subrange(root.len() as int, (root.len() + 15) as int) =~= "/.gm/exec-spool"@);
    }
}

proof fn lemma_piece_is_inside(s: Seq<char>, c: char, piece: Seq<char>)
    requires
        text::pieces(s, c).contains(piece),
    ensures
        text::has_text(s, piece),
    decreases s.len(),
{
    let all = text::pieces(s, c);
    let k = choose|k: int| 0 <= k < all.len() && all[k] == piece;
    text::lemma_cut_at(s, c);
    if text::has_char(s, c) {
        let head = text::before_char(s, c);
        let rest = text::after_char(s, c);
        if k == 0 {
            assert(s.subrange(0, head.len() as int) =~= head);
            assert(text::occurs_at(s, piece, 0));
        } else {
            assert(text::pieces(rest, c)[k - 1] == piece);
            lemma_piece_is_inside(rest, c, piece);
            let i = choose|i: int| text::occurs_at(rest, piece, i);
            let at = i + head.len() + 1;
            assert(s.subrange(at, at + piece.len()) =~= rest.subrange(i, i + piece.len()));
            assert(text::occurs_at(s, piece, at));
        }
    } else {
        assert(s.subrange(0, s.len() as int) =~= s);
        assert(text::occurs_at(s, piece, 0));
    }
}

/// A directory among the requests of a project is refused by its name.
pub proof fn law_refused_project_is_named(cwd: Seq<char>)
    ensures
        ("refusing to register "@ + cwd + " as a project root"@).is_prefix_of(refusal(cwd)),
{
    reveal_strlit(" as a project root");
    reveal_strlit(
        " as a project root -- its own path is already inside a .gm/exec-spool tree, which means this is spool runtime state (in/out/status files), not a genuine project directory. Launch the spool from the actual project root instead.",
    );
    let a = "refusing to register "@ + cwd + " as a project root"@;
    assert(refusal(cwd).subrange(0, a.len() as int) =~= a);
}

} // verus!

//! What the host keeps for one plugin instance while it serves dispatches.
use crate::path;
use crate::text;
use vstd::prelude::*;
use vstd::string::*;

verus! {

/// How long a dispatch may run, in seconds, unless the plugin or the caller
/// says otherwise.
pub const DISPATCH_CALL_DEADLINE_SECS: u64 = 120;

/// The host's state for one plugin instance.
pub struct HostState {
    pub cwd: String,
    pub plugin_name: String,
    /// The host directory that the guest sees, and the name it sees it under.
    pub preopened: (String, String),
    /// Why a response did not reach the guest. The guest gets zero for it,
    /// which it cannot tell from an empty response.
    pub lost_response_reason: Option<String>,
    /// Further directories that the guest named in a dispatch.
    pub extra_readable_roots: Vec<String>,
    /// The deadline of the running dispatch, which comes back into force after
    /// each response is handed over.
    pub call_deadline_secs: u64,
}

/// The host's state as a value.
#[verifier::ext_equal]
pub struct HostView {
    pub cwd: Seq<char>,
    pub plugin_name: Seq<char>,
    pub preopened: (Seq<char>, Seq<char>),
    pub lost: Option<Seq<char>>,
    pub roots: Seq<Seq<char>>,
    pub deadline: u64,
}

impl View for HostState {
    type V = HostView;

    open spec fn view(&self) -> HostView {
        HostView {
            cwd: self.cwd@,
            plugin_name: self.plugin_name@,
            preopened: (self.preopened.0@, self.preopened.1@),
            lost: text::opt_string_view(self.lost_response_reason),
            roots: text::string_views(self.extra_readable_roots@),
            deadline: self.call_deadline_secs,
        }
    }
}

/// A state in which nothing was lost and no further directory was named.
pub open spec fn fresh_host(
    cwd: Seq<char>,
    plugin_name: Seq<char>,
    host_dir: Seq<char>,
    guest_dir: Seq<char>,
) -> HostView {
    HostView {
        cwd,
        plugin_name,
        preopened: (host_dir, guest_dir),
        lost: None,
        roots: Seq::empty(),
        deadline: DISPATCH_CALL_DEADLINE_SECS,
    }
}

/// The root of the file system: on a machine with drives, the drive or share of
/// the working directory, and `C:` where that directory cannot be told.
pub open spec fn fs_root(drives: bool, cwd: Option<Seq<char>>) -> Seq<char> {
    if !drives {
        "/"@
    } else {
        match cwd {
            Some(dir) => {
                let prefix = dir.take(path::prefix_len(dir, true) as int);
                if prefix.len() > 0 {
                    prefix + "/"@
                } else {
                    text::before_char(dir, '/') + "/"@
                }
            },
            None => "C:/"@,
        }
    }
}

/// The root of the file system, as a plugin that may see all of it gets it.
pub fn host_fs_root(drives: bool, cwd: Option<&str>) -> (r: String)
    ensures
        r@ == fs_root(drives, text::opt_view(cwd)),
{
    if !drives {
        return "/".to_owned();
    }
    match cwd {
        Some(dir) => {
            let prefix = path::prefix_of(dir, true);
            if prefix.is_empty() {
                text::add2(text::cut(dir, '/').0, "/")
            } else {
                text::add2(prefix, "/")
            }
        },
        None => "C:/".to_owned(),
    }
}

impl HostState {
    /// The state of a plugin of a project. The store of tables sees the whole
    /// file system, every other plugin its project.
    pub fn for_plugin(root: &str, plugin_name: &str, fs_root: &str) -> (r: Self)
        ensures
            r@ == (if plugin_name@ == "libsql"@ {
                fresh_host(root@, plugin_name@, fs_root@, "/"@)
            } else {
                fresh_host(root@, plugin_name@, root@, "."@)
            }),
    {
        if text::str_eq(plugin_name, "libsql") {
            HostState::new_with_fs_root(root, plugin_name, fs_root)
        } else {
            HostState::new(root, plugin_name)
        }
    }

    /// A state whose guest sees its working directory as `.`.
    pub fn new(cwd: &str, plugin_name: &str) -> (r: Self)
        ensures
            r@ == fresh_host(cwd@, plugin_name@, cwd@, "."@),
    {
        let r = HostState {
            cwd: cwd.to_owned(),
            plugin_name: plugin_name.to_owned(),
            preopened: (cwd.to_owned(), ".".to_owned()),
            lost_response_reason: None,
            extra_readable_roots: Vec::new(),
            call_deadline_secs: DISPATCH_CALL_DEADLINE_SECS,
        };
        assert(r@.roots =~= Seq::<Seq<char>>::empty());
        r
    }

    /// A state whose guest sees `fs_root` as `/`.
    pub fn new_with_fs_root(cwd: &str, plugin_name: &str, fs_root: &str) -> (r: Self)
        ensures
            r@ == fresh_host(cwd@, plugin_name@, fs_root@, "/"@),
    {
        let r = HostState {
            cwd: cwd.to_owned(),
            plugin_name: plugin_name.to_owned(),
            preopened: (fs_root.to_owned(), "/".to_owned()),
            lost_response_reason: None,
            extra_readable_roots: Vec::new(),
            call_deadline_secs: DISPATCH_CALL_DEADLINE_SECS,
        };
        assert(r@.roots =~= Seq::<Seq<char>>::empty());
        r
    }

    pub fn set_cwd(&mut self, cwd: &str)
        ensures
            final(self)@ == (HostView { cwd: cwd@, ..old(self)@ }),
    {
        self.cwd = cwd.to_owned();
    }

    pub fn cwd(&self) -> (r: &str)
        ensures
            r@ == self@.cwd,
    {
        self.cwd.as_str()
    }

    pub fn set_call_deadline_secs(&mut self, secs: u64)
        ensures
            final(self)@ == (HostView { deadline: secs, ..old(self)@ }),
    {
        self.call_deadline_secs = secs;
    }

    pub fn call_deadline_secs(&self) -> (r: u64)
        ensures
            r == self@.deadline,
    {
        self.call_deadline_secs
    }

    /// Notes why a response did not reach the guest.
    pub fn note_lost_response(&mut self, reason: String)
        ensures
            final(self)@ == (HostView { lost: Some(reason@), ..old(self)@ }),
    {
        self.lost_response_reason = Some(reason);
    }

    /// Takes what was noted of a lost response, once.
    pub fn take_lost_response(&mut self) -> (r: Option<String>)
        ensures
            text::opt_string_view(r) == old(self)@.lost,
            final(self)@ == (HostView { lost: None, ..old(self)@ }),
    {
        let mut r: Option<String> = None;
        std::mem::swap(&mut r, &mut self.lost_response_reason);
        r
    }

    /// Lets the guest read below one more directory. Naming a directory again
    /// changes nothing.
    pub fn allow_extra_root(&mut self, root: &str)
        ensures
            final(self)@ == (HostView {
                roots: if path::names_path(old(self)@.roots, root@) {
                    old(self)@.roots
                } else {
                    old(self)@.roots.push(root@)
                },
                ..old(self)@
            }),
    {
        let ghost before = self@;
        if path::list_contains_path(&self.extra_readable_roots, root) {
            proof {
                let l = self.extra_readable_roots@;
                let i = choose|i: int|
                    0 <= i < l.len() && path::same_path((#[trigger] l[i])@, root@);
                assert(path::same_path(before.roots[i], root@));
            }
        } else {
            proof {
                if path::names_path(before.roots, root@) {
                    let i = choose|i: int|
                        0 <= i < before.roots.len() && path::same_path(
                            #[trigger] before.roots[i],
                            root@,
                        );
                    assert(path::same_path(self.extra_readable_roots@[i]@, root@));
                }
            }
            self.extra_readable_roots.push(root.to_owned());
            assert(self@.roots =~= before.roots.push(root@));
        }
    }

    pub fn extra_readable_roots(&self) -> (r: &Vec<String>)
        ensures
            text::string_views(r@) == self@.roots,
    {
        &self.extra_readable_roots
    }
}

/// A lost response is told once: what is noted is taken, and then nothing is
/// left to take.
pub proof fn law_lost_response_is_told_once(h: HostView, reason: Seq<char>)
    ensures
        ({
            let noted = HostView { lost: Some(reason), ..h };
            let taken = HostView { lost: None, ..noted };
            noted.lost == Some(reason) && taken.lost is None && taken == HostView { lost: None, ..h }
        }),
{
}

/// A fresh state has lost no response, reads no extra directory, and gives a
/// call two minutes.
pub proof fn law_fresh_state_is_bare(
    cwd: Seq<char>,
    plugin_name: Seq<char>,
    host_dir: Seq<char>,
    guest_dir: Seq<char>,
)
    ensures
        fresh_host(cwd, plugin_name, host_dir, guest_dir).cwd == cwd,
        fresh_host(cwd, plugin_name, host_dir, guest_dir).plugin_name == plugin_name,
        fresh_host(cwd, plugin_name, host_dir, guest_dir).preopened == (host_dir, guest_dir),
        fresh_host(cwd, plugin_name, host_dir, guest_dir).lost is None,
        fresh_host(cwd, plugin_name, host_dir, guest_dir).roots.len() == 0,
        fresh_host(cwd, plugin_name, host_dir, guest_dir).deadline == 120,
{
}

/// The root of the file system is `/` where there are no drives; where there
/// are, it is that of the drive of the working directory.
pub proof fn law_root_is_that_of_the_drive(dir: Seq<char>, letter: char, rest: Seq<char>)
    requires
        'A' <= letter <= 'Z' || 'a' <= letter <= 'z',
        dir == seq![letter, ':', '/'] + rest,
    ensures
        fs_root(false, Some(dir)) == "/"@,
        fs_root(false, None) == "/"@,
        fs_root(true, Some(dir)) == seq![letter, ':', '/'],
        fs_root(true, None) == "C:/"@,
{
    reveal_strlit("/");
    assert(dir[0] == letter && dir[1] == ':' && dir[2] == '/');
    assert(dir.take(2) + "/"@ =~= seq![letter, ':', '/']);
}

} // verus!

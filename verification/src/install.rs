//! Where the program keeps its files.
use crate::path;
use crate::text;
use vstd::prelude::*;
use vstd::string::*;

verus! {

/// The directory in which everything is installed: the one that is set, or
/// `.agentplug` below the home directory.
pub open spec fn installed_in(set: Option<Seq<char>>, home: Seq<char>) -> Seq<char> {
    match set {
        Some(dir) => if text::is_blank(dir) {
            path::joined_path(home, ".agentplug"@)
        } else {
            dir
        },
        None => path::joined_path(home, ".agentplug"@),
    }
}

pub fn install_dir(set: Option<&str>, home: &str) -> (r: String)
    ensures
        r@ == installed_in(text::opt_view(set), home@),
{
    match set {
        Some(dir) => if text::blank(dir) {
            path::join(home, ".agentplug")
        } else {
            dir.to_owned()
        },
        None => path::join(home, ".agentplug"),
    }
}

/// Where compiled modules were kept before.
pub fn legacy_wasmtime_cache_dir(install_dir: &str) -> (r: String)
    ensures
        r@ == path::joined_path(install_dir@, "wasmtime-cache"@),
{
    path::join(install_dir, "wasmtime-cache")
}

/// Where compiled modules are kept.
pub fn precompiled_dir(install_dir: &str) -> (r: String)
    ensures
        r@ == path::joined_path(install_dir@, "precompiled"@),
{
    path::join(install_dir, "precompiled")
}

/// Where plugins are kept.
pub fn plugins_dir(install_dir: &str) -> (r: String)
    ensures
        r@ == path::joined_path(install_dir@, "plugins"@),
{
    path::join(install_dir, "plugins")
}

/// The install directory is the one that is set; without one it is
/// `.agentplug` in the home directory.
pub proof fn law_install_directory_is_the_one_set(dir: Seq<char>, home: Seq<char>)
    requires
        home.len() > 0,
        home.last() != '/',
    ensures
        !text::is_blank(dir) ==> installed_in(Some(dir), home) == dir,
        text::is_blank(dir) ==> installed_in(Some(dir), home) == home + "/.agentplug"@,
        installed_in(None, home) == home + "/.agentplug"@,
{
    reveal_strlit(".agentplug");
    reveal_strlit("/.agentplug");
    assert(home.push('/') + ".agentplug"@ =~= home + "/.agentplug"@);
}

} // verus!

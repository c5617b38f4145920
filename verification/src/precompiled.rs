//! The files that hold compiled modules.
use crate::path;
use crate::text;
use vstd::prelude::*;
use vstd::string::*;

verus! {

/// The hexadecimal digit that stands for `d`, in lower case.
pub open spec fn hex_digit(d: nat) -> char {
    if d < 10 {
        (('0' as u32) + d) as char
    } else {
        (('a' as u32) + d - 10) as char
    }
}

fn hex_char(d: u8) -> (r: char)
    requires
        d < 16,
    ensures
        r == hex_digit(d as nat),
{
    if d < 10 {
        ('0' as u8 + d) as char
    } else {
        ('a' as u8 + (d - 10)) as char
    }
}

/// The last `width` hexadecimal digits of `n`, with leading zeros.
pub open spec fn hex(n: nat, width: nat) -> Seq<char>
    decreases width,
{
    if width == 0 {
        Seq::empty()
    } else {
        hex(n / 16, (width - 1) as nat).push(hex_digit(n % 16))
    }
}

/// `n` in hexadecimal, with leading zeros.
pub fn hex_text(n: u64, width: u32) -> (r: String)
    ensures
        r@ == hex(n as nat, width as nat),
    decreases width,
{
    if width == 0 {
        String::new()
    } else {
        let mut out = hex_text(n / 16, width - 1);
        out.push(hex_char((n % 16) as u8));
        out
    }
}

/// Bytes in hexadecimal, two digits each.
pub open spec fn hex_bytes(b: Seq<u8>) -> Seq<char>
    decreases b.len(),
{
    if b.len() == 0 {
        Seq::empty()
    } else {
        hex_bytes(b.drop_last()) + hex(b.last() as nat, 2)
    }
}

/// Bytes as a text of hexadecimal digits.
pub fn bytes_hex(b: &Vec<u8>) -> (r: String)
    ensures
        r@ == hex_bytes(b@),
{
    let mut out = String::new();
    for i in 0..b.len()
        invariant
            out@ == hex_bytes(b@.take(i as int)),
    {
        assert(b@.take(i + 1).drop_last() =~= b@.take(i as int));
        out.append(hex_text(b[i] as u64, 2).as_str());
    }
    assert(b@.take(b@.len() as int) =~= b@);
    out
}

/// The key of a compiler, from the hash of what it depends on.
pub fn engine_compatibility_key(hash: u64) -> (r: String)
    ensures
        r@ == hex(hash as nat, 16),
{
    hex_text(hash, 16)
}

/// The name of the file that holds a compiled plugin.
pub open spec fn artifact_name(plugin: Seq<char>, content: Seq<char>, key: Seq<char>) -> Seq<char> {
    plugin + "-"@ + text::clipped(content, 16) + "-"@ + key + ".cwasm"@
}

pub fn precompiled_file_name(plugin_name: &str, content_hash: &str, compat_key: &str) -> (r: String)
    ensures
        r@ == artifact_name(plugin_name@, content_hash@, compat_key@),
{
    let head = text::add5(plugin_name, "-", text::clip(content_hash, 16), "-", compat_key);
    text::add2(head.as_str(), ".cwasm")
}

/// The file that holds a compiled plugin.
pub fn precompiled_module_path(
    precompiled_dir: &str,
    plugin_name: &str,
    content_hash: &str,
    compat_key: &str,
) -> (r: String)
    ensures
        r@ == path::joined_path(
            precompiled_dir@,
            artifact_name(plugin_name@, content_hash@, compat_key@),
        ),
{
    path::join(
        precompiled_dir,
        precompiled_file_name(plugin_name, content_hash, compat_key).as_str(),
    )
}

/// Whether a file holds an older compilation of a plugin: it is named like
/// one, and is not the one to keep.
pub fn is_superseded_artifact(file: &str, name: &str, plugin_name: &str, keep: &str) -> (r: bool)
    ensures
        r == (!path::same_path(file@, keep@) && (plugin_name@ + "-"@).is_prefix_of(name@)
            && "cwasm"@.is_suffix_of(name@)),
{
    !path::same(file, keep) && text::starts_with(name, text::add2(plugin_name, "-").as_str())
        && text::ends_with(name, "cwasm")
}

/// The file in which a compilation is written before it takes its place.
pub fn artifact_temporary_path(artifact: &str, pid: u32) -> (r: String)
    ensures
        r@ == artifact@ + ".tmp."@ + text::decimal(pid as nat),
{
    text::add3(artifact, ".tmp.", text::u64_text(pid as u64).as_str())
}

/// Bytes are written as two digits each, the upper half first; each digit
/// stands for its value, ten to fifteen as the letters from `a`.
pub proof fn law_bytes_are_written_in_hex(b: Seq<u8>, i: int)
    requires
        0 <= i < b.len(),
    ensures
        hex_bytes(b).len() == 2 * b.len(),
        hex_bytes(b)[2 * i] as u32 == (if b[i] / 16 < 10 {
            0x30 + b[i] / 16
        } else {
            0x61 + b[i] / 16 - 10
        }),
        hex_bytes(b)[2 * i + 1] as u32 == (if b[i] % 16 < 10 {
            0x30 + b[i] % 16
        } else {
            0x61 + b[i] % 16 - 10
        }),
    decreases b.len(),
{
    reveal_with_fuel(hex, 3);
    let rest = b.drop_last();
    lemma_hex_len(rest);
    assert(hex(b.last() as nat, 2).len() == 2);
    if i < rest.len() {
        law_bytes_are_written_in_hex(rest, i);
        assert(rest[i] == b[i]);
    } else {
        assert(b[i] == b.last());
        assert(hex(b.last() as nat, 2)[0] == hex_digit((b.last() as nat / 16) % 16));
        assert(hex(b.last() as nat, 2)[1] == hex_digit(b.last() as nat % 16));
    }
}

proof fn lemma_hex_len(b: Seq<u8>)
    ensures
        hex_bytes(b).len() == 2 * b.len(),
    decreases b.len(),
{
    reveal_with_fuel(hex, 3);
    if b.len() > 0 {
        lemma_hex_len(b.drop_last());
    }
}

/// The name of an artifact tells the plugin, the start of the hash of its
/// contents and the engine it was made for.
pub proof fn law_artifact_is_named_after_its_origin(plugin: Seq<char>, content: Seq<char>, key: Seq<char>)
    requires
        content.len() >= 16,
    ensures
        artifact_name(plugin, content, key) == plugin + "-"@ + content.take(16) + "-"@ + key + ".cwasm"@,
{
    assert(content.len() == 16 ==> content.take(16) =~= content);
}

} // verus!

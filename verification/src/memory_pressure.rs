//! How much memory the process takes, and how many dispatches shared plugins
//! served since they were last released.
use crate::text;
use vstd::prelude::*;
use vstd::string::*;

verus! {

/// The memory of a process, by kind.
#[derive(Debug, Clone, Copy, PartialEq, Eq, Structural)]
pub struct ProcessMemoryBreakdown {
    pub rss_bytes: u64,
    pub anon_bytes: u64,
    pub file_bytes: u64,
    pub shmem_bytes: u64,
    pub swap_bytes: u64,
    pub private_bytes: u64,
}

/// `s` without the `kB` that end it, however often.
pub open spec fn without_unit(s: Seq<char>) -> Seq<char>
    decreases s.len(),
{
    if s.len() >= 2 && s[s.len() - 2] == 'k' && s[s.len() - 1] == 'B' {
        without_unit(s.take(s.len() - 2))
    } else {
        s
    }
}

fn trim_unit(s: &str) -> (r: &str)
    ensures
        r@ == without_unit(s@),
{
    let cs = text::chars_of(s);
    let mut n: usize = cs.len();
    assert(s@.take(n as int) =~= s@);
    while n >= 2 && cs[n - 2] == 'k' && cs[n - 1] == 'B'
        invariant
            n <= cs@.len(),
            cs@ == s@,
            without_unit(s@) == without_unit(s@.take(n as int)),
        decreases n,
    {
        assert(s@.take(n as int).take(n - 2) =~= s@.take(n - 2));
        n -= 2;
    }
    assert(s@.subrange(0, n as int) =~= s@.take(n as int));
    s.substring_char(0, n)
}

/// What follows `key` on the first line that starts with it.
pub open spec fn line_after(lines: Seq<Seq<char>>, key: Seq<char>) -> Option<Seq<char>>
    decreases lines.len(),
{
    if lines.len() == 0 {
        None
    } else {
        match text::after_prefix(lines[0], key) {
            Some(rest) => Some(rest),
            None => line_after(lines.skip(1), key),
        }
    }
}

/// The number of kilobytes that a rest of a line names; nothing where it names
/// none.
pub open spec fn kilobytes(rest: Option<Seq<char>>) -> nat {
    match rest {
        Some(s) => match text::parsed_uint(
            text::trimmed(without_unit(text::trimmed(s))),
            u64::MAX as nat,
        ) {
            Some(n) => n,
            None => 0,
        },
        None => 0,
    }
}

/// The number of bytes that the status of a process names under a key, in 64
/// bits.
pub open spec fn kb_bytes(status: Seq<char>, key: Seq<char>) -> u64 {
    (kilobytes(line_after(text::lines(status), key)) as u64).wrapping_mul(1024)
}

fn kb_field(status: &str, key: &str) -> (r: u64)
    ensures
        r == kb_bytes(status@, key@),
{
    let lines = text::lines_of(status);
    let ghost all = text::views(lines@);
    let mut kb: u64 = 0;
    let mut i: usize = 0;
    let mut found = false;
    assert(all.skip(0) =~= all);
    while i < lines.len() && !found
        invariant
            all == text::views(lines@),
            all == text::lines(status@),
            i <= lines@.len(),
            !found ==> kb == 0 && line_after(all, key@) == line_after(all.skip(i as int), key@),
            found ==> kb == kilobytes(line_after(all, key@)),
        decreases lines@.len() - i + (if found {
            0int
        } else {
            1
        }),
    {
        assert(all.skip(i as int)[0] == lines@[i as int]@);
        assert(all.skip(i as int).skip(1) =~= all.skip(i + 1));
        match text::strip_prefix(lines[i], key) {
            Some(rest) => {
                kb = match text::parse_u64(text::trim(trim_unit(text::trim(rest)))) {
                    Some(n) => n,
                    None => 0,
                };
                found = true;
            },
            None => {
                i += 1;
            },
        }
    }
    kb.wrapping_mul(1024)
}

/// The memory that the status of a process names. What cannot be in a file is
/// private: anonymous memory, shared memory and what was swapped out.
pub open spec fn breakdown_of(status: Seq<char>) -> ProcessMemoryBreakdown {
    let anon = kb_bytes(status, "RssAnon:"@);
    let shmem = kb_bytes(status, "RssShmem:"@);
    let swap = kb_bytes(status, "VmSwap:"@);
    ProcessMemoryBreakdown {
        rss_bytes: kb_bytes(status, "VmRSS:"@),
        anon_bytes: anon,
        file_bytes: kb_bytes(status, "RssFile:"@),
        shmem_bytes: shmem,
        swap_bytes: swap,
        private_bytes: anon.wrapping_add(shmem).wrapping_add(swap),
    }
}

/// The memory of a process, from its status where that could be read.
pub fn process_memory_breakdown(status: Option<&str>) -> (r: Option<ProcessMemoryBreakdown>)
    ensures
        r == (match text::opt_view(status) {
            Some(s) => Some(breakdown_of(s)),
            None => None,
        }),
{
    match status {
        Some(s) => {
            let anon: u64 = kb_field(s, "RssAnon:");
            let shmem: u64 = kb_field(s, "RssShmem:");
            let swap: u64 = kb_field(s, "VmSwap:");
            Some(
                ProcessMemoryBreakdown {
                    rss_bytes: kb_field(s, "VmRSS:"),
                    anon_bytes: anon,
                    file_bytes: kb_field(s, "RssFile:"),
                    shmem_bytes: shmem,
                    swap_bytes: swap,
                    private_bytes: anon.wrapping_add(shmem).wrapping_add(swap),
                },
            )
        },
        None => None,
    }
}

/// The memory of a process of which two sizes are known: what is private, and
/// what is resident. What is resident beyond what is private counts as being in
/// files.
pub open spec fn breakdown_of_sizes(private: u64, working_set: u64) -> ProcessMemoryBreakdown {
    ProcessMemoryBreakdown {
        rss_bytes: working_set,
        anon_bytes: private,
        file_bytes: (if working_set >= private {
            working_set - private
        } else {
            0
        }) as u64,
        shmem_bytes: 0,
        swap_bytes: 0,
        private_bytes: private,
    }
}

/// The memory of a process, from what the system tells as its private size and
/// as its working set.
pub fn memory_breakdown_from_sizes(private: u64, working_set: u64) -> (r: ProcessMemoryBreakdown)
    ensures
        r == breakdown_of_sizes(private, working_set),
{
    ProcessMemoryBreakdown {
        rss_bytes: working_set,
        anon_bytes: private,
        file_bytes: working_set.saturating_sub(private),
        shmem_bytes: 0,
        swap_bytes: 0,
        private_bytes: private,
    }
}

/// The private memory of a process. It keeps the peak that a guest reached,
/// which the resident set does not.
pub fn process_private_bytes_tracking_retained_wasm_peak_unlike_working_set(status: Option<&str>) -> (r:
    Option<u64>)
    ensures
        r == (match text::opt_view(status) {
            Some(s) => Some(breakdown_of(s).private_bytes),
            None => None,
        }),
{
    match process_memory_breakdown(status) {
        Some(b) => Some(b.private_bytes),
        None => None,
    }
}

/// Counts a dispatch that a shared plugin serves.
pub fn note_shared_plugin_dispatch(count: &mut u64)
    ensures
        *final(count) == old(count).wrapping_add(1),
{
    *count = count.wrapping_add(1);
}

/// How many dispatches shared plugins served since they were released.
pub fn shared_dispatches_since_release(count: &u64) -> (r: u64)
    ensures
        r == *count,
{
    *count
}

/// Starts the count again.
pub fn reset_shared_dispatch_count(count: &mut u64)
    ensures
        *final(count) == 0,
{
    *count = 0;
}

/// A size is read from the first line that begins with its key, in units of
/// 1024 bytes.
pub proof fn law_sizes_are_read_by_their_key(
    status: Seq<char>,
    key: Seq<char>,
    at: int,
    n: u64,
)
    requires
        0 <= at < text::lines(status).len(),
        text::lines(status)[at] == key + "\t  "@ + text::decimal(n as nat) + " kB"@,
        forall|i: int| 0 <= i < at ==> !key.is_prefix_of(#[trigger] text::lines(status)[i]),
        n * 1024 <= u64::MAX,
    ensures
        kb_bytes(status, key) == 1024 * n,
{
    let lines = text::lines(status);
    let d = text::decimal(n as nat);
    reveal_strlit("\t  ");
    reveal_strlit(" kB");
    let line = key + "\t  "@ + d + " kB"@;
    assert(key.is_prefix_of(line)) by {
        assert(line.subrange(0, key.len() as int) =~= key);
    }
    lemma_line_after(lines, key, at);
    let rest = line.skip(key.len() as int);
    assert(rest =~= "\t  "@ + d + " kB"@);
    text::lemma_decimal(n as nat);
    text::law_decimal_reads_back(n as nat, u64::MAX as nat);
    assert(text::is_digit(d[0]) && text::is_digit(d.last()));
    reveal_with_fuel(text::trimmed_start, 5);
    reveal_with_fuel(text::trimmed_end, 3);
    assert(rest.skip(1).skip(1).skip(1) =~= d + " kB"@);
    assert(rest.skip(1)[0] == ' ' && rest.skip(1).skip(1)[0] == ' ');
    assert((d + " kB"@)[0] == d[0]);
    assert(text::trimmed(rest) == d + " kB"@);
    let t = d + " kB"@;
    assert(t.take(t.len() - 2) =~= d.push(' '));
    reveal_with_fuel(without_unit, 3);
    assert(without_unit(t) == d.push(' '));
    assert(d.push(' ').drop_last() =~= d);
    assert(text::trimmed(d.push(' ')) == d);
}

proof fn lemma_line_after(lines: Seq<Seq<char>>, key: Seq<char>, at: int)
    requires
        0 <= at < lines.len(),
        key.is_prefix_of(lines[at]),
        forall|i: int| 0 <= i < at ==> !key.is_prefix_of(#[trigger] lines[i]),
    ensures
        line_after(lines, key) == Some(lines[at].skip(key.len() as int)),
    decreases at,
{
    if at > 0 {
        let rest = lines.skip(1);
        assert forall|i: int| 0 <= i < at - 1 implies !key.is_prefix_of(#[trigger] rest[i]) by {
            assert(rest[i] == lines[i + 1]);
        }
        assert(rest[at - 1] == lines[at]);
        lemma_line_after(rest, key, at - 1);
    }
}

/// Each size of a process comes from the line of its own key; what the process
/// holds for itself is its anonymous, shared and swapped memory together.
pub proof fn law_sizes_have_their_own_lines(status: Seq<char>)
    ensures
        breakdown_of(status).rss_bytes == kb_bytes(status, "VmRSS:"@),
        breakdown_of(status).anon_bytes == kb_bytes(status, "RssAnon:"@),
        breakdown_of(status).file_bytes == kb_bytes(status, "RssFile:"@),
        breakdown_of(status).shmem_bytes == kb_bytes(status, "RssShmem:"@),
        breakdown_of(status).swap_bytes == kb_bytes(status, "VmSwap:"@),
        ({
            let b = breakdown_of(status);
            b.anon_bytes + b.shmem_bytes + b.swap_bytes <= u64::MAX ==> b.private_bytes == b.anon_bytes
                + b.shmem_bytes + b.swap_bytes
        }),
{
}

/// Of two sizes of a process, the private one is its own and what the working
/// set holds beyond it is files.
pub proof fn law_working_set_beyond_private_is_files(private: u64, working_set: u64)
    ensures
        breakdown_of_sizes(private, working_set).private_bytes == private,
        breakdown_of_sizes(private, working_set).anon_bytes == private,
        breakdown_of_sizes(private, working_set).rss_bytes == working_set,
        working_set >= private ==> private + breakdown_of_sizes(private, working_set).file_bytes
            == working_set,
        working_set < private ==> breakdown_of_sizes(private, working_set).file_bytes == 0,
        breakdown_of_sizes(private, working_set).shmem_bytes == 0,
        breakdown_of_sizes(private, working_set).swap_bytes == 0,
{
}

} // verus!

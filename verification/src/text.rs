//! Text operations on `&str`, with their meaning over sequences of characters.
use vstd::prelude::*;
use vstd::string::*;

verus! {

/// `String::push` appends one character; nothing else of the string changes.
pub assume_specification[ String::push ](s: &mut String, c: char)
    ensures
        final(s)@ == old(s)@.push(c),
;

// ---------------------------------------------------------------------------
// Characters
// ---------------------------------------------------------------------------
/// Whether `c` has the Unicode `White_Space` property.
pub open spec fn is_space(c: char) -> bool {
    let u = c as u32;
    ||| 0x9 <= u <= 0xd
    ||| u == 0x20
    ||| u == 0x85
    ||| u == 0xa0
    ||| u == 0x1680
    ||| 0x2000 <= u <= 0x200a
    ||| u == 0x2028
    ||| u == 0x2029
    ||| u == 0x202f
    ||| u == 0x205f
    ||| u == 0x3000
}

/// Whether `c` is an ASCII decimal digit.
pub open spec fn is_digit(c: char) -> bool {
    '0' <= c <= '9'
}

/// Whether `c` is an ASCII letter or digit.
pub open spec fn is_alnum(c: char) -> bool {
    is_digit(c) || 'a' <= c <= 'z' || 'A' <= c <= 'Z'
}

pub fn char_is_space(c: char) -> (r: bool)
    ensures
        r == is_space(c),
{
    let u: u32 = c as u32;
    (0x9 <= u && u <= 0xd) || u == 0x20 || u == 0x85 || u == 0xa0 || u == 0x1680 || (0x2000 <= u
        && u <= 0x200a) || u == 0x2028 || u == 0x2029 || u == 0x202f || u == 0x205f || u == 0x3000
}

pub fn char_is_digit(c: char) -> (r: bool)
    ensures
        r == is_digit(c),
{
    '0' <= c && c <= '9'
}

pub fn char_is_alnum(c: char) -> (r: bool)
    ensures
        r == is_alnum(c),
{
    char_is_digit(c) || ('a' <= c && c <= 'z') || ('A' <= c && c <= 'Z')
}

// ---------------------------------------------------------------------------
// Letter case and quoting
// ---------------------------------------------------------------------------
/// What `str::to_lowercase` makes of a text.
pub uninterp spec fn lower(s: Seq<char>) -> Seq<char>;

/// What `str::to_uppercase` makes of a text.
pub uninterp spec fn upper(s: Seq<char>) -> Seq<char>;

/// What formatting with `{:?}` makes of a text.
pub uninterp spec fn quoted(s: Seq<char>) -> Seq<char>;

/// `str::to_lowercase`: depends on the text alone.
#[verifier::external_body]
pub(crate) fn to_lower(s: &str) -> (r: String)
    ensures
        r@ == lower(s@),
{
    s.to_lowercase()
}

/// `str::to_uppercase`: depends on the text alone.
#[verifier::external_body]
pub(crate) fn to_upper(s: &str) -> (r: String)
    ensures
        r@ == upper(s@),
{
    s.to_uppercase()
}

/// The `Debug` text of a `str`: in double quotes, with escapes. Depends on the
/// text alone.
#[verifier::external_body]
pub(crate) fn quote(s: &str) -> (r: String)
    ensures
        r@ == quoted(s@),
{
    format!("{s:?}")
}

// ---------------------------------------------------------------------------
// Whole texts
// ---------------------------------------------------------------------------
/// The characters of `s`, one by one.
pub fn chars_of(s: &str) -> (r: Vec<char>)
    ensures
        r@ == s@,
{
    let mut out: Vec<char> = Vec::new();
    for c in it: s.chars()
        invariant
            out@ == s@.take(it.index()),
            it.seq() == s@,
    {
        out.push(c);
    }
    out
}

/// How many bytes a text takes in UTF-8.
pub open spec fn byte_count(s: Seq<char>) -> nat {
    vstd::utf8::encode_utf8(s).len()
}

/// How many bytes a text takes in UTF-8.
pub fn byte_len(s: &str) -> (r: usize)
    ensures
        r == byte_count(s@),
{
    s.as_bytes().len()
}

/// Whether two texts hold the same characters.
pub fn str_eq(a: &str, b: &str) -> (r: bool)
    ensures
        r == (a@ == b@),
{
    let x = chars_of(a);
    let y = chars_of(b);
    if x.len() != y.len() {
        return false;
    }
    for i in 0..x.len()
        invariant
            x@ == a@,
            y@ == b@,
            x.len() == y.len(),
            forall|j: int| 0 <= j < i ==> x@[j] == y@[j],
    {
        if x[i] != y[i] {
            assert(a@[i as int] != b@[i as int]);
            return false;
        }
    }
    assert(x@ == y@);
    true
}

/// `a` followed by `b`.
pub fn add2(a: &str, b: &str) -> (r: String)
    ensures
        r@ == a@ + b@,
{
    let mut s = a.to_owned();
    s.append(b);
    s
}

/// `a`, `b` and `c` in a row.
pub fn add3(a: &str, b: &str, c: &str) -> (r: String)
    ensures
        r@ == a@ + b@ + c@,
{
    let mut s = a.to_owned();
    s.append(b);
    s.append(c);
    s
}

/// `a`, `b`, `c` and `d` in a row.
pub fn add4(a: &str, b: &str, c: &str, d: &str) -> (r: String)
    ensures
        r@ == a@ + b@ + c@ + d@,
{
    let mut s = a.to_owned();
    s.append(b);
    s.append(c);
    s.append(d);
    s
}

/// `a`, `b`, `c`, `d` and `e` in a row.
pub fn add5(a: &str, b: &str, c: &str, d: &str, e: &str) -> (r: String)
    ensures
        r@ == a@ + b@ + c@ + d@ + e@,
{
    let mut s = a.to_owned();
    s.append(b);
    s.append(c);
    s.append(d);
    s.append(e);
    s
}

/// Whether some text of `list` equals `s`.
pub open spec fn lists(list: Seq<String>, s: Seq<char>) -> bool {
    exists|i: int| 0 <= i < list.len() && (#[trigger] list[i])@ == s
}

/// Whether no text stands twice in a list.
pub open spec fn distinct_texts(list: Seq<String>) -> bool {
    forall|i: int, j: int|
        0 <= i < j < list.len() ==> (#[trigger] list[i])@ != (#[trigger] list[j])@
}

/// Whether `list` names `s`.
pub fn list_contains(list: &Vec<String>, s: &str) -> (r: bool)
    ensures
        r == lists(list@, s@),
{
    for i in 0..list.len()
        invariant
            forall|j: int| 0 <= j < i ==> (#[trigger] list@[j])@ != s@,
    {
        if str_eq(list[i].as_str(), s) {
            assert(list@[i as int]@ == s@);
            return true;
        }
    }
    false
}

// ---------------------------------------------------------------------------
// Trimming
// ---------------------------------------------------------------------------
/// `s` without its leading white space.
pub open spec fn trimmed_start(s: Seq<char>) -> Seq<char>
    decreases s.len(),
{
    if s.len() > 0 && is_space(s[0]) {
        trimmed_start(s.skip(1))
    } else {
        s
    }
}

/// `s` without its trailing white space.
pub open spec fn trimmed_end(s: Seq<char>) -> Seq<char>
    decreases s.len(),
{
    if s.len() > 0 && is_space(s.last()) {
        trimmed_end(s.drop_last())
    } else {
        s
    }
}

/// `s` without leading and trailing white space.
pub open spec fn trimmed(s: Seq<char>) -> Seq<char> {
    trimmed_end(trimmed_start(s))
}

pub fn trim_start(s: &str) -> (r: &str)
    ensures
        r@ == trimmed_start(s@),
{
    let cs = chars_of(s);
    let n: usize = cs.len();
    let mut i: usize = 0;
    assert(s@.skip(0) == s@);
    while i < n && char_is_space(cs[i])
        invariant
            i <= n,
            n == cs@.len(),
            cs@ == s@,
            trimmed_start(s@) == trimmed_start(s@.skip(i as int)),
        decreases n - i,
    {
        assert(s@.skip(i as int).skip(1) == s@.skip(i + 1));
        i += 1;
    }
    assert(s@.subrange(i as int, n as int) == s@.skip(i as int));
    s.substring_char(i, n)
}

pub fn trim_end(s: &str) -> (r: &str)
    ensures
        r@ == trimmed_end(s@),
{
    let cs = chars_of(s);
    let mut n: usize = cs.len();
    assert(s@.take(n as int) == s@);
    while n > 0 && char_is_space(cs[n - 1])
        invariant
            n <= cs@.len(),
            cs@ == s@,
            trimmed_end(s@) == trimmed_end(s@.take(n as int)),
        decreases n,
    {
        assert(s@.take(n as int).drop_last() == s@.take(n - 1));
        n -= 1;
    }
    assert(s@.subrange(0, n as int) == s@.take(n as int));
    s.substring_char(0, n)
}

pub fn trim(s: &str) -> (r: &str)
    ensures
        r@ == trimmed(s@),
{
    trim_end(trim_start(s))
}

/// `s` without the characters `c` at its start.
pub open spec fn without_leading(s: Seq<char>, c: char) -> Seq<char>
    decreases s.len(),
{
    if s.len() > 0 && s[0] == c {
        without_leading(s.skip(1), c)
    } else {
        s
    }
}

/// `s` without the characters `c` at its end.
pub open spec fn without_trailing(s: Seq<char>, c: char) -> Seq<char>
    decreases s.len(),
{
    if s.len() > 0 && s.last() == c {
        without_trailing(s.drop_last(), c)
    } else {
        s
    }
}

/// `s` without the characters `c` at both ends.
pub open spec fn without_around(s: Seq<char>, c: char) -> Seq<char> {
    without_trailing(without_leading(s, c), c)
}

pub fn trim_char(s: &str, c: char) -> (r: &str)
    ensures
        r@ == without_around(s@, c),
{
    let cs = chars_of(s);
    let n: usize = cs.len();
    let mut i: usize = 0;
    assert(s@.skip(0) =~= s@);
    while i < n && cs[i] == c
        invariant
            i <= n,
            n == cs@.len(),
            cs@ == s@,
            without_leading(s@, c) == without_leading(s@.skip(i as int), c),
        decreases n - i,
    {
        assert(s@.skip(i as int).skip(1) =~= s@.skip(i + 1));
        i += 1;
    }
    let ghost t = s@.skip(i as int);
    let mut m: usize = n;
    assert(t.take(m - i) =~= t);
    while m > i && cs[m - 1] == c
        invariant
            i <= m <= n,
            n == cs@.len(),
            cs@ == s@,
            t == s@.skip(i as int),
            without_trailing(t, c) == without_trailing(t.take(m - i), c),
        decreases m,
    {
        assert(t.take(m - i).last() == cs@[m - 1]);
        assert(t.take(m - i).drop_last() =~= t.take(m - i - 1));
        m -= 1;
    }
    assert(m > i ==> t.take(m - i).last() == cs@[m - 1]);
    assert(s@.subrange(i as int, m as int) =~= t.take(m - i));
    s.substring_char(i, m)
}

/// Whether nothing but white space stands in `s`.
pub open spec fn is_blank(s: Seq<char>) -> bool {
    trimmed(s).len() == 0
}

pub fn blank(s: &str) -> (r: bool)
    ensures
        r == is_blank(s@),
{
    trim(s).is_empty()
}

// ---------------------------------------------------------------------------
// Prefixes, suffixes and inner texts
// ---------------------------------------------------------------------------
/// What follows the prefix `p` in `s`, if `s` begins with `p`.
pub open spec fn after_prefix(s: Seq<char>, p: Seq<char>) -> Option<Seq<char>> {
    if p.is_prefix_of(s) {
        Some(s.skip(p.len() as int))
    } else {
        None
    }
}

/// What precedes the suffix `p` in `s`, if `s` ends with `p`.
pub open spec fn before_suffix(s: Seq<char>, p: Seq<char>) -> Option<Seq<char>> {
    if p.is_suffix_of(s) {
        Some(s.take(s.len() - p.len()))
    } else {
        None
    }
}

/// The view of an optional text.
pub open spec fn opt_view(o: Option<&str>) -> Option<Seq<char>> {
    match o {
        Some(s) => Some(s@),
        None => None,
    }
}

/// The view of an optional owned text.
pub open spec fn opt_string_view(o: Option<String>) -> Option<Seq<char>> {
    match o {
        Some(s) => Some(s@),
        None => None,
    }
}

fn chars_match_at(s: &Vec<char>, p: &Vec<char>, at: usize) -> (r: bool)
    requires
        at + p@.len() <= s@.len(),
    ensures
        r == (s@.subrange(at as int, at + p@.len()) == p@),
{
    let n: usize = s.len();
    for k in 0..p.len()
        invariant
            n == s@.len(),
            at + p@.len() <= n,
            forall|j: int| 0 <= j < k ==> s@[at + j] == p@[j],
    {
        if s[at + k] != p[k] {
            assert(s@.subrange(at as int, at + p@.len())[k as int] != p@[k as int]);
            return false;
        }
    }
    assert(s@.subrange(at as int, at + p@.len()) == p@);
    true
}

pub fn starts_with(s: &str, p: &str) -> (r: bool)
    ensures
        r == p@.is_prefix_of(s@),
{
    let cs = chars_of(s);
    let cp = chars_of(p);
    if cp.len() > cs.len() {
        return false;
    }
    chars_match_at(&cs, &cp, 0)
}

pub fn ends_with(s: &str, p: &str) -> (r: bool)
    ensures
        r == p@.is_suffix_of(s@),
{
    let cs = chars_of(s);
    let cp = chars_of(p);
    if cp.len() > cs.len() {
        return false;
    }
    chars_match_at(&cs, &cp, cs.len() - cp.len())
}

pub fn strip_prefix<'a>(s: &'a str, p: &str) -> (r: Option<&'a str>)
    ensures
        opt_view(r) == after_prefix(s@, p@),
{
    if starts_with(s, p) {
        let n: usize = s.unicode_len();
        let k: usize = p.unicode_len();
        assert(s@.subrange(k as int, n as int) == s@.skip(k as int));
        Some(s.substring_char(k, n))
    } else {
        None
    }
}

pub fn strip_suffix<'a>(s: &'a str, p: &str) -> (r: Option<&'a str>)
    ensures
        opt_view(r) == before_suffix(s@, p@),
{
    if ends_with(s, p) {
        let n: usize = s.unicode_len();
        let k: usize = p.unicode_len();
        assert(s@.subrange(0, n - k) == s@.take(n - k));
        Some(s.substring_char(0, n - k))
    } else {
        None
    }
}

/// Whether `p` stands in `s` at position `i`.
pub open spec fn occurs_at(s: Seq<char>, p: Seq<char>, i: int) -> bool {
    0 <= i && i + p.len() <= s.len() && s.subrange(i, i + p.len()) == p
}

/// Whether `p` stands somewhere in `s`.
pub open spec fn has_text(s: Seq<char>, p: Seq<char>) -> bool {
    exists|i: int| occurs_at(s, p, i)
}

/// Whether `i` is the first position at which `p` stands in `s`.
pub open spec fn first_at(s: Seq<char>, p: Seq<char>, i: int) -> bool {
    occurs_at(s, p, i) && forall|j: int| j < i ==> !occurs_at(s, p, j)
}

/// Whether `i` is the last position at which `p` stands in `s`.
pub open spec fn last_at(s: Seq<char>, p: Seq<char>, i: int) -> bool {
    occurs_at(s, p, i) && forall|j: int| j > i ==> !occurs_at(s, p, j)
}

/// The first position of `p` in `s`, in characters.
pub fn find(s: &str, p: &str) -> (r: Option<usize>)
    ensures
        match r {
            Some(i) => first_at(s@, p@, i as int),
            None => !has_text(s@, p@),
        },
{
    let cs = chars_of(s);
    let cp = chars_of(p);
    if cp.len() > cs.len() {
        return None;
    }
    let last: usize = cs.len() - cp.len();
    let mut i: usize = 0;
    loop
        invariant
            cs@ == s@,
            cp@ == p@,
            last == cs@.len() - cp@.len(),
            0 <= i <= last,
            forall|j: int| j < i ==> !occurs_at(s@, p@, j),
        decreases last - i,
    {
        if chars_match_at(&cs, &cp, i) {
            assert(occurs_at(s@, p@, i as int));
            return Some(i);
        }
        if i == last {
            assert forall|j: int| !occurs_at(s@, p@, j) by {
                if j == i {
                }
            }
            return None;
        }
        i += 1;
    }
}

/// The last position of `p` in `s`, in characters.
pub fn rfind(s: &str, p: &str) -> (r: Option<usize>)
    ensures
        match r {
            Some(i) => last_at(s@, p@, i as int),
            None => !has_text(s@, p@),
        },
{
    let cs = chars_of(s);
    let cp = chars_of(p);
    if cp.len() > cs.len() {
        return None;
    }
    let mut i: usize = cs.len() - cp.len();
    loop
        invariant
            cs@ == s@,
            cp@ == p@,
            0 <= i <= cs@.len() - cp@.len(),
            forall|j: int| j > i ==> !occurs_at(s@, p@, j),
        decreases i,
    {
        if chars_match_at(&cs, &cp, i) {
            assert(occurs_at(s@, p@, i as int));
            return Some(i);
        }
        if i == 0 {
            assert forall|j: int| !occurs_at(s@, p@, j) by {
                if j == 0 {
                }
            }
            return None;
        }
        i -= 1;
    }
}

/// What stands before and behind the first `p` in `s`.
pub open spec fn cut_text(s: Seq<char>, p: Seq<char>) -> Option<(Seq<char>, Seq<char>)> {
    if has_text(s, p) {
        let i = choose|i: int| first_at(s, p, i);
        Some((s.take(i), s.skip(i + p.len())))
    } else {
        None
    }
}

/// What stands before and behind the last `p` in `s`.
pub open spec fn rcut_text(s: Seq<char>, p: Seq<char>) -> Option<(Seq<char>, Seq<char>)> {
    if has_text(s, p) {
        let i = choose|i: int| last_at(s, p, i);
        Some((s.take(i), s.skip(i + p.len())))
    } else {
        None
    }
}

/// The view of an optional pair of texts.
pub open spec fn opt_pair(o: Option<(&str, &str)>) -> Option<(Seq<char>, Seq<char>)> {
    match o {
        Some(p) => Some((p.0@, p.1@)),
        None => None,
    }
}

/// Cuts `s` at the first `p`.
pub fn cut_at_text<'a>(s: &'a str, p: &str) -> (r: Option<(&'a str, &'a str)>)
    ensures
        opt_pair(r) == cut_text(s@, p@),
{
    match find(s, p) {
        Some(i) => {
            let n: usize = s.unicode_len();
            let k: usize = p.unicode_len();
            proof {
                let j = choose|j: int| first_at(s@, p@, j);
                assert(occurs_at(s@, p@, i as int));
                assert(first_at(s@, p@, j));
                assert(i as int == j) by {
                    if j < i {
                        assert(!occurs_at(s@, p@, j));
                    }
                    if i < j {
                        assert(!occurs_at(s@, p@, i as int));
                    }
                }
            }
            assert(s@.subrange(0, i as int) =~= s@.take(i as int));
            assert(s@.subrange(i + k, n as int) =~= s@.skip(i + k));
            Some((s.substring_char(0, i), s.substring_char(i + k, n)))
        },
        None => None,
    }
}

/// Cuts `s` at the last `p`.
pub fn rcut_at_text<'a>(s: &'a str, p: &str) -> (r: Option<(&'a str, &'a str)>)
    ensures
        opt_pair(r) == rcut_text(s@, p@),
{
    match rfind(s, p) {
        Some(i) => {
            let n: usize = s.unicode_len();
            let k: usize = p.unicode_len();
            proof {
                let j = choose|j: int| last_at(s@, p@, j);
                assert(occurs_at(s@, p@, i as int));
                assert(last_at(s@, p@, j));
                assert(i as int == j) by {
                    if j > i {
                        assert(!occurs_at(s@, p@, j));
                    }
                    if i > j {
                        assert(!occurs_at(s@, p@, i as int));
                    }
                }
            }
            assert(s@.subrange(0, i as int) =~= s@.take(i as int));
            assert(s@.subrange(i + k, n as int) =~= s@.skip(i + k));
            Some((s.substring_char(0, i), s.substring_char(i + k, n)))
        },
        None => None,
    }
}

/// Whether `p` stands in `s`.
pub fn contains(s: &str, p: &str) -> (r: bool)
    ensures
        r == has_text(s@, p@),
{
    find(s, p).is_some()
}

// ---------------------------------------------------------------------------
// Cutting at a character
// ---------------------------------------------------------------------------
/// The position of the first `c` in `s`; the length of `s` when there is none.
pub open spec fn cut_at(s: Seq<char>, c: char) -> nat
    decreases s.len(),
{
    if s.len() == 0 || s[0] == c {
        0
    } else {
        1 + cut_at(s.skip(1), c)
    }
}

/// What `cut_at` means, position by position.
pub proof fn lemma_cut_at(s: Seq<char>, c: char)
    ensures
        cut_at(s, c) <= s.len(),
        cut_at(s, c) < s.len() ==> s[cut_at(s, c) as int] == c,
        forall|j: int| 0 <= j < cut_at(s, c) ==> s[j] != c,
    decreases s.len(),
{
    if s.len() == 0 || s[0] == c {
    } else {
        lemma_cut_at(s.skip(1), c);
        assert forall|j: int| 0 <= j < cut_at(s, c) implies s[j] != c by {
            if j > 0 {
                assert(s.skip(1)[j - 1] != c);
            }
        }
    }
}

/// The first `c` is the one that no other precedes.
pub proof fn lemma_cut_at_is(s: Seq<char>, c: char, i: int)
    requires
        0 <= i <= s.len(),
        i < s.len() ==> s[i] == c,
        forall|j: int| 0 <= j < i ==> s[j] != c,
    ensures
        cut_at(s, c) == i,
{
    lemma_cut_at(s, c);
    if cut_at(s, c) < i {
        assert(s[cut_at(s, c) as int] != c);
    }
    if cut_at(s, c) > i {
        assert(s[i] != c);
    }
}

/// What stands before the first `c`; all of `s` when there is none.
pub open spec fn before_char(s: Seq<char>, c: char) -> Seq<char> {
    s.take(cut_at(s, c) as int)
}

/// What stands behind the first `c`; nothing when there is none.
pub open spec fn after_char(s: Seq<char>, c: char) -> Seq<char> {
    if cut_at(s, c) < s.len() {
        s.skip(cut_at(s, c) as int + 1)
    } else {
        Seq::empty()
    }
}

/// Whether `c` stands in `s`.
pub open spec fn has_char(s: Seq<char>, c: char) -> bool {
    cut_at(s, c) < s.len()
}

/// The position of the first `c`, or the length of `s`.
fn cut_position(s: &str, c: char) -> (r: (usize, usize))
    ensures
        r.0 == cut_at(s@, c),
        r.1 == s@.len(),
        r.0 <= r.1,
{
    let cs = chars_of(s);
    let n: usize = cs.len();
    let mut i: usize = 0;
    while i < n && cs[i] != c
        invariant
            i <= n,
            n == cs@.len(),
            cs@ == s@,
            forall|j: int| 0 <= j < i ==> s@[j] != c,
        decreases n - i,
    {
        i += 1;
    }
    proof {
        lemma_cut_at_is(s@, c, i as int);
    }
    (i, n)
}

/// Cuts `s` at its first `c`: what stands before it, and what stands behind
/// it when there is such a character.
pub fn cut(s: &str, c: char) -> (r: (&str, Option<&str>))
    ensures
        r.0@ == before_char(s@, c),
        r.1 is Some <==> has_char(s@, c),
        r.1 matches Some(rest) ==> rest@ == after_char(s@, c),
{
    let (i, n) = cut_position(s, c);
    assert(s@.subrange(0, i as int) == s@.take(i as int));
    if i < n {
        assert(s@.subrange(i + 1, n as int) == s@.skip(i + 1));
        (s.substring_char(0, i), Some(s.substring_char(i + 1, n)))
    } else {
        (s.substring_char(0, i), None)
    }
}

/// Cuts `s` at its last `c`.
pub open spec fn last_cut(s: Seq<char>, c: char) -> Option<(Seq<char>, Seq<char>)>
    decreases s.len(),
{
    if s.len() == 0 {
        None
    } else if s.last() == c {
        Some((s.drop_last(), Seq::empty()))
    } else {
        match last_cut(s.drop_last(), c) {
            Some((a, b)) => Some((a, b.push(s.last()))),
            None => None,
        }
    }
}

/// Cuts `s` at its last `c`: what stands before it, and what stands behind it.
pub fn rcut(s: &str, c: char) -> (r: Option<(&str, &str)>)
    ensures
        r is Some <==> last_cut(s@, c) is Some,
        r matches Some(p) ==> last_cut(s@, c) == Some((p.0@, p.1@)),
{
    let cs = chars_of(s);
    let n: usize = cs.len();
    let mut i: usize = n;
    assert(s@.take(n as int) == s@);
    assert(s@.subrange(n as int, n as int) == Seq::<char>::empty());
    assert(match last_cut(s@, c) {
        Some(p) => last_cut(s@, c) == Some((p.0, p.1 + s@.subrange(n as int, n as int))),
        None => true,
    });
    while i > 0 && cs[i - 1] != c
        invariant
            i <= n,
            n == cs@.len(),
            cs@ == s@,
            last_cut(s@, c) == (match last_cut(s@.take(i as int), c) {
                Some(p) => Some((p.0, p.1 + s@.subrange(i as int, n as int))),
                None => None,
            }),
        decreases i,
    {
        let ghost t = s@.take(i as int);
        assert(t.drop_last() == s@.take(i - 1));
        proof {
            match last_cut(t.drop_last(), c) {
                Some(p) => {
                    assert(p.1.push(s@[i - 1]) + s@.subrange(i as int, n as int) == p.1
                        + s@.subrange(i - 1, n as int));
                },
                None => {},
            }
        }
        i -= 1;
    }
    if i == 0 {
        None
    } else {
        let ghost t = s@.take(i as int);
        assert(t.drop_last() == s@.subrange(0, i - 1));
        assert(Seq::<char>::empty() + s@.subrange(i as int, n as int) == s@.subrange(
            i as int,
            n as int,
        ));
        Some((s.substring_char(0, i - 1), s.substring_char(i, n)))
    }
}

/// The pieces of `s` between the characters `c`.
pub open spec fn pieces(s: Seq<char>, c: char) -> Seq<Seq<char>>
    decreases s.len(),
    via pieces_shrink
{
    if has_char(s, c) {
        seq![before_char(s, c)] + pieces(after_char(s, c), c)
    } else {
        seq![s]
    }
}

#[via_fn]
proof fn pieces_shrink(s: Seq<char>, c: char) {
    lemma_cut_at(s, c);
}

/// The texts of a list.
pub open spec fn views(list: Seq<&str>) -> Seq<Seq<char>> {
    Seq::new(list.len(), |i: int| list[i]@)
}

/// The texts of a list of owned texts.
pub open spec fn string_views(list: Seq<String>) -> Seq<Seq<char>> {
    Seq::new(list.len(), |i: int| list[i]@)
}

pub fn split_on(s: &str, c: char) -> (r: Vec<&str>)
    ensures
        views(r@) == pieces(s@, c),
        r@.len() >= 1,
{
    let mut out: Vec<&str> = Vec::new();
    let mut rest: &str = s;
    assert(views(out@) + pieces(s@, c) == pieces(s@, c));
    loop
        invariant
            views(out@) + pieces(rest@, c) == pieces(s@, c),
        decreases rest@.len(),
    {
        let (head, tail) = cut(rest, c);
        let ghost before = out@;
        proof {
            lemma_cut_at(rest@, c);
        }
        out.push(head);
        match tail {
            Some(t) => {
                assert(views(out@) == views(before).push(head@));
                assert(views(before) + (seq![head@] + pieces(t@, c)) == views(out@) + pieces(
                    t@,
                    c,
                ));
                rest = t;
            },
            None => {
                assert(rest@.take(rest@.len() as int) == rest@);
                assert(views(out@) == views(before).push(head@));
                assert(views(before) + seq![head@] == views(out@));
                return out;
            },
        }
    }
}

/// The pieces joined again, with `sep` between them.
pub open spec fn joined(list: Seq<Seq<char>>, sep: Seq<char>) -> Seq<char>
    decreases list.len(),
{
    if list.len() == 0 {
        Seq::empty()
    } else if list.len() == 1 {
        list[0]
    } else {
        joined(list.drop_last(), sep) + sep + list.last()
    }
}

pub fn join_strs(list: &Vec<&str>, count: usize, sep: &str) -> (r: String)
    requires
        count <= list@.len(),
    ensures
        r@ == joined(views(list@).take(count as int), sep@),
{
    let mut out = String::new();
    for i in 0..count
        invariant
            count <= list@.len(),
            out@ == joined(views(list@).take(i as int), sep@),
    {
        let ghost t = views(list@).take(i + 1);
        assert(t.drop_last() == views(list@).take(i as int));
        assert(t.last() == list@[i as int]@);
        if i > 0 {
            out.append(sep);
        }
        out.append(list[i]);
        if i == 0 {
            assert(t.len() == 1);
            assert(out@ == t[0]);
        }
    }
    out
}

pub fn join_strings(list: &Vec<String>, sep: &str) -> (r: String)
    ensures
        r@ == joined(string_views(list@), sep@),
{
    let mut out = String::new();
    for i in 0..list.len()
        invariant
            out@ == joined(string_views(list@).take(i as int), sep@),
    {
        let ghost t = string_views(list@).take(i + 1);
        assert(t.drop_last() == string_views(list@).take(i as int));
        assert(t.last() == list@[i as int]@);
        if i > 0 {
            out.append(sep);
        }
        out.append(list[i].as_str());
        if i == 0 {
            assert(t.len() == 1);
            assert(out@ == t[0]);
        }
    }
    assert(string_views(list@).take(list@.len() as int) == string_views(list@));
    out
}

// ---------------------------------------------------------------------------
// Lines, words and character maps
// ---------------------------------------------------------------------------
/// Whether every character is an ASCII letter or digit, or one of `others`.
pub open spec fn made_of(s: Seq<char>, others: Seq<char>) -> bool {
    forall|i: int| 0 <= i < s.len() ==> is_alnum(#[trigger] s[i]) || others.contains(s[i])
}

/// Whether `c` is one of `others`.
fn among(c: char, others: &Vec<char>) -> (r: bool)
    ensures
        r == others@.contains(c),
{
    for i in 0..others.len()
        invariant
            forall|j: int| 0 <= j < i ==> others@[j] != c,
    {
        if others[i] == c {
            return true;
        }
    }
    false
}

/// Whether every character of `s` is an ASCII letter or digit, or in `others`.
pub fn is_made_of(s: &str, others: &str) -> (r: bool)
    ensures
        r == made_of(s@, others@),
{
    let cs = chars_of(s);
    let os = chars_of(others);
    for i in 0..cs.len()
        invariant
            cs@ == s@,
            os@ == others@,
            forall|j: int| 0 <= j < i ==> is_alnum(#[trigger] s@[j]) || others@.contains(s@[j]),
    {
        if !char_is_alnum(cs[i]) && !among(cs[i], &os) {
            assert(!(is_alnum(s@[i as int]) || others@.contains(s@[i as int])));
            return false;
        }
    }
    true
}

/// `s` with each character that is neither an ASCII letter or digit nor one of
/// `others` replaced by `to`.
pub open spec fn masked(s: Seq<char>, others: Seq<char>, to: char) -> Seq<char> {
    Seq::new(
        s.len(),
        |i: int|
            if is_alnum(s[i]) || others.contains(s[i]) {
                s[i]
            } else {
                to
            },
    )
}

pub fn mask(s: &str, others: &str, to: char) -> (r: String)
    ensures
        r@ == masked(s@, others@, to),
{
    let cs = chars_of(s);
    let os = chars_of(others);
    let mut out = String::new();
    let ghost goal = masked(s@, others@, to);
    for i in 0..cs.len()
        invariant
            cs@ == s@,
            os@ == others@,
            goal == masked(s@, others@, to),
            out@ == goal.take(i as int),
    {
        let c = cs[i];
        out.push(if char_is_alnum(c) || among(c, &os) { c } else { to });
        assert(goal.take(i + 1) =~= goal.take(i as int).push(goal[i as int]));
    }
    assert(goal.take(goal.len() as int) =~= goal);
    out
}

/// Masking a masked text changes nothing, where the mask may stay.
pub proof fn law_masking_twice_is_masking_once(s: Seq<char>, others: Seq<char>, to: char)
    requires
        is_alnum(to) || others.contains(to),
    ensures
        masked(masked(s, others, to), others, to) == masked(s, others, to),
        made_of(masked(s, others, to), others),
{
    assert(masked(masked(s, others, to), others, to) =~= masked(s, others, to));
}

/// The text of a list of characters.
pub fn text_of(cs: &Vec<char>) -> (r: String)
    ensures
        r@ == cs@,
{
    let mut out = String::new();
    for i in 0..cs.len()
        invariant
            out@ == cs@.take(i as int),
    {
        out.push(cs[i]);
        assert(cs@.take(i + 1) == cs@.take(i as int).push(cs@[i as int]));
    }
    assert(cs@.take(cs@.len() as int) == cs@);
    out
}

/// `line` without the carriage return that ends it.
pub open spec fn without_cr(line: Seq<char>) -> Seq<char> {
    if line.len() > 0 && line.last() == '\r' {
        line.drop_last()
    } else {
        line
    }
}

/// The lines of `s`: each ends before a line feed, or before a carriage
/// return and a line feed; a last line needs no line feed.
pub open spec fn lines(s: Seq<char>) -> Seq<Seq<char>>
    decreases s.len(),
    via lines_shrink
{
    if s.len() == 0 {
        Seq::empty()
    } else if has_char(s, '\n') {
        seq![without_cr(before_char(s, '\n'))] + lines(after_char(s, '\n'))
    } else {
        seq![s]
    }
}

#[via_fn]
proof fn lines_shrink(s: Seq<char>) {
    lemma_cut_at(s, '\n');
}

pub fn lines_of(s: &str) -> (r: Vec<&str>)
    ensures
        views(r@) == lines(s@),
{
    let mut out: Vec<&str> = Vec::new();
    let mut rest: &str = s;
    assert(views(out@) + lines(s@) == lines(s@));
    while !rest.is_empty()
        invariant
            views(out@) + lines(rest@) == lines(s@),
        ensures
            rest@.len() == 0,
            views(out@) + lines(rest@) == lines(s@),
        decreases rest@.len(),
    {
        let (head, tail) = cut(rest, '\n');
        let ghost before = out@;
        proof {
            lemma_cut_at(rest@, '\n');
        }
        match tail {
            Some(t) => {
                let n: usize = head.unicode_len();
                let line = if n > 0 && head.get_char(n - 1) == '\r' {
                    assert(head@.subrange(0, n - 1) == head@.drop_last());
                    head.substring_char(0, n - 1)
                } else {
                    head
                };
                out.push(line);
                assert(views(out@) == views(before).push(line@));
                assert(views(before) + (seq![line@] + lines(t@)) == views(out@) + lines(t@));
                rest = t;
            },
            None => {
                assert(rest@.take(rest@.len() as int) == rest@);
                out.push(head);
                assert(views(out@) == views(before).push(head@));
                assert(views(before) + seq![head@] == views(out@));
                return out;
            },
        }
    }
    assert(views(out@) + lines(rest@) == views(out@));
    out
}

/// The position of the first white space in `s`; its length when there is none.
pub open spec fn word_end(s: Seq<char>) -> nat
    decreases s.len(),
{
    if s.len() == 0 || is_space(s[0]) {
        0
    } else {
        1 + word_end(s.skip(1))
    }
}

/// `word_end` lies inside the text.
pub proof fn lemma_word_end(s: Seq<char>)
    ensures
        word_end(s) <= s.len(),
        s.len() > 0 && !is_space(s[0]) ==> word_end(s) > 0,
    decreases s.len(),
{
    if s.len() == 0 || is_space(s[0]) {
    } else {
        lemma_word_end(s.skip(1));
    }
}

/// Trimming never lengthens a text, and leaves no leading white space.
pub proof fn lemma_trimmed_start(s: Seq<char>)
    ensures
        trimmed_start(s).len() <= s.len(),
        trimmed_start(s).len() > 0 ==> !is_space(trimmed_start(s)[0]),
    decreases s.len(),
{
    if s.len() > 0 && is_space(s[0]) {
        lemma_trimmed_start(s.skip(1));
    }
}

/// The words of `s`, which white space parts.
pub open spec fn words(s: Seq<char>) -> Seq<Seq<char>>
    decreases s.len(),
    via words_shrink
{
    let t = trimmed_start(s);
    if t.len() == 0 {
        Seq::empty()
    } else {
        seq![t.take(word_end(t) as int)] + words(t.skip(word_end(t) as int))
    }
}

#[via_fn]
proof fn words_shrink(s: Seq<char>) {
    lemma_trimmed_start(s);
    lemma_word_end(trimmed_start(s));
}

/// Cuts the first word off a text that does not begin with white space.
fn first_word(t: &str) -> (r: (&str, &str))
    ensures
        r.0@ == t@.take(word_end(t@) as int),
        r.1@ == t@.skip(word_end(t@) as int),
{
    let cs = chars_of(t);
    let n: usize = cs.len();
    let mut i: usize = 0;
    assert(t@.skip(0) == t@);
    while i < n && !char_is_space(cs[i])
        invariant
            i <= n,
            n == cs@.len(),
            cs@ == t@,
            word_end(t@) == i + word_end(t@.skip(i as int)),
        decreases n - i,
    {
        assert(t@.skip(i as int).skip(1) == t@.skip(i + 1));
        i += 1;
    }
    assert(t@.subrange(0, i as int) == t@.take(i as int));
    assert(t@.subrange(i as int, n as int) == t@.skip(i as int));
    (t.substring_char(0, i), t.substring_char(i, n))
}

pub fn words_of(s: &str) -> (r: Vec<&str>)
    ensures
        views(r@) == words(s@),
{
    let mut out: Vec<&str> = Vec::new();
    let mut rest: &str = s;
    assert(views(out@) + words(s@) == words(s@));
    loop
        invariant
            views(out@) + words(rest@) == words(s@),
        decreases rest@.len(),
    {
        let t = trim_start(rest);
        if t.is_empty() {
            assert(views(out@) + words(rest@) == views(out@));
            return out;
        }
        let ghost before = out@;
        let (word, tail) = first_word(t);
        proof {
            lemma_trimmed_start(rest@);
            lemma_word_end(t@);
        }
        out.push(word);
        assert(views(out@) == views(before).push(word@));
        assert(views(before) + (seq![word@] + words(tail@)) == views(out@) + words(tail@));
        rest = tail;
    }
}

/// `s` with each `from` replaced by `to`.
pub open spec fn replaced(s: Seq<char>, from: char, to: char) -> Seq<char> {
    Seq::new(s.len(), |i: int| if s[i] == from { to } else { s[i] })
}

pub fn replace_char(s: &str, from: char, to: char) -> (r: String)
    ensures
        r@ == replaced(s@, from, to),
{
    let cs = chars_of(s);
    let mut out = String::new();
    for i in 0..cs.len()
        invariant
            cs@ == s@,
            out@ == replaced(s@, from, to).take(i as int),
    {
        out.push(if cs[i] == from { to } else { cs[i] });
        assert(replaced(s@, from, to).take(i + 1) == replaced(s@, from, to).take(i as int).push(
            replaced(s@, from, to)[i as int],
        ));
    }
    assert(replaced(s@, from, to).take(s@.len() as int) == replaced(s@, from, to));
    out
}

/// The first `n` characters of `s`, or all of it when it is shorter.
pub open spec fn clipped(s: Seq<char>, n: nat) -> Seq<char> {
    if s.len() <= n {
        s
    } else {
        s.take(n as int)
    }
}

pub fn clip(s: &str, n: usize) -> (r: &str)
    ensures
        r@ == clipped(s@, n as nat),
{
    let len: usize = s.unicode_len();
    if len <= n {
        s
    } else {
        assert(s@.subrange(0, n as int) == s@.take(n as int));
        s.substring_char(0, n)
    }
}

// ---------------------------------------------------------------------------
// Decimal numbers
// ---------------------------------------------------------------------------
/// The digit that stands for `d`.
pub open spec fn digit(d: nat) -> char {
    (('0' as u32) + d) as char
}

/// `n` in decimal, without leading zeros.
pub open spec fn decimal(n: nat) -> Seq<char>
    decreases n,
{
    if n < 10 {
        seq![digit(n)]
    } else {
        decimal(n / 10).push(digit(n % 10))
    }
}

/// Whether all of `s` is digits.
pub open spec fn all_digits(s: Seq<char>) -> bool {
    forall|i: int| 0 <= i < s.len() ==> is_digit(#[trigger] s[i])
}

/// Whether all of a text is digits, and it is not empty.
pub fn only_digits(s: &str) -> (r: bool)
    ensures
        r == (s@.len() > 0 && all_digits(s@)),
{
    let cs = chars_of(s);
    if cs.len() == 0 {
        return false;
    }
    for i in 0..cs.len()
        invariant
            cs@ == s@,
            forall|j: int| 0 <= j < i ==> is_digit(#[trigger] s@[j]),
    {
        if !char_is_digit(cs[i]) {
            assert(!is_digit(s@[i as int]));
            return false;
        }
    }
    true
}

/// The number that a row of digits stands for.
pub open spec fn digits_value(s: Seq<char>) -> nat
    decreases s.len(),
{
    if s.len() == 0 {
        0
    } else {
        (digits_value(s.drop_last()) * 10 + (s.last() as u32 - '0' as u32)) as nat
    }
}

/// The number that `s` stands for as an unsigned decimal of at most `max`:
/// one or more digits, behind an optional plus sign.
pub open spec fn parsed_uint(s: Seq<char>, max: nat) -> Option<nat> {
    let d = if s.len() > 0 && s[0] == '+' {
        s.skip(1)
    } else {
        s
    };
    if d.len() > 0 && all_digits(d) && digits_value(d) <= max {
        Some(digits_value(d))
    } else {
        None
    }
}

/// A longer row of digits stands for no smaller number.
pub proof fn lemma_digits_grow(s: Seq<char>, n: int)
    requires
        0 <= n <= s.len(),
        all_digits(s),
    ensures
        digits_value(s.take(n)) <= digits_value(s),
    decreases s.len(),
{
    if n == s.len() {
        assert(s.take(n) == s);
    } else {
        let t = s.drop_last();
        assert(all_digits(t));
        lemma_digits_grow(t, n);
        assert(t.take(n) == s.take(n));
        assert(is_digit(s.last()));
    }
}

fn digit_char(d: u8) -> (r: char)
    requires
        d < 10,
    ensures
        r == digit(d as nat),
{
    ('0' as u8 + d) as char
}

/// `n` written in decimal.
pub fn u64_text(n: u64) -> (r: String)
    ensures
        r@ == decimal(n as nat),
    decreases n,
{
    let last = digit_char((n % 10) as u8);
    let mut out = if n < 10 {
        String::new()
    } else {
        u64_text(n / 10)
    };
    let ghost before = out@;
    out.push(last);
    assert(n < 10 ==> out@ == seq![digit(n as nat)]);
    out
}

/// `n` in decimal, with a minus sign where it is negative.
pub open spec fn signed_decimal(n: int) -> Seq<char> {
    if n < 0 {
        seq!['-'] + decimal((-n) as nat)
    } else {
        decimal(n as nat)
    }
}

/// `n` written in decimal.
pub fn i64_text(n: i64) -> (r: String)
    ensures
        r@ == signed_decimal(n as int),
{
    if n < 0 {
        proof {
            reveal_strlit("-");
            assert("-"@ =~= seq!['-']);
        }
        let magnitude: u64 = if n == i64::MIN {
            0x8000_0000_0000_0000
        } else {
            (-n) as u64
        };
        add2("-", u64_text(magnitude).as_str())
    } else {
        u64_text(n as u64)
    }
}

/// Reads an unsigned decimal of at most `max`.
pub fn parse_uint(s: &str, max: u64) -> (r: Option<u64>)
    ensures
        r is Some <==> parsed_uint(s@, max as nat) is Some,
        r matches Some(n) ==> parsed_uint(s@, max as nat) == Some(n as nat),
{
    let cs = chars_of(s);
    let n: usize = cs.len();
    let start: usize = if n > 0 && cs[0] == '+' {
        1
    } else {
        0
    };
    let ghost d = s@.skip(start as int);
    assert(start == 0 ==> d == s@);
    if start == n {
        return None;
    }
    let mut acc: u64 = 0;
    let mut i: usize = start;
    assert(d.take(0) == Seq::<char>::empty());
    while i < n
        invariant
            start <= i <= n,
            n == cs@.len(),
            cs@ == s@,
            d == s@.skip(start as int),
            d.len() > 0,
            d == (if s@.len() > 0 && s@[0] == '+' {
                s@.skip(1)
            } else {
                s@
            }),
            acc == digits_value(d.take(i - start)),
            acc <= max,
            all_digits(d.take(i - start)),
        decreases n - i,
    {
        let c = cs[i];
        assert(d[i - start] == c);
        if !char_is_digit(c) {
            assert(!all_digits(d));
            return None;
        }
        let v: u64 = (c as u8 - '0' as u8) as u64;
        let ghost more = d.take(i - start + 1);
        proof {
            assert(more.drop_last() == d.take(i - start));
            assert(more.last() == c);
            assert forall|j: int| 0 <= j < more.len() implies is_digit(#[trigger] more[j]) by {
                if j < i - start {
                    assert(more[j] == d.take(i - start)[j]);
                }
            }
            if all_digits(d) {
                lemma_digits_grow(d, i - start + 1);
            }
        }
        if v > max || acc > (max - v) / 10 {
            assert(acc * 10 + v > max);
            return None;
        }
        acc = acc * 10 + v;
        i += 1;
    }
    assert(d.take(n - start) == d);
    Some(acc)
}

/// Reads an unsigned 64-bit decimal.
pub fn parse_u64(s: &str) -> (r: Option<u64>)
    ensures
        r is Some <==> parsed_uint(s@, u64::MAX as nat) is Some,
        r matches Some(n) ==> parsed_uint(s@, u64::MAX as nat) == Some(n as nat),
{
    parse_uint(s, u64::MAX)
}

/// Reads an unsigned 32-bit decimal.
pub fn parse_u32(s: &str) -> (r: Option<u32>)
    ensures
        r is Some <==> parsed_uint(s@, u32::MAX as nat) is Some,
        r matches Some(n) ==> parsed_uint(s@, u32::MAX as nat) == Some(n as nat),
{
    match parse_uint(s, u32::MAX as u64) {
        Some(n) => Some(n as u32),
        None => None,
    }
}

/// A number in decimal reads back as itself.
pub proof fn law_decimal_reads_back(n: nat, max: nat)
    requires
        n <= max,
    ensures
        parsed_uint(decimal(n), max) == Some(n),
{
    lemma_decimal(n);
}

/// What `decimal` gives: at least one character, all digits, worth `n`.
pub proof fn lemma_decimal(n: nat)
    ensures
        decimal(n).len() > 0,
        all_digits(decimal(n)),
        digits_value(decimal(n)) == n,
        decimal(n)[0] != '+',
        n > 0 ==> decimal(n)[0] != '0',
    decreases n,
{
    reveal_with_fuel(digits_value, 2);
    if n < 10 {
        assert(decimal(n).drop_last() == Seq::<char>::empty());
    } else {
        lemma_decimal(n / 10);
        let s = decimal(n);
        assert(s.drop_last() == decimal(n / 10));
        assert(is_digit(digit(n % 10)));
        assert(s[0] == decimal(n / 10)[0]);
        assert forall|i: int| 0 <= i < s.len() implies is_digit(#[trigger] s[i]) by {
            if i < s.len() - 1 {
                assert(s[i] == decimal(n / 10)[i]);
            }
        }
    }
}

// ---------------------------------------------------------------------------
// ASCII letter case
// ---------------------------------------------------------------------------
/// A character, with an ASCII capital in lower case.
pub open spec fn ascii_lower(c: char) -> char {
    if 'A' <= c && c <= 'Z' {
        ((c as u32) + 32) as char
    } else {
        c
    }
}

/// Whether two texts are the same but for the case of ASCII letters.
pub open spec fn same_but_case(a: Seq<char>, b: Seq<char>) -> bool {
    a.len() == b.len() && forall|i: int|
        0 <= i < a.len() ==> ascii_lower(#[trigger] a[i]) == ascii_lower(b[i])
}

fn lower_ascii(c: char) -> (r: char)
    ensures
        r == ascii_lower(c),
{
    if 'A' <= c && c <= 'Z' {
        (c as u8 + 32) as char
    } else {
        c
    }
}

/// Whether two texts are the same but for the case of ASCII letters.
pub fn eq_but_case(a: &str, b: &str) -> (r: bool)
    ensures
        r == same_but_case(a@, b@),
{
    let x = chars_of(a);
    let y = chars_of(b);
    if x.len() != y.len() {
        return false;
    }
    for i in 0..x.len()
        invariant
            x@ == a@,
            y@ == b@,
            x@.len() == y@.len(),
            forall|j: int| 0 <= j < i ==> ascii_lower(#[trigger] a@[j]) == ascii_lower(b@[j]),
    {
        if lower_ascii(x[i]) != lower_ascii(y[i]) {
            assert(ascii_lower(a@[i as int]) != ascii_lower(b@[i as int]));
            return false;
        }
    }
    true
}

/// Drops every `c` at the start of `s`.
pub fn trim_leading(s: &str, c: char) -> (r: &str)
    ensures
        r@ == without_leading(s@, c),
{
    let cs = chars_of(s);
    let n: usize = cs.len();
    let mut i: usize = 0;
    assert(s@.skip(0) == s@);
    while i < n && cs[i] == c
        invariant
            i <= n,
            n == cs@.len(),
            cs@ == s@,
            without_leading(s@, c) == without_leading(s@.skip(i as int), c),
        decreases n - i,
    {
        assert(s@.skip(i as int).skip(1) == s@.skip(i + 1));
        i += 1;
    }
    assert(s@.subrange(i as int, n as int) == s@.skip(i as int));
    s.substring_char(i, n)
}

/// The first word of a text, if it has one.
pub open spec fn first_word_in(s: Seq<char>) -> Option<Seq<char>> {
    if words(s).len() == 0 {
        None
    } else {
        Some(words(s)[0])
    }
}

/// The first word of a text, if it has one.
pub fn word_one(s: &str) -> (r: Option<&str>)
    ensures
        opt_view(r) == first_word_in(s@),
{
    let ws = words_of(s);
    if ws.len() == 0 {
        None
    } else {
        assert(views(ws@)[0] == ws@[0]@);
        Some(ws[0])
    }
}

/// A text cut at its last `c` is known where what stands behind holds none.
pub proof fn lemma_last_cut_is(before: Seq<char>, c: char, after: Seq<char>)
    requires
        forall|i: int| 0 <= i < after.len() ==> #[trigger] after[i] != c,
    ensures
        last_cut(before.push(c) + after, c) == Some((before, after)),
    decreases after.len(),
{
    let s = before.push(c) + after;
    if after.len() == 0 {
        assert(s =~= before.push(c));
        assert(s.drop_last() =~= before);
    } else {
        assert(s.last() == after.last());
        assert(s.drop_last() =~= before.push(c) + after.drop_last());
        lemma_last_cut_is(before, c, after.drop_last());
        assert(after.drop_last().push(after.last()) =~= after);
    }
}

/// What a cut at the last `c` gives: the parts of the text around it.
pub proof fn lemma_last_cut(s: Seq<char>, c: char)
    ensures
        last_cut(s, c) matches Some(p) ==> s == p.0.push(c) + p.1,
    decreases s.len(),
{
    if s.len() > 0 {
        if s.last() == c {
            assert(s =~= s.drop_last().push(c) + Seq::<char>::empty());
        } else {
            lemma_last_cut(s.drop_last(), c);
            match last_cut(s.drop_last(), c) {
                Some(p) => {
                    assert(s =~= s.drop_last().push(s.last()));
                    assert((p.0.push(c) + p.1).push(s.last()) =~= p.0.push(c) + p.1.push(s.last()));
                },
                None => {},
            }
        }
    }
}

/// What is left of a text once the characters before it are taken off.
pub proof fn lemma_without_leading(s: Seq<char>, c: char, n: nat)
    requires
        s.len() > 0 ==> s[0] != c,
    ensures
        without_leading(Seq::new(n, |k: int| c) + s, c) == s,
    decreases n,
{
    let t = Seq::new(n, |k: int| c) + s;
    if n > 0 {
        assert(t[0] == c);
        assert(t.skip(1) =~= Seq::new((n - 1) as nat, |k: int| c) + s);
        lemma_without_leading(s, c, (n - 1) as nat);
    } else {
        assert(t =~= s);
    }
}

/// What stands before and behind the first line end.
pub proof fn lemma_line_cut(line: Seq<char>, rest: Seq<char>)
    requires
        !has_char(line, '\n'),
    ensures
        before_char(line + seq!['\n'] + rest, '\n') == line,
        after_char(line + seq!['\n'] + rest, '\n') == rest,
        has_char(line + seq!['\n'] + rest, '\n'),
{
    let s = line + seq!['\n'] + rest;
    lemma_cut_at(line, '\n');
    assert forall|j: int| 0 <= j < line.len() implies s[j] != '\n' by {
        assert(s[j] == line[j]);
    }
    lemma_cut_at_is(s, '\n', line.len() as int);
    assert(s.take(line.len() as int) =~= line);
    assert(s.skip(line.len() as int + 1) =~= rest);
}

/// Two texts are the same but for case where they are as long, and every
/// character of the one is that of the other or the same ASCII letter, the one
/// small and the other a capital.
pub proof fn law_case_of_letters_is_all_that_differs(a: Seq<char>, b: Seq<char>)
    ensures
        same_but_case(a, b) <==> a.len() == b.len() && forall|i: int|
            0 <= i < a.len() ==> {
                ||| #[trigger] a[i] == b[i]
                ||| 'A' <= a[i] <= 'Z' && b[i] as u32 == a[i] as u32 + 32
                ||| 'A' <= b[i] <= 'Z' && a[i] as u32 == b[i] as u32 + 32
            },
{
    if same_but_case(a, b) {
        assert forall|i: int| 0 <= i < a.len() implies {
            ||| #[trigger] a[i] == b[i]
            ||| 'A' <= a[i] <= 'Z' && b[i] as u32 == a[i] as u32 + 32
            ||| 'A' <= b[i] <= 'Z' && a[i] as u32 == b[i] as u32 + 32
        } by {
            assert(ascii_lower(a[i]) == ascii_lower(b[i]));
        }
    }
}

/// The digits of a number, read as such, are the number; each is worth ten
/// times the one behind it.
pub proof fn law_decimal_digits(n: nat)
    ensures
        n < 10 ==> decimal(n).len() == 1 && decimal(n)[0] as u32 == '0' as u32 + n,
        n >= 10 ==> decimal(n).drop_last() == decimal(n / 10) && decimal(n).last() as u32 == '0' as u32
            + n % 10,
{
    assert(decimal(n / 10).push(digit(n % 10)).drop_last() =~= decimal(n / 10));
}

/// A text that is split at a character falls into the pieces on both sides of
/// it; one that holds none of them is one piece.
pub proof fn law_text_splits_at_each_mark(a: Seq<char>, c: char, b: Seq<char>)
    ensures
        pieces(a.push(c) + b, c) == pieces(a, c) + pieces(b, c),
        (forall|i: int| 0 <= i < a.len() ==> #[trigger] a[i] != c) ==> pieces(a, c) == seq![a],
    decreases a.len(),
{
    let s = a.push(c) + b;
    lemma_cut_at(a, c);
    lemma_cut_at(s, c);
    assert(s[a.len() as int] == c);
    if has_char(a, c) {
        let n = cut_at(a, c) as int;
        assert(a[n] == c);
        assert forall|j: int| 0 <= j < n implies s[j] != c by {
            assert(s[j] == a[j]);
        }
        assert(s[n] == a[n]);
        lemma_cut_at_is(s, c, n);
        assert(before_char(s, c) =~= before_char(a, c));
        assert(after_char(s, c) =~= after_char(a, c).push(c) + b);
        law_text_splits_at_each_mark(after_char(a, c), c, b);
        assert(pieces(s, c) =~= pieces(a, c) + pieces(b, c));
    } else {
        assert forall|j: int| 0 <= j < a.len() implies s[j] != c by {
            assert(s[j] == a[j]);
        }
        lemma_cut_at_is(s, c, a.len() as int);
        assert(before_char(s, c) =~= a);
        assert(after_char(s, c) =~= b);
        assert(pieces(s, c) =~= pieces(a, c) + pieces(b, c));
    }
}

/// Space at both ends of a text is taken off, and nothing else.
pub proof fn law_trimming_takes_the_space_around(before: Seq<char>, s: Seq<char>, after: Seq<char>)
    requires
        forall|i: int| 0 <= i < before.len() ==> is_space(#[trigger] before[i]),
        forall|i: int| 0 <= i < after.len() ==> is_space(#[trigger] after[i]),
        s.len() > 0 ==> !is_space(s[0]) && !is_space(s.last()),
    ensures
        trimmed(before + s + after) == s,
    decreases before.len() + after.len(),
{
    let all = before + s + after;
    if before.len() > 0 {
        let rest = before.skip(1);
        assert(all.skip(1) =~= rest + s + after);
        assert(is_space(before[0]));
        assert(all[0] == before[0]);
        law_trimming_takes_the_space_around(rest, s, after);
    } else if s.len() == 0 && after.len() > 0 {
        let rest = after.skip(1);
        assert(all.skip(1) =~= before + s + rest);
        assert(is_space(after[0]));
        assert(all[0] == after[0]);
        law_trimming_takes_the_space_around(before, s, rest);
    } else if after.len() > 0 {
        let rest = after.drop_last();
        assert(all.drop_last() =~= before + s + rest);
        assert(is_space(after[after.len() - 1]));
        assert(all[0] == s[0]);
        assert((before + s + rest)[0] == s[0]);
        law_trimming_takes_the_space_around(before, s, rest);
    } else {
        assert(all =~= s);
    }
}

/// Space is the blank, the tab and the line ends among the ASCII characters;
/// no printed ASCII character is.
pub proof fn law_ascii_space(c: char)
    requires
        (c as u32) < 0x80,
    ensures
        is_space(c) <==> c == ' ' || c == '\t' || c == '\n' || c == '\r' || c as u32 == 0xb || c as u32
            == 0xc,
{
}

/// A clipped text is the start of the text, no longer than asked.
pub proof fn law_clipping_keeps_the_start(s: Seq<char>, n: nat)
    ensures
        clipped(s, n).is_prefix_of(s),
        s.len() <= n ==> clipped(s, n) == s,
        s.len() > n ==> clipped(s, n).len() == n,
{
}

/// Texts are joined with the separator between each two.
pub proof fn law_joining_puts_the_separator_between(list: Seq<Seq<char>>, x: Seq<char>, sep: Seq<char>)
    ensures
        joined(Seq::empty(), sep) == Seq::<char>::empty(),
        joined(seq![x], sep) == x,
        list.len() > 0 ==> joined(list.push(x), sep) == joined(list, sep) + sep + x,
{
    assert(list.push(x).drop_last() =~= list);
}

/// A text falls into its lines, each without its end, whichever end it has; an
/// empty text has none.
pub proof fn law_text_falls_into_lines(line: Seq<char>, rest: Seq<char>)
    requires
        !has_char(line, '\n'),
    ensures
        lines(Seq::empty()).len() == 0,
        line.len() > 0 ==> lines(line) == seq![line],
        lines(line + seq!['\n']) == seq![without_cr(line)],
        lines(line + seq!['\n'] + rest) == seq![without_cr(line)] + lines(rest),
        without_cr(line.push('\r')) == line,
        line.len() > 0 && line.last() != '\r' ==> without_cr(line) == line,
{
    lemma_line_cut(line, rest);
    lemma_line_cut(line, Seq::empty());
    assert(line + seq!['\n'] + Seq::<char>::empty() =~= line + seq!['\n']);
    assert(seq![without_cr(line)] + lines(Seq::empty()) =~= seq![without_cr(line)]);
    assert(line.push('\r').drop_last() =~= line);
}

/// A text falls into its words at the space between them.
pub proof fn law_text_falls_into_words(word: Seq<char>, gap: char, rest: Seq<char>)
    requires
        word.len() > 0,
        forall|i: int| 0 <= i < word.len() ==> !is_space(#[trigger] word[i]),
        is_space(gap),
    ensures
        words(word.push(gap) + rest) == seq![word] + words(rest),
        words(seq![gap] + rest) == words(rest),
        words(word) == seq![word],
        words(Seq::empty()).len() == 0,
        first_word_in(word.push(gap) + rest) == Some(word),
        first_word_in(Seq::empty()) is None,
{
    let s = word.push(gap) + rest;
    assert(s[0] == word[0]);
    assert(trimmed_start(s) == s);
    lemma_word_end_is(word, seq![gap] + rest);
    assert(s =~= word + (seq![gap] + rest));
    assert(s.take(word.len() as int) =~= word);
    assert(s.skip(word.len() as int) =~= seq![gap] + rest);
    let g = seq![gap] + rest;
    assert(g[0] == gap);
    assert(g.skip(1) =~= rest);
    assert(trimmed_start(g) == trimmed_start(rest));
    assert(words(g) == words(rest));
    lemma_word_end_is(word, Seq::empty());
    assert(word + Seq::<char>::empty() =~= word);
    assert(trimmed_start(word) == word);
    assert(word.take(word.len() as int) =~= word);
    assert(word.skip(word.len() as int) =~= Seq::<char>::empty());
    assert(words(Seq::empty()).len() == 0);
    assert(words(word) =~= seq![word]);
    assert((seq![word] + words(rest))[0] == word);
}

proof fn lemma_word_end_is(word: Seq<char>, rest: Seq<char>)
    requires
        forall|i: int| 0 <= i < word.len() ==> !is_space(#[trigger] word[i]),
        rest.len() == 0 || is_space(rest[0]),
    ensures
        word_end(word + rest) == word.len(),
    decreases word.len(),
{
    let s = word + rest;
    if word.len() == 0 {
        assert(s =~= rest);
    } else {
        assert(s[0] == word[0]);
        assert(s.skip(1) =~= word.skip(1) + rest);
        assert forall|i: int| 0 <= i < word.skip(1).len() implies !is_space(
            #[trigger] word.skip(1)[i],
        ) by {
            assert(word.skip(1)[i] == word[i + 1]);
        }
        lemma_word_end_is(word.skip(1), rest);
    }
}

/// What stands before a suffix and behind a prefix is the rest of the text.
pub proof fn law_prefixes_and_suffixes_come_off(a: Seq<char>, b: Seq<char>)
    ensures
        after_prefix(a + b, a) == Some(b),
        before_suffix(a + b, b) == Some(a),
        a.len() > 0 && b.len() > 0 && a[0] != b[0] ==> after_prefix(a, b) is None,
        a.len() > 0 && b.len() > 0 && a.last() != b.last() ==> before_suffix(a, b) is None,
{
    let s = a + b;
    assert(s.subrange(0, a.len() as int) =~= a);
    assert(s.skip(a.len() as int) =~= b);
    assert(s.subrange(s.len() - b.len(), s.len() as int) =~= b);
    assert(s.take(s.len() - b.len()) =~= a);
    if a.len() > 0 && b.len() > 0 && b.is_prefix_of(a) {
        assert(a[0] == b[0]);
    }
    if a.len() > 0 && b.len() > 0 && b.is_suffix_of(a) {
        assert(a.last() == b.last());
    }
}

/// A text is cut at the first mark, or at the last, into what stands before and
/// behind it.
pub proof fn law_text_is_cut_at_a_mark(a: Seq<char>, p: Seq<char>, b: Seq<char>)
    ensures
        (forall|j: int| j < a.len() ==> !#[trigger] occurs_at(a + p + b, p, j)) ==> cut_text(a + p + b, p)
            == Some((a, b)),
        (forall|j: int| j > a.len() ==> !#[trigger] occurs_at(a + p + b, p, j)) ==> rcut_text(a + p + b, p)
            == Some((a, b)),
        !has_text(a, p) ==> cut_text(a, p) is None && rcut_text(a, p) is None,
{
    let s = a + p + b;
    let n = a.len() as int;
    assert(s.subrange(n, n + p.len()) =~= p);
    assert(occurs_at(s, p, n));
    assert(s.take(n) =~= a);
    assert(s.skip(n + p.len()) =~= b);
    if forall|j: int| j < a.len() ==> !#[trigger] occurs_at(s, p, j) {
        assert(first_at(s, p, n));
        let i = choose|i: int| first_at(s, p, i);
        assert(first_at(s, p, i));
        assert(i == n);
    }
    if forall|j: int| j > a.len() ==> !#[trigger] occurs_at(s, p, j) {
        assert(last_at(s, p, n));
        let i = choose|i: int| last_at(s, p, i);
        assert(last_at(s, p, i));
        assert(i == n);
    }
}

/// A character stands for another wherever it stands, and the rest is as it was.
pub proof fn law_characters_are_replaced(s: Seq<char>, from: char, to: char, i: int)
    requires
        0 <= i < s.len(),
    ensures
        replaced(s, from, to).len() == s.len(),
        s[i] == from ==> replaced(s, from, to)[i] == to,
        s[i] != from ==> replaced(s, from, to)[i] == s[i],
{
}

/// A number below zero has a minus before its digits.
pub proof fn law_minus_stands_before_the_digits(n: nat)
    ensures
        signed_decimal(n as int) == decimal(n),
        n > 0 ==> signed_decimal(-(n as int)) == seq!['-'] + decimal(n),
{
}

} // verus!

//! File paths as texts, with `/` between their parts. Paths that a guest names
//! are read as the platform reads them: on Windows `\` parts them too, and a
//! drive or a share may stand before them.
use crate::text;
use vstd::prelude::*;
use vstd::string::*;

verus! {

/// Whether a path starts at the root.
pub open spec fn is_absolute(p: Seq<char>) -> bool {
    p.len() > 0 && p[0] == '/'
}

pub fn absolute(p: &str) -> (r: bool)
    ensures
        r == is_absolute(p@),
{
    let n: usize = p.unicode_len();
    n > 0 && p.get_char(0) == '/'
}

/// `rel` seen from `base`: an absolute `rel` stands for itself.
pub open spec fn joined_path(base: Seq<char>, rel: Seq<char>) -> Seq<char> {
    if is_absolute(rel) || base.len() == 0 {
        rel
    } else if base.last() == '/' {
        base + rel
    } else {
        base.push('/') + rel
    }
}

pub fn join(base: &str, rel: &str) -> (r: String)
    ensures
        r@ == joined_path(base@, rel@),
{
    let n: usize = base.unicode_len();
    if absolute(rel) || n == 0 {
        return rel.to_owned();
    }
    let mut out = base.to_owned();
    if base.get_char(n - 1) != '/' {
        out.push('/');
    }
    out.append(rel);
    out
}

/// `a` and then `b` seen from `base`.
pub open spec fn joined2(base: Seq<char>, a: Seq<char>, b: Seq<char>) -> Seq<char> {
    joined_path(joined_path(base, a), b)
}

pub fn join2(base: &str, a: &str, b: &str) -> (r: String)
    ensures
        r@ == joined2(base@, a@, b@),
{
    join(join(base, a).as_str(), b)
}

/// `a`, then `b`, then `c` seen from `base`.
pub open spec fn joined3(base: Seq<char>, a: Seq<char>, b: Seq<char>, c: Seq<char>) -> Seq<char> {
    joined_path(joined2(base, a, b), c)
}

pub fn join3(base: &str, a: &str, b: &str, c: &str) -> (r: String)
    ensures
        r@ == joined3(base@, a@, b@, c@),
{
    join(join2(base, a, b).as_str(), c)
}

// ---------------------------------------------------------------------------
// Paths of a platform
// ---------------------------------------------------------------------------
/// A path with `/` between its parts.
pub open spec fn unified(p: Seq<char>, windows: bool) -> Seq<char> {
    if windows {
        text::replaced(p, '\\', '/')
    } else {
        p
    }
}

pub fn unify(p: &str, windows: bool) -> (r: String)
    ensures
        r@ == unified(p@, windows),
{
    if windows {
        text::replace_char(p, '\\', '/')
    } else {
        p.to_owned()
    }
}

/// Whether a path starts with a drive: a letter and a colon.
pub open spec fn has_drive(u: Seq<char>) -> bool {
    u.len() >= 2 && u[1] == ':' && ('a' <= u[0] <= 'z' || 'A' <= u[0] <= 'Z')
}

/// How long the share is that a path starts with: two slashes, the name of a
/// server and the name of a share. Nothing, where it starts with none. A share
/// may be named in the long form too, behind `//?/UNC/`.
pub open spec fn share_len(u: Seq<char>) -> nat {
    match text::after_prefix(u, "//?/UNC/"@) {
        Some(rest) => {
            let server = text::before_char(rest, '/');
            let share = text::before_char(text::after_char(rest, '/'), '/');
            8 + server.len() + (if share.len() > 0 {
                1 + share.len()
            } else {
                0
            })
        },
        None => short_share_len(u),
    }
}

/// How long the share is that a path starts with, in the short form.
pub open spec fn short_share_len(u: Seq<char>) -> nat {
    match text::after_prefix(u, "//"@) {
        Some(rest) => {
            let server = text::before_char(rest, '/');
            let share = text::before_char(text::after_char(rest, '/'), '/');
            if server.len() > 0 && share.len() > 0 {
                3 + server.len() + share.len()
            } else {
                0
            }
        },
        None => 0,
    }
}

/// How long the drive or share is that a path starts with.
pub open spec fn prefix_len(u: Seq<char>, windows: bool) -> nat {
    if !windows {
        0
    } else if has_drive(u) {
        2
    } else {
        share_len(u)
    }
}

proof fn lemma_prefix_len(u: Seq<char>, windows: bool)
    ensures
        prefix_len(u, windows) <= u.len(),
{
    reveal_strlit("//");
    reveal_strlit("//?/UNC/");
    if "//?/UNC/"@.is_prefix_of(u) {
        let rest = u.skip(8);
        text::lemma_cut_at(rest, '/');
        text::lemma_cut_at(text::after_char(rest, '/'), '/');
    }
    if "//"@.is_prefix_of(u) {
        let rest = u.skip(2);
        text::lemma_cut_at(rest, '/');
        text::lemma_cut_at(text::after_char(rest, '/'), '/');
    }
}

fn prefix_length(u: &str, windows: bool) -> (r: usize)
    ensures
        r == prefix_len(u@, windows),
        r <= u@.len(),
{
    let n: usize = u.unicode_len();
    proof {
        lemma_prefix_len(u@, windows);
    }
    if !windows {
        return 0;
    }
    if n >= 2 && u.get_char(1) == ':' {
        let c = u.get_char(0);
        if ('a' <= c && c <= 'z') || ('A' <= c && c <= 'Z') {
            return 2;
        }
    }
    match text::strip_prefix(u, "//?/UNC/") {
        Some(rest) => {
            let (server, behind) = text::cut(rest, '/');
            let a: usize = server.unicode_len();
            let b: usize = match behind {
                Some(behind) => text::cut(behind, '/').0.unicode_len(),
                None => {
                    proof {
                        text::lemma_cut_at(Seq::<char>::empty(), '/');
                    }
                    0
                },
            };
            return if b > 0 {
                9 + a + b
            } else {
                8 + a
            };
        },
        None => {},
    }
    match text::strip_prefix(u, "//") {
        Some(rest) => {
            let (server, behind) = text::cut(rest, '/');
            match behind {
                Some(behind) => {
                    let (share, _) = text::cut(behind, '/');
                    let a: usize = server.unicode_len();
                    let b: usize = share.unicode_len();
                    if a > 0 && b > 0 {
                        3 + a + b
                    } else {
                        0
                    }
                },
                None => {
                    proof {
                        text::lemma_cut_at(Seq::<char>::empty(), '/');
                    }
                    0
                },
            }
        },
        None => 0,
    }
}

/// The drive or share that a path starts with.
pub fn prefix_of(u: &str, windows: bool) -> (r: &str)
    ensures
        r@ == u@.take(prefix_len(u@, windows) as int),
{
    let n: usize = prefix_length(u, windows);
    assert(u@.subrange(0, n as int) =~= u@.take(n as int));
    u.substring_char(0, n)
}

/// `rel` seen from `base`, as the platform sees it: a `rel` with a drive or
/// share stands for itself, and one that starts at the root is on the drive or
/// share of `base`.
pub open spec fn joined_on(base: Seq<char>, rel: Seq<char>, windows: bool) -> Seq<char> {
    let b = unified(base, windows);
    let r = unified(rel, windows);
    if prefix_len(r, windows) > 0 {
        r
    } else if is_absolute(r) {
        b.take(prefix_len(b, windows) as int) + r
    } else if windows && b.len() == 2 && has_drive(b) {
        b + r
    } else {
        joined_path(b, r)
    }
}

pub fn join_on(base: &str, rel: &str, windows: bool) -> (r: String)
    ensures
        r@ == joined_on(base@, rel@, windows),
{
    let b = unify(base, windows);
    let r = unify(rel, windows);
    if prefix_length(r.as_str(), windows) > 0 {
        return r;
    }
    let n: usize = prefix_length(b.as_str(), windows);
    if absolute(r.as_str()) {
        assert(b@.subrange(0, n as int) =~= b@.take(n as int));
        return text::add2(b.as_str().substring_char(0, n), r.as_str());
    }
    if n == 2 && b.as_str().unicode_len() == 2 {
        proof {
            if windows && !has_drive(b@) {
                assert(share_len(b@) == 0 || share_len(b@) > 2);
            }
        }
        return text::add2(b.as_str(), r.as_str());
    }
    join(b.as_str(), r.as_str())
}

// ---------------------------------------------------------------------------
// Normal form
// ---------------------------------------------------------------------------
/// A path in normal form: the drive or share that it is on, whether it starts
/// at the root, and its parts, of which none is empty, `.` or `..`.
#[verifier::ext_equal]
pub struct NormalView {
    pub prefix: Seq<char>,
    pub absolute: bool,
    pub parts: Seq<Seq<char>>,
}

/// Walks the segments of a path from left to right. `..` takes the last part
/// away; where there is none, the path has no normal form.
pub open spec fn walked(segments: Seq<Seq<char>>) -> Option<Seq<Seq<char>>>
    decreases segments.len(),
{
    if segments.len() == 0 {
        Some(Seq::empty())
    } else {
        let s = segments.last();
        match walked(segments.drop_last()) {
            None => None,
            Some(parts) => if s.len() == 0 || s == "."@ {
                Some(parts)
            } else if s == ".."@ {
                if parts.len() == 0 {
                    None
                } else {
                    Some(parts.drop_last())
                }
            } else {
                Some(parts.push(s))
            },
        }
    }
}

/// What stands behind the drive or share of a path.
pub open spec fn behind_prefix(p: Seq<char>, windows: bool) -> Seq<char> {
    let u = unified(p, windows);
    u.skip(prefix_len(u, windows) as int)
}

/// The normal form of a path, if it has one. What is on a share starts at its
/// root.
pub open spec fn normalized(p: Seq<char>, windows: bool) -> Option<NormalView> {
    let u = unified(p, windows);
    let n = prefix_len(u, windows);
    let rest = behind_prefix(p, windows);
    match walked(text::pieces(rest, '/')) {
        Some(parts) => Some(
            NormalView { prefix: u.take(n as int), absolute: is_absolute(rest) || n > 2, parts },
        ),
        None => None,
    }
}

/// A normal form as a path.
pub open spec fn rendered(n: NormalView) -> Seq<char> {
    if n.absolute {
        n.prefix + (seq!['/'] + text::joined(n.parts, seq!['/']))
    } else {
        n.prefix + text::joined(n.parts, seq!['/'])
    }
}

/// Whether two paths are on the same drive or share. The letter of a drive may
/// be of either case.
pub open spec fn same_prefix(a: Seq<char>, b: Seq<char>) -> bool {
    a == b || (a.len() == 2 && text::same_but_case(a, b))
}

/// Whether `p` is `root` or lies below it, part by part. The empty relative
/// path has everything below it.
pub open spec fn is_under(p: NormalView, root: NormalView) -> bool {
    if root.parts.len() == 0 && !root.absolute {
        root.prefix.len() == 0 || same_prefix(p.prefix, root.prefix)
    } else {
        same_prefix(p.prefix, root.prefix) && p.absolute == root.absolute
            && root.parts.is_prefix_of(p.parts)
    }
}

/// A path in normal form.
pub struct NormalPath {
    pub prefix: String,
    pub absolute: bool,
    pub parts: Vec<String>,
}

impl View for NormalPath {
    type V = NormalView;

    open spec fn view(&self) -> NormalView {
        NormalView {
            prefix: self.prefix@,
            absolute: self.absolute,
            parts: text::string_views(self.parts@),
        }
    }
}

/// Brings a path into normal form.
pub fn normalize(p: &str, windows: bool) -> (r: Option<NormalPath>)
    ensures
        match r {
            Some(n) => normalized(p@, windows) == Some(n@),
            None => normalized(p@, windows) is None,
        },
{
    let unified_path = unify(p, windows);
    let u = unified_path.as_str();
    let n: usize = prefix_length(u, windows);
    let rest = u.substring_char(n, u.unicode_len());
    assert(rest@ =~= behind_prefix(p@, windows));
    let segments = text::split_on(rest, '/');
    let ghost segs = text::views(segments@);
    let mut parts: Vec<String> = Vec::new();
    assert(text::string_views(parts@) =~= Seq::<Seq<char>>::empty());
    assert(segs.take(0) =~= Seq::<Seq<char>>::empty());
    for i in 0..segments.len()
        invariant
            segs == text::views(segments@),
            segs == text::pieces(behind_prefix(p@, windows), '/'),
            walked(segs.take(i as int)) == Some(text::string_views(parts@)),
    {
        let s: &str = segments[i];
        let ghost head = segs.take(i + 1);
        let ghost before = text::string_views(parts@);
        assert(head.drop_last() =~= segs.take(i as int));
        assert(head.last() == s@);
        if s.is_empty() || text::str_eq(s, ".") {
        } else if text::str_eq(s, "..") {
            if parts.len() == 0 {
                proof {
                    lemma_walk_fails(segs, i + 1);
                }
                return None;
            }
            let _ = parts.pop();
            assert(text::string_views(parts@) =~= before.drop_last());
        } else {
            parts.push(s.to_owned());
            assert(text::string_views(parts@) =~= before.push(s@));
        }
    }
    assert(segs.take(segs.len() as int) =~= segs);
    assert(u@.subrange(0, n as int) =~= u@.take(n as int));
    Some(
        NormalPath {
            prefix: u.substring_char(0, n).to_owned(),
            absolute: absolute(rest) || n > 2,
            parts,
        },
    )
}

/// A walk that fails stays failed.
proof fn lemma_walk_fails(segments: Seq<Seq<char>>, n: int)
    requires
        0 <= n <= segments.len(),
        walked(segments.take(n)) is None,
    ensures
        walked(segments) is None,
    decreases segments.len(),
{
    if n == segments.len() {
        assert(segments.take(n) =~= segments);
    } else {
        let t = segments.drop_last();
        assert(t.take(n) =~= segments.take(n));
        lemma_walk_fails(t, n);
    }
}

fn on_same_prefix(a: &str, b: &str) -> (r: bool)
    ensures
        r == same_prefix(a@, b@),
{
    text::str_eq(a, b) || (a.unicode_len() == 2 && text::eq_but_case(a, b))
}

impl NormalPath {
    /// This path as a text.
    pub fn render(&self) -> (r: String)
        ensures
            r@ == rendered(self@),
    {
        proof {
            reveal_strlit("/");
            assert("/"@ =~= seq!['/']);
        }
        let joined = text::join_strings(&self.parts, "/");
        if self.absolute {
            let r = text::add3(self.prefix.as_str(), "/", joined.as_str());
            assert(r@ =~= self.prefix@ + (seq!['/'] + joined@));
            r
        } else {
            text::add2(self.prefix.as_str(), joined.as_str())
        }
    }

    /// Whether this path is `root` or lies below it.
    pub fn under(&self, root: &NormalPath) -> (r: bool)
        ensures
            r == is_under(self@, root@),
    {
        let on_same = on_same_prefix(self.prefix.as_str(), root.prefix.as_str());
        if root.parts.len() == 0 && !root.absolute {
            return root.prefix.as_str().is_empty() || on_same;
        }
        if !on_same || self.absolute != root.absolute || root.parts.len() > self.parts.len() {
            return false;
        }
        for i in 0..root.parts.len()
            invariant
                root.parts@.len() <= self.parts@.len(),
                root.parts@.len() > 0 || root.absolute,
                forall|k: int| 0 <= k < i ==> (#[trigger] root.parts@[k])@ == self.parts@[k]@,
        {
            if !text::str_eq(root.parts[i].as_str(), self.parts[i].as_str()) {
                proof {
                    let a = self@.parts;
                    let b = root@.parts;
                    assert(a[i as int] != b[i as int]);
                    if b.is_prefix_of(a) {
                        assert(a.take(b.len() as int)[i as int] == b[i as int]);
                    }
                }
                return false;
            }
        }
        proof {
            let a = self@.parts;
            let b = root@.parts;
            assert forall|k: int| 0 <= k < b.len() implies a[k] == b[k] by {
                assert(root.parts@[k]@ == self.parts@[k]@);
            }
            assert(b =~= a.subrange(0, b.len() as int));
        }
        true
    }
}

/// The normal form of a path as a text.
pub open spec fn normal_text(p: Seq<char>, windows: bool) -> Option<Seq<char>> {
    match normalized(p, windows) {
        Some(n) => Some(rendered(n)),
        None => None,
    }
}

/// Resolves `.` and `..` in a path by its text alone. A path that climbs above
/// its start gives `None`.
pub fn normalize_lexically(p: &str, windows: bool) -> (r: Option<String>)
    ensures
        text::opt_string_view(r) == normal_text(p@, windows),
{
    match normalize(p, windows) {
        Some(n) => Some(n.render()),
        None => None,
    }
}

/// No part of a normal form is empty, `.` or `..`, nor does any hold what parts
/// the path on its platform.
pub proof fn law_normal_form_has_no_dots(p: Seq<char>, windows: bool, i: int)
    requires
        normalized(p, windows) is Some,
        0 <= i < normalized(p, windows)->0.parts.len(),
    ensures
        normalized(p, windows)->0.parts[i].len() > 0,
        normalized(p, windows)->0.parts[i] != "."@,
        normalized(p, windows)->0.parts[i] != ".."@,
        !normalized(p, windows)->0.parts[i].contains('/'),
        windows ==> !normalized(p, windows)->0.parts[i].contains('\\'),
{
    let rest = behind_prefix(p, windows);
    let u = unified(p, windows);
    lemma_prefix_len(u, windows);
    assert forall|k: int| 0 <= k < rest.len() && windows implies rest[k] != '\\' by {
        assert(rest[k] == u[k + prefix_len(u, windows)]);
    }
    lemma_pieces_hold(rest, '/');
    lemma_walked_parts(text::pieces(rest, '/'), i);
    let part = normalized(p, windows)->0.parts[i];
    let j = choose|j: int|
        0 <= j < text::pieces(rest, '/').len() && #[trigger] text::pieces(rest, '/')[j] == part;
    assert(piece_is_clean(rest, text::pieces(rest, '/')[j], '/'));
}

/// Whether a piece of a text holds no `c`, and nothing that the text does not.
spec fn piece_is_clean(s: Seq<char>, piece: Seq<char>, c: char) -> bool {
    !piece.contains(c) && forall|d: char| #[trigger] piece.contains(d) ==> s.contains(d)
}

proof fn lemma_pieces_hold(s: Seq<char>, c: char)
    ensures
        forall|j: int|
            0 <= j < text::pieces(s, c).len() ==> piece_is_clean(
                s,
                #[trigger] text::pieces(s, c)[j],
                c,
            ),
    decreases s.len(),
{
    text::lemma_cut_at(s, c);
    let n = text::cut_at(s, c) as int;
    let first = text::before_char(s, c);
    assert(piece_is_clean(s, first, c)) by {
        assert forall|d: char| #[trigger] first.contains(d) implies s.contains(d) by {
            let k = choose|k: int| 0 <= k < first.len() && first[k] == d;
            assert(s[k] == d);
        }
        if first.contains(c) {
            let k = choose|k: int| 0 <= k < first.len() && first[k] == c;
            assert(s[k] == c);
        }
    }
    if n < s.len() {
        let rest = s.skip(n + 1);
        lemma_pieces_hold(rest, c);
        assert forall|j: int| 0 <= j < text::pieces(s, c).len() implies piece_is_clean(
            s,
            #[trigger] text::pieces(s, c)[j],
            c,
        ) by {
            if j > 0 {
                let piece = text::pieces(rest, c)[j - 1];
                assert(piece_is_clean(rest, piece, c));
                assert forall|d: char| #[trigger] piece.contains(d) implies s.contains(d) by {
                    let k = choose|k: int| 0 <= k < rest.len() && rest[k] == d;
                    assert(s[k + n + 1] == d);
                }
                assert(text::pieces(s, c)[j] == piece);
            } else {
                assert(text::pieces(s, c)[0] == first);
            }
        }
    } else {
        assert forall|j: int| 0 <= j < text::pieces(s, c).len() implies piece_is_clean(
            s,
            #[trigger] text::pieces(s, c)[j],
            c,
        ) by {
            assert(first =~= s);
        }
    }
}

proof fn lemma_walked_parts(segments: Seq<Seq<char>>, i: int)
    requires
        walked(segments) is Some,
        0 <= i < walked(segments)->0.len(),
    ensures
        walked(segments)->0[i].len() > 0,
        walked(segments)->0[i] != "."@,
        walked(segments)->0[i] != ".."@,
        exists|j: int| 0 <= j < segments.len() && #[trigger] segments[j] == walked(segments)->0[i],
    decreases segments.len(),
{
    if segments.len() > 0 {
        let t = segments.drop_last();
        if i < walked(t)->0.len() {
            lemma_walked_parts(t, i);
            let j = choose|j: int| 0 <= j < t.len() && #[trigger] t[j] == walked(t)->0[i];
            assert(segments[j] == walked(segments)->0[i]);
        } else {
            assert(segments[segments.len() - 1] == walked(segments)->0[i]);
        }
    }
}

// ---------------------------------------------------------------------------
// The same path
// ---------------------------------------------------------------------------
/// What a path names, part by part.
#[verifier::ext_equal]
pub struct PathView {
    pub absolute: bool,
    pub parts: Seq<Seq<char>>,
}

/// The segments of a path that say something: empty ones do not, nor does `.`
/// but at the start of a relative path.
pub open spec fn said_parts(segments: Seq<Seq<char>>, absolute: bool) -> Seq<Seq<char>>
    decreases segments.len(),
{
    if segments.len() == 0 {
        Seq::empty()
    } else {
        let before = said_parts(segments.drop_last(), absolute);
        let s = segments.last();
        if s.len() == 0 || (s == "."@ && (absolute || segments.len() > 1)) {
            before
        } else {
            before.push(s)
        }
    }
}

/// What a path names. Two texts may name the same, as `/p` and `/p/` do.
pub open spec fn components(p: Seq<char>) -> PathView {
    PathView {
        absolute: is_absolute(p),
        parts: said_parts(text::pieces(p, '/'), is_absolute(p)),
    }
}

/// Whether two texts name the same path.
pub open spec fn same_path(a: Seq<char>, b: Seq<char>) -> bool {
    components(a) == components(b)
}

fn parts_of(p: &str) -> (r: Vec<String>)
    ensures
        text::string_views(r@) == components(p@).parts,
{
    let from_root = absolute(p);
    let segments = text::split_on(p, '/');
    let ghost segs = text::views(segments@);
    let mut parts: Vec<String> = Vec::new();
    assert(text::string_views(parts@) =~= Seq::<Seq<char>>::empty());
    assert(segs.take(0) =~= Seq::<Seq<char>>::empty());
    for i in 0..segments.len()
        invariant
            segs == text::views(segments@),
            segs == text::pieces(p@, '/'),
            from_root == is_absolute(p@),
            said_parts(segs.take(i as int), from_root) == text::string_views(parts@),
    {
        let s: &str = segments[i];
        let ghost head = segs.take(i + 1);
        let ghost before = text::string_views(parts@);
        assert(head.drop_last() =~= segs.take(i as int));
        assert(head.last() == s@);
        if !(s.is_empty() || (text::str_eq(s, ".") && (from_root || i > 0))) {
            parts.push(s.to_owned());
            assert(text::string_views(parts@) =~= before.push(s@));
        }
    }
    assert(segs.take(segs.len() as int) =~= segs);
    parts
}

/// Whether two texts name the same path.
pub fn same(a: &str, b: &str) -> (r: bool)
    ensures
        r == same_path(a@, b@),
{
    if absolute(a) != absolute(b) {
        return false;
    }
    let x = parts_of(a);
    let y = parts_of(b);
    let ghost xs = components(a@).parts;
    let ghost ys = components(b@).parts;
    if x.len() != y.len() {
        assert(xs.len() != ys.len());
        return false;
    }
    for i in 0..x.len()
        invariant
            x@.len() == y@.len(),
            xs == text::string_views(x@),
            ys == text::string_views(y@),
            xs == components(a@).parts,
            ys == components(b@).parts,
            forall|j: int| 0 <= j < i ==> #[trigger] xs[j] == ys[j],
    {
        assert(xs[i as int] == x@[i as int]@ && ys[i as int] == y@[i as int]@);
        if !text::str_eq(x[i].as_str(), y[i].as_str()) {
            return false;
        }
    }
    assert(xs =~= ys);
    true
}

/// The parts of a path, each with a `/` behind it.
pub open spec fn keyed(parts: Seq<Seq<char>>) -> Seq<char>
    decreases parts.len(),
{
    if parts.len() == 0 {
        Seq::empty()
    } else {
        keyed(parts.drop_last()) + parts.last().push('/')
    }
}

/// The text under which a path is kept in a table, whichever way it is written.
pub open spec fn key(p: Seq<char>) -> Seq<char> {
    if components(p).absolute {
        seq!['/'] + keyed(components(p).parts)
    } else {
        keyed(components(p).parts)
    }
}

/// The text under which a path is kept in a table.
pub fn key_of(p: &str) -> (r: String)
    ensures
        r@ == key(p@),
{
    let parts = parts_of(p);
    let ghost all = components(p@).parts;
    let mut out = if absolute(p) {
        "/".to_owned()
    } else {
        "".to_owned()
    };
    let ghost head = out@;
    proof {
        reveal_strlit("/");
        reveal_strlit("");
        assert(all.take(0) =~= Seq::<Seq<char>>::empty());
        assert(out@ =~= head + keyed(all.take(0)));
    }
    for i in 0..parts.len()
        invariant
            all == text::string_views(parts@),
            out@ == head + keyed(all.take(i as int)),
    {
        let ghost before = out@;
        out.append(parts[i].as_str());
        out.push('/');
        assert(all.take(i + 1).drop_last() =~= all.take(i as int));
        assert(all.take(i + 1).last() == parts@[i as int]@);
        assert(out@ =~= head + keyed(all.take(i + 1)));
    }
    assert(all.take(all.len() as int) =~= all);
    proof {
        if is_absolute(p@) {
            assert(head =~= seq!['/']);
        } else {
            assert(head + keyed(all) =~= keyed(all));
        }
    }
    out
}

proof fn lemma_keyed_front(parts: Seq<Seq<char>>)
    requires
        parts.len() > 0,
    ensures
        keyed(parts) == parts[0].push('/') + keyed(parts.skip(1)),
    decreases parts.len(),
{
    let t = parts.drop_last();
    if parts.len() == 1 {
        assert(parts.skip(1) =~= Seq::<Seq<char>>::empty());
        assert(t =~= Seq::<Seq<char>>::empty());
        assert(keyed(parts) =~= parts[0].push('/') + keyed(parts.skip(1)));
    } else {
        lemma_keyed_front(t);
        assert(t.skip(1) =~= parts.skip(1).drop_last());
        assert(keyed(parts) =~= parts[0].push('/') + keyed(parts.skip(1)));
    }
}

/// What was keyed is told by the pieces of the key.
proof fn lemma_pieces_of_keyed(parts: Seq<Seq<char>>)
    requires
        forall|i: int| 0 <= i < parts.len() ==> !(#[trigger] parts[i]).contains('/'),
    ensures
        text::pieces(keyed(parts), '/') == parts.push(Seq::empty()),
    decreases parts.len(),
{
    let s = keyed(parts);
    text::lemma_cut_at(s, '/');
    if parts.len() == 0 {
        assert(text::pieces(s, '/') =~= parts.push(Seq::empty()));
    } else {
        lemma_keyed_front(parts);
        let rest = parts.skip(1);
        let n = parts[0].len() as int;
        assert(s[n] == '/');
        assert forall|k: int| 0 <= k < n implies s[k] != '/' by {
            assert(s[k] == parts[0][k]);
            assert(!parts[0].contains('/'));
        }
        assert(text::cut_at(s, '/') == n);
        assert(text::before_char(s, '/') =~= parts[0]);
        assert(text::after_char(s, '/') =~= keyed(rest));
        assert forall|i: int| 0 <= i < rest.len() implies !(#[trigger] rest[i]).contains('/') by {
            assert(rest[i] == parts[i + 1]);
        }
        lemma_pieces_of_keyed(rest);
        assert(text::pieces(s, '/') =~= parts.push(Seq::empty()));
    }
}

/// What a path says is made of its segments that are not empty.
proof fn lemma_said_parts(segments: Seq<Seq<char>>, absolute: bool, i: int)
    requires
        0 <= i < said_parts(segments, absolute).len(),
    ensures
        said_parts(segments, absolute)[i].len() > 0,
        exists|j: int|
            0 <= j < segments.len() && #[trigger] segments[j] == said_parts(segments, absolute)[i],
    decreases segments.len(),
{
    let t = segments.drop_last();
    let before = said_parts(t, absolute);
    if i < before.len() {
        lemma_said_parts(t, absolute, i);
        let j = choose|j: int| 0 <= j < t.len() && #[trigger] t[j] == before[i];
        assert(segments[j] == before[i]);
    } else {
        assert(segments[segments.len() - 1] == said_parts(segments, absolute)[i]);
    }
}

proof fn lemma_parts_are_clean(p: Seq<char>)
    ensures
        forall|i: int|
            0 <= i < components(p).parts.len() ==> (#[trigger] components(p).parts[i]).len() > 0
                && !components(p).parts[i].contains('/'),
{
    let segments = text::pieces(p, '/');
    lemma_pieces_hold(p, '/');
    assert forall|i: int| 0 <= i < components(p).parts.len() implies (
    #[trigger] components(p).parts[i]).len() > 0 && !components(p).parts[i].contains('/') by {
        lemma_said_parts(segments, is_absolute(p), i);
        let j = choose|j: int|
            0 <= j < segments.len() && #[trigger] segments[j] == components(p).parts[i];
        assert(piece_is_clean(p, segments[j], '/'));
    }
}

/// A table keeps a path under one text, whichever way it is written, and two
/// paths under two.
pub proof fn law_key_tells_the_path(a: Seq<char>, b: Seq<char>)
    ensures
        key(a) == key(b) <==> same_path(a, b),
{
    let x = components(a);
    let y = components(b);
    lemma_parts_are_clean(a);
    lemma_parts_are_clean(b);
    lemma_pieces_of_keyed(x.parts);
    lemma_pieces_of_keyed(y.parts);
    if x.parts.len() > 0 {
        lemma_keyed_front(x.parts);
        assert(x.parts[0].len() > 0 && !x.parts[0].contains('/'));
        assert(keyed(x.parts)[0] == x.parts[0][0]);
        assert(x.parts[0].contains(x.parts[0][0]));
    }
    if y.parts.len() > 0 {
        lemma_keyed_front(y.parts);
        assert(y.parts[0].len() > 0 && !y.parts[0].contains('/'));
        assert(keyed(y.parts)[0] == y.parts[0][0]);
        assert(y.parts[0].contains(y.parts[0][0]));
    }
    if key(a) == key(b) {
        if x.absolute {
            assert(key(a)[0] == '/');
        }
        if y.absolute {
            assert(key(b)[0] == '/');
        }
        assert(x.absolute == y.absolute);
        if x.absolute {
            assert(key(a).skip(1) =~= keyed(x.parts));
            assert(key(b).skip(1) =~= keyed(y.parts));
        }
        assert(x.parts.push(Seq::empty()).drop_last() =~= x.parts);
        assert(y.parts.push(Seq::empty()).drop_last() =~= y.parts);
    }
}

/// Whether a path is among some.
pub open spec fn lists_path(list: Seq<String>, p: Seq<char>) -> bool {
    exists|i: int| 0 <= i < list.len() && same_path((#[trigger] list[i])@, p)
}

/// Whether a path is among some, each as its text.
pub open spec fn names_path(list: Seq<Seq<char>>, p: Seq<char>) -> bool {
    exists|i: int| 0 <= i < list.len() && same_path(#[trigger] list[i], p)
}

pub fn list_contains_path(list: &Vec<String>, p: &str) -> (r: bool)
    ensures
        r == lists_path(list@, p@),
{
    for i in 0..list.len()
        invariant
            forall|j: int| 0 <= j < i ==> !same_path((#[trigger] list@[j])@, p@),
    {
        if same(list[i].as_str(), p) {
            assert(same_path(list@[i as int]@, p@));
            return true;
        }
    }
    false
}

// ---------------------------------------------------------------------------
// Names
// ---------------------------------------------------------------------------
/// What stands behind the last `/` of a path.
pub open spec fn last_segment(p: Seq<char>) -> Seq<char> {
    match text::last_cut(p, '/') {
        Some((_, name)) => name,
        None => p,
    }
}

pub fn last_segment_of(p: &str) -> (r: &str)
    ensures
        r@ == last_segment(p@),
{
    match text::rcut(p, '/') {
        Some((_, name)) => name,
        None => p,
    }
}

/// A file name without its extension: what stands before the last dot, unless
/// nothing does.
pub open spec fn stem(name: Seq<char>) -> Seq<char> {
    match text::last_cut(name, '.') {
        Some((before, _)) => if before.len() == 0 {
            name
        } else {
            before
        },
        None => name,
    }
}

/// The extension of a file name: what stands behind its last dot, unless
/// nothing stands before it.
pub open spec fn extension(name: Seq<char>) -> Option<Seq<char>> {
    match text::last_cut(name, '.') {
        Some((before, after)) => if before.len() == 0 {
            None
        } else {
            Some(after)
        },
        None => None,
    }
}

pub fn stem_of(name: &str) -> (r: &str)
    ensures
        r@ == stem(name@),
{
    match text::rcut(name, '.') {
        Some((before, _)) => if before.is_empty() {
            name
        } else {
            before
        },
        None => name,
    }
}

pub fn extension_of(name: &str) -> (r: Option<&str>)
    ensures
        text::opt_view(r) == extension(name@),
{
    match text::rcut(name, '.') {
        Some((before, after)) => if before.is_empty() {
            None
        } else {
            Some(after)
        },
        None => None,
    }
}

/// Where `full` is written before it takes its place: beside it, under its own
/// name with a mark of the writing process at the end.
pub open spec fn temporary(full: Seq<char>, pid: nat) -> Seq<char> {
    match extension(last_segment(full)) {
        Some(_) => full + ".tmp-"@ + text::decimal(pid),
        None => full + "..tmp-"@ + text::decimal(pid),
    }
}

/// The file in which the next content of `full` is written, for a path that
/// ends in a file name.
pub fn temporary_path(full: &str, pid: u32) -> (r: String)
    ensures
        r@ == temporary(full@, pid as nat),
{
    let digits = text::u64_text(pid as u64);
    match extension_of(last_segment_of(full)) {
        Some(_) => text::add3(full, ".tmp-", digits.as_str()),
        None => text::add3(full, "..tmp-", digits.as_str()),
    }
}

/// The path with another extension, for a path that ends in a file name; an
/// empty extension takes the old one away.
pub open spec fn with_extension(p: Seq<char>, ext: Seq<char>) -> Seq<char> {
    let tail = if ext.len() == 0 {
        ext
    } else {
        "."@ + ext
    };
    match text::last_cut(p, '/') {
        Some((dir, name)) => dir + "/"@ + (stem(name) + tail),
        None => stem(p) + tail,
    }
}

pub fn replace_extension(p: &str, ext: &str) -> (r: String)
    ensures
        r@ == with_extension(p@, ext@),
{
    match text::rcut(p, '/') {
        Some((dir, name)) => {
            let file = if ext.is_empty() {
                assert(stem(name@) + ext@ =~= stem(name@));
                stem_of(name).to_owned()
            } else {
                assert(stem(name@) + ("."@ + ext@) =~= stem(name@) + "."@ + ext@);
                text::add3(stem_of(name), ".", ext)
            };
            text::add3(dir, "/", file.as_str())
        },
        None => if ext.is_empty() {
            assert(stem(p@) + ext@ =~= stem(p@));
            stem_of(p).to_owned()
        } else {
            assert(stem(p@) + ("."@ + ext@) =~= stem(p@) + "."@ + ext@);
            text::add3(stem_of(p), ".", ext)
        },
    }
}

/// The path with a suffix behind its extension, or as its extension where it
/// has none.
pub open spec fn suffixed(p: Seq<char>, suffix: Seq<char>) -> Seq<char> {
    with_extension(
        p,
        match extension(last_segment(p)) {
            Some(e) => e + "."@ + suffix,
            None => suffix,
        },
    )
}

pub fn add_suffix(p: &str, suffix: &str) -> (r: String)
    ensures
        r@ == suffixed(p@, suffix@),
{
    match extension_of(last_segment_of(p)) {
        Some(e) => replace_extension(p, text::add3(e, ".", suffix).as_str()),
        None => replace_extension(p, suffix),
    }
}

/// Each segment of a path is walked in turn: a name goes one down, `.` and
/// nothing stay, and `..` goes one up, which above the start is nowhere.
pub proof fn law_segments_are_walked(segments: Seq<Seq<char>>, name: Seq<char>)
    ensures
        walked(Seq::empty()) == Some(Seq::<Seq<char>>::empty()),
        walked(segments) is None ==> walked(segments.push(name)) is None,
        walked(segments) matches Some(parts) ==> {
            &&& walked(segments.push("."@)) == Some(parts)
            &&& walked(segments.push(""@)) == Some(parts)
            &&& parts.len() > 0 ==> walked(segments.push(".."@)) == Some(parts.drop_last())
            &&& parts.len() == 0 ==> walked(segments.push(".."@)) is None
            &&& name.len() > 0 && name != "."@ && name != ".."@ ==> walked(segments.push(name)) == Some(
                parts.push(name),
            )
        },
{
    reveal_strlit(".");
    reveal_strlit("..");
    reveal_strlit("");
    assert(segments.push(name).drop_last() =~= segments);
    assert(segments.push("."@).drop_last() =~= segments);
    assert(segments.push(""@).drop_last() =~= segments);
    assert(segments.push(".."@).drop_last() =~= segments);
}

/// Two ways that each stay below their start, one behind the other, lead to the
/// parts of the one and then those of the other.
pub proof fn lemma_walked_on(a: Seq<Seq<char>>, b: Seq<Seq<char>>)
    requires
        walked(a) is Some,
        walked(b) is Some,
    ensures
        walked(a + b) == Some(walked(a)->0 + walked(b)->0),
    decreases b.len(),
{
    reveal_strlit(".");
    reveal_strlit("..");
    if b.len() == 0 {
        assert(a + b =~= a);
        assert(walked(a)->0 + walked(b)->0 =~= walked(a)->0);
    } else {
        let t = b.drop_last();
        assert((a + b).drop_last() =~= a + t);
        assert((a + b).last() == b.last());
        lemma_walked_on(a, t);
        let x = walked(a)->0;
        let y = walked(t)->0;
        let s = b.last();
        if s.len() == 0 || s == "."@ {
        } else if s == ".."@ {
            assert((x + y).drop_last() =~= x + y.drop_last());
        } else {
            assert((x + y).push(s) =~= x + y.push(s));
        }
    }
}

/// A path below an absolute directory has the parts of the directory before
/// its own.
pub proof fn law_path_below_has_the_parts_of_both(cwd: Seq<char>, rel: Seq<char>)
    requires
        is_absolute(cwd),
        cwd.last() != '/',
        rel.len() > 0,
        !is_absolute(rel),
        normalized(cwd, false) is Some,
        normalized(rel, false) is Some,
    ensures
        normalized(joined_on(cwd, rel, false), false) is Some,
        normalized(joined_on(cwd, rel, false), false)->0.absolute,
        normalized(joined_on(cwd, rel, false), false)->0.prefix.len() == 0,
        normalized(joined_on(cwd, rel, false), false)->0.parts == normalized(cwd, false)->0.parts
            + normalized(rel, false)->0.parts,
{
    let j = cwd.push('/') + rel;
    assert(joined_on(cwd, rel, false) == j);
    assert(j.skip(0) =~= j);
    assert(cwd.skip(0) =~= cwd);
    assert(rel.skip(0) =~= rel);
    assert(j[0] == cwd[0]);
    text::law_text_splits_at_each_mark(cwd, '/', rel);
    lemma_walked_on(text::pieces(cwd, '/'), text::pieces(rel, '/'));
}

/// A directory lies under another where its parts begin with those of the
/// other, on the same drive and both absolute or both not.
pub proof fn law_under_is_part_by_part(p: NormalView, root: NormalView)
    requires
        root.absolute,
        p.prefix == root.prefix,
    ensures
        is_under(p, root) <==> p.absolute && root.parts.len() <= p.parts.len() && (forall|i: int|
            0 <= i < root.parts.len() ==> #[trigger] root.parts[i] == p.parts[i]),
{
    if p.absolute && root.parts.len() <= p.parts.len() && (forall|i: int|
        0 <= i < root.parts.len() ==> #[trigger] root.parts[i] == p.parts[i]) {
        assert(p.parts.subrange(0, root.parts.len() as int) =~= root.parts);
    }
}

/// The file name of a path is what stands behind its last `/`, and its
/// extension what stands behind the last dot of that; another extension takes
/// the place of the first.
pub proof fn law_names_and_extensions(dir: Seq<char>, stem_: Seq<char>, ext: Seq<char>, other: Seq<char>)
    requires
        stem_.len() > 0,
        other.len() > 0,
        !text::has_char(stem_, '/'),
        !text::has_char(ext, '/'),
        !text::has_char(ext, '.'),
    ensures
        last_segment(dir.push('/') + stem_.push('.') + ext) == stem_.push('.') + ext,
        extension(stem_.push('.') + ext) == Some(ext),
        stem(stem_.push('.') + ext) == stem_,
        with_extension(dir.push('/') + stem_.push('.') + ext, other) == dir.push('/') + stem_.push('.')
            + other,
        with_extension(dir.push('/') + stem_.push('.') + ext, ""@) == dir.push('/') + stem_,
        suffixed(dir.push('/') + stem_.push('.') + ext, other) == dir.push('/') + stem_.push('.') + ext
            + ("."@ + other),
{
    reveal_strlit("");
    reveal_strlit("/");
    reveal_strlit(".");
    text::lemma_cut_at(stem_, '/');
    text::lemma_cut_at(ext, '/');
    text::lemma_cut_at(ext, '.');
    let name = stem_.push('.') + ext;
    let p = dir.push('/') + stem_.push('.') + ext;
    assert(p =~= dir.push('/') + name);
    assert forall|i: int| 0 <= i < name.len() implies #[trigger] name[i] != '/' by {
        if i < stem_.len() {
            assert(name[i] == stem_[i]);
        } else if i > stem_.len() {
            assert(name[i] == ext[i - stem_.len() - 1]);
        }
    }
    text::lemma_last_cut_is(dir, '/', name);
    text::lemma_last_cut_is(stem_, '.', ext);
    assert(with_extension(p, other) =~= dir.push('/') + stem_.push('.') + other);
    assert(with_extension(p, ""@) =~= dir.push('/') + stem_);
    assert(suffixed(p, other) =~= p + ("."@ + other));
}

/// A path is the same with a slash behind it, or a `.`; an absolute one and a
/// relative one differ, and so do two names in one directory.
pub proof fn law_spellings_of_a_path(p: Seq<char>, x: Seq<char>, y: Seq<char>)
    requires
        p.len() > 0,
        x.len() > 0,
        y.len() > 0,
        x != "."@,
        y != "."@,
        x != y,
        !text::has_char(x, '/'),
        !text::has_char(y, '/'),
    ensures
        same_path(p, p),
        same_path(p, p.push('/')),
        same_path(p, p.push('/') + "."@),
        !same_path(p.push('/') + x, p.push('/') + y),
        is_absolute(x) != is_absolute(p) ==> !same_path(x, p),
{
    reveal_strlit(".");
    let dot = "."@;
    let none = Seq::<char>::empty();
    let abs = is_absolute(p);
    let base = text::pieces(p, '/');
    assert(base.len() > 0);
    text::law_text_splits_at_each_mark(p, '/', none);
    text::law_text_splits_at_each_mark(none, '/', none);
    assert(p.push('/') + none =~= p.push('/'));
    assert(text::pieces(none, '/') =~= seq![none]);
    assert((base + seq![none]).drop_last() =~= base);
    assert(p.push('/')[0] == p[0]);
    text::law_text_splits_at_each_mark(p, '/', dot);
    text::law_text_splits_at_each_mark(dot, '/', none);
    assert((base + seq![dot]).drop_last() =~= base);
    assert((p.push('/') + dot)[0] == p[0]);
    text::lemma_cut_at(x, '/');
    text::lemma_cut_at(y, '/');
    text::law_text_splits_at_each_mark(p, '/', x);
    text::law_text_splits_at_each_mark(x, '/', none);
    text::law_text_splits_at_each_mark(p, '/', y);
    text::law_text_splits_at_each_mark(y, '/', none);
    assert((base + seq![x]).drop_last() =~= base);
    assert((base + seq![y]).drop_last() =~= base);
    assert((p.push('/') + x)[0] == p[0] && (p.push('/') + y)[0] == p[0]);
    assert(components(p.push('/') + x).parts.last() == x);
    assert(components(p.push('/') + y).parts.last() == y);
}

/// A normal form is written as its parts with a slash before each; the root is
/// a slash.
pub proof fn law_normal_form_is_written(parts: Seq<Seq<char>>, x: Seq<char>, prefix: Seq<char>)
    ensures
        rendered(NormalView { prefix, absolute: true, parts: Seq::empty() }) == prefix + seq!['/'],
        rendered(NormalView { prefix, absolute: true, parts: seq![x] }) == prefix + seq!['/'] + x,
        parts.len() > 0 ==> rendered(NormalView { prefix, absolute: true, parts: parts.push(x) })
            == rendered(NormalView { prefix, absolute: true, parts }) + seq!['/'] + x,
        parts.len() > 0 ==> rendered(NormalView { prefix, absolute: false, parts: parts.push(x) })
            == rendered(NormalView { prefix, absolute: false, parts }) + seq!['/'] + x,
        rendered(NormalView { prefix, absolute: false, parts: seq![x] }) == prefix + x,
{
    let sep = seq!['/'];
    text::law_joining_puts_the_separator_between(parts, x, sep);
    assert(rendered(NormalView { prefix, absolute: true, parts: Seq::empty() }) =~= prefix + seq!['/']);
    assert(rendered(NormalView { prefix, absolute: true, parts: seq![x] }) =~= prefix + seq!['/'] + x);
    if parts.len() > 0 {
        assert(rendered(NormalView { prefix, absolute: true, parts: parts.push(x) }) =~= rendered(
            NormalView { prefix, absolute: true, parts },
        ) + seq!['/'] + x);
        assert(rendered(NormalView { prefix, absolute: false, parts: parts.push(x) }) =~= rendered(
            NormalView { prefix, absolute: false, parts },
        ) + seq!['/'] + x);
    }
}

/// On Windows a path may start with a drive, or with a server and a share; on
/// other systems there is neither.
pub proof fn law_drives_and_shares(letter: char, rest: Seq<char>, server: Seq<char>, share: Seq<char>)
    requires
        'a' <= letter <= 'z' || 'A' <= letter <= 'Z',
        server.len() > 0,
        share.len() > 0,
        server[0] != '?',
        !text::has_char(server, '/'),
        !text::has_char(share, '/'),
    ensures
        prefix_len(seq![letter, ':'] + rest, true) == 2,
        prefix_len(seq![letter, ':'] + rest, false) == 0,
        prefix_len(seq!['/', '/'] + server.push('/') + share.push('/') + rest, true) == 3 + server.len()
            + share.len(),
        prefix_len(seq!['/', '/'] + server.push('/') + share.push('/') + rest, false) == 0,
        rest.len() > 0 && rest[0] != '/' ==> prefix_len(seq!['/'] + rest, true) == 0,
{
    reveal_strlit("//");
    reveal_strlit("//?/UNC/");
    let d = seq![letter, ':'] + rest;
    assert(d[0] == letter && d[1] == ':');
    let behind = server.push('/') + share.push('/') + rest;
    let u = seq!['/', '/'] + server.push('/') + share.push('/') + rest;
    assert(u[0] == '/' && u[1] == '/');
    assert(u[2] == server[0]);
    if "//?/UNC/"@.is_prefix_of(u) {
        assert(u[2] == "//?/UNC/"@[2]);
    }
    assert(u.subrange(0, 2) =~= "//"@);
    assert(u.skip(2) =~= behind);
    text::lemma_cut_at(server, '/');
    text::lemma_cut_at(share, '/');
    assert forall|j: int| 0 <= j < server.len() implies behind[j] != '/' by {
        assert(behind[j] == server[j]);
    }
    text::lemma_cut_at_is(behind, '/', server.len() as int);
    assert(text::before_char(behind, '/') =~= server);
    let second = share.push('/') + rest;
    assert(text::after_char(behind, '/') =~= second);
    assert forall|j: int| 0 <= j < share.len() implies second[j] != '/' by {
        assert(second[j] == share[j]);
    }
    text::lemma_cut_at_is(second, '/', share.len() as int);
    assert(text::before_char(second, '/') =~= share);
    if rest.len() > 0 && rest[0] != '/' {
        let r = seq!['/'] + rest;
        assert(r[0] == '/' && r[1] == rest[0]);
        if "//?/UNC/"@.is_prefix_of(r) {
            assert(r[1] == "//?/UNC/"@[1]);
        }
        if "//"@.is_prefix_of(r) {
            assert(r[1] == "//"@[1]);
        }
    }
}

/// A file that is written first lies beside its place, under its name with the
/// process behind it.
pub proof fn law_temporary_file_is_beside(full: Seq<char>, pid: nat)
    ensures
        full.is_prefix_of(temporary(full, pid)),
        extension(last_segment(full)) is Some ==> temporary(full, pid) == full + ".tmp-"@ + text::decimal(
            pid,
        ),
        extension(last_segment(full)) is None ==> temporary(full, pid) == full + "..tmp-"@ + text::decimal(
            pid,
        ),
{
    assert(temporary(full, pid).subrange(0, full.len() as int) =~= full);
}

/// A path that is joined lies below its base; an absolute one stands for itself.
pub proof fn law_joined_path_lies_below(base: Seq<char>, rel: Seq<char>)
    ensures
        is_absolute(rel) ==> joined_path(base, rel) == rel,
        !is_absolute(rel) && base.len() > 0 && base.last() != '/' ==> joined_path(base, rel) == base + seq![
            '/',
        ] + rel,
        !is_absolute(rel) && base.len() > 0 && base.last() == '/' ==> joined_path(base, rel) == base + rel,
        base.len() == 0 ==> joined_path(base, rel) == rel,
{
    assert(base.push('/') + rel =~= base + seq!['/'] + rel);
}

} // verus!

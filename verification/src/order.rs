//! Texts in order.
use crate::text;
use vstd::prelude::*;
use vstd::string::*;

verus! {

/// Whether `a` stands before `b` in a sorted list: by the first character in
/// which they differ, or by where the shorter one ends.
pub open spec fn precedes(a: Seq<char>, b: Seq<char>) -> bool
    decreases a.len(),
{
    if b.len() == 0 {
        false
    } else if a.len() == 0 {
        true
    } else {
        a[0] < b[0] || (a[0] == b[0] && precedes(a.skip(1), b.skip(1)))
    }
}

/// Of two texts one precedes the other, unless they are the same.
pub proof fn lemma_total(a: Seq<char>, b: Seq<char>)
    ensures
        a == b || precedes(a, b) || precedes(b, a),
        !(precedes(a, b) && precedes(b, a)),
        precedes(a, b) ==> a != b,
    decreases a.len(),
{
    if a.len() > 0 && b.len() > 0 {
        lemma_total(a.skip(1), b.skip(1));
        if a[0] == b[0] && a.skip(1) == b.skip(1) {
            assert(a =~= seq![a[0]] + a.skip(1));
            assert(b =~= seq![b[0]] + b.skip(1));
        }
    } else if a.len() == 0 && b.len() == 0 {
        assert(a =~= b);
    }
}

/// What precedes a text precedes what the text precedes.
pub proof fn lemma_transitive(a: Seq<char>, b: Seq<char>, c: Seq<char>)
    requires
        precedes(a, b),
        precedes(b, c),
    ensures
        precedes(a, c),
    decreases a.len(),
{
    if a.len() > 0 && a[0] == b[0] && b[0] == c[0] {
        lemma_transitive(a.skip(1), b.skip(1), c.skip(1));
    }
}

/// Whether `a` stands before `b` in a sorted list.
pub fn is_before(a: &str, b: &str) -> (r: bool)
    ensures
        r == precedes(a@, b@),
{
    let x = text::chars_of(a);
    let y = text::chars_of(b);
    let mut i: usize = 0;
    assert(x@.skip(0) =~= x@);
    assert(y@.skip(0) =~= y@);
    while i < x.len() && i < y.len() && x[i] == y[i]
        invariant
            x@ == a@,
            y@ == b@,
            i <= x@.len(),
            i <= y@.len(),
            precedes(x@, y@) == precedes(x@.skip(i as int), y@.skip(i as int)),
        decreases x@.len() - i,
    {
        assert(x@.skip(i as int).skip(1) =~= x@.skip(i + 1));
        assert(y@.skip(i as int).skip(1) =~= y@.skip(i + 1));
        i += 1;
    }
    if i >= y.len() {
        false
    } else if i >= x.len() {
        true
    } else {
        x[i] < y[i]
    }
}

/// Whether a list is sorted and names nothing twice.
pub open spec fn sorted(list: Seq<String>) -> bool {
    forall|i: int, j: int| 0 <= i < j < list.len() ==> precedes((#[trigger] list[i])@, (#[trigger] list[j])@)
}

/// Puts a text into a sorted list, unless it is there. Gives whether it was
/// put in.
pub fn insert_sorted(list: &mut Vec<String>, s: &str) -> (r: bool)
    requires
        sorted(old(list)@),
    ensures
        sorted(final(list)@),
        r == !text::lists(old(list)@, s@),
        forall|t: Seq<char>| #[trigger]
            text::lists(final(list)@, t) <==> text::lists(old(list)@, t) || t == s@,
        !r ==> final(list)@ == old(list)@,
{
    let ghost before = list@;
    let mut i: usize = 0;
    while i < list.len() && is_before(list[i].as_str(), s)
        invariant
            i <= list@.len(),
            list@ == before,
            sorted(before),
            forall|j: int| 0 <= j < i ==> precedes((#[trigger] before[j])@, s@),
        decreases list@.len() - i,
    {
        i += 1;
    }
    if i < list.len() && text::str_eq(list[i].as_str(), s) {
        assert(before[i as int]@ == s@);
        return false;
    }
    proof {
        assert forall|j: int| i <= j < before.len() implies precedes(s@, (#[trigger] before[j])@) by {
            lemma_total(before[i as int]@, s@);
            if j > i {
                lemma_transitive(s@, before[i as int]@, before[j]@);
            }
        }
        assert(!text::lists(before, s@)) by {
            if text::lists(before, s@) {
                let j = choose|j: int| 0 <= j < before.len() && (#[trigger] before[j])@ == s@;
                lemma_total(before[j]@, s@);
            }
        }
    }
    list.insert(i, s.to_owned());
    proof {
        let after = list@;
        assert forall|t: Seq<char>| #[trigger]
            text::lists(after, t) <==> text::lists(before, t) || t == s@ by {
            if text::lists(after, t) {
                let j = choose|j: int| 0 <= j < after.len() && (#[trigger] after[j])@ == t;
                if j < i {
                    assert(before[j]@ == t);
                } else if j > i {
                    assert(before[j - 1]@ == t);
                }
            }
            if text::lists(before, t) {
                let j = choose|j: int| 0 <= j < before.len() && (#[trigger] before[j])@ == t;
                if j < i {
                    assert(after[j]@ == t);
                } else {
                    assert(after[j + 1]@ == t);
                }
            }
            assert(after[i as int]@ == s@);
        }
        assert forall|a: int, b: int| 0 <= a < b < after.len() implies precedes(
            (#[trigger] after[a])@,
            (#[trigger] after[b])@,
        ) by {
            let x = if a < i {
                before[a]
            } else {
                before[a - 1]
            };
            let y = if b < i {
                before[b]
            } else {
                before[b - 1]
            };
        }
    }
    true
}

/// The texts of a list, sorted and each once.
pub fn sorted_names(list: &Vec<String>) -> (r: Vec<String>)
    ensures
        sorted(r@),
        forall|t: Seq<char>| #[trigger] text::lists(r@, t) <==> text::lists(list@, t),
{
    let mut out: Vec<String> = Vec::new();
    for i in 0..list.len()
        invariant
            sorted(out@),
            forall|t: Seq<char>| #[trigger]
                text::lists(out@, t) <==> text::lists(list@.take(i as int), t),
    {
        let _ = insert_sorted(&mut out, list[i].as_str());
        proof {
            let h = list@.take(i as int);
            let h1 = list@.take(i + 1);
            assert forall|t: Seq<char>| #[trigger] text::lists(out@, t) <==> text::lists(h1, t) by {
                if text::lists(h, t) {
                    let j = choose|j: int| 0 <= j < h.len() && (#[trigger] h[j])@ == t;
                    assert(h1[j]@ == t);
                }
                if text::lists(h1, t) {
                    let j = choose|j: int| 0 <= j < h1.len() && (#[trigger] h1[j])@ == t;
                    if j < i {
                        assert(h[j]@ == t);
                    }
                }
                assert(h1[i as int] == list@[i as int]);
            }
        }
    }
    assert(list@.take(list@.len() as int) =~= list@);
    out
}

/// Texts are ordered by the first character in which they differ; the start of
/// a text comes before it, and none before itself.
pub proof fn law_texts_are_ordered_by_the_first_difference(
    front: Seq<char>,
    x: char,
    y: char,
    a: Seq<char>,
    b: Seq<char>,
)
    requires
        x != y,
    ensures
        precedes(front.push(x) + a, front.push(y) + b) <==> x < y,
        precedes(front, front.push(x) + a),
        !precedes(front.push(x) + a, front),
        !precedes(front, front),
    decreases front.len(),
{
    let s = front.push(x) + a;
    let t = front.push(y) + b;
    if front.len() == 0 {
        assert(s[0] == x && t[0] == y);
    } else {
        let rest = front.skip(1);
        law_texts_are_ordered_by_the_first_difference(rest, x, y, a, b);
        assert(s.skip(1) =~= rest.push(x) + a);
        assert(t.skip(1) =~= rest.push(y) + b);
        assert(s[0] == front[0] && t[0] == front[0]);
    }
}

} // verus!

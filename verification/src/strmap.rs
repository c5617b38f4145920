//! Tables keyed by text.
use crate::text;
use vstd::prelude::*;
use vstd::string::*;

verus! {

/// A table from texts to values, which keeps the order in which keys came.
pub struct StrMap<V> {
    entries: Vec<(String, V)>,
}

/// Whether no key occurs twice.
pub open spec fn distinct_keys<V>(s: Seq<(String, V)>) -> bool {
    forall|i: int, j: int| 0 <= i < j < s.len() ==> (#[trigger] s[i]).0@ != (#[trigger] s[j]).0@
}

/// The table that a list of keys and values makes.
pub open spec fn table_of<V>(s: Seq<(String, V)>) -> Map<Seq<char>, V>
    decreases s.len(),
{
    if s.len() == 0 {
        Map::empty()
    } else {
        table_of(s.drop_last()).insert(s.last().0@, s.last().1)
    }
}

/// With distinct keys a table holds its entries and nothing else.
pub proof fn lemma_table_of<V>(s: Seq<(String, V)>)
    requires
        distinct_keys(s),
    ensures
        forall|i: int| #![trigger s[i]]
            0 <= i < s.len() ==> table_of(s).dom().contains(s[i].0@) && table_of(s)[s[i].0@] == s[i].1,
        forall|k: Seq<char>| #[trigger]
            table_of(s).dom().contains(k) ==> exists|i: int|
                0 <= i < s.len() && (#[trigger] s[i]).0@ == k,
    decreases s.len(),
{
    if s.len() > 0 {
        let t = s.drop_last();
        lemma_table_of(t);
        assert forall|i: int| #![trigger s[i]] 0 <= i < s.len() implies table_of(s).dom().contains(
            s[i].0@,
        ) && table_of(s)[s[i].0@] == s[i].1 by {
            if i < s.len() - 1 {
                assert(t[i] == s[i]);
            }
        }
        assert forall|k: Seq<char>| #[trigger] table_of(s).dom().contains(k) implies exists|i: int|
            0 <= i < s.len() && (#[trigger] s[i]).0@ == k by {
            if k == s.last().0@ {
                assert(s[s.len() - 1].0@ == k);
            } else {
                assert(table_of(t).dom().contains(k));
                let i = choose|i: int| 0 <= i < t.len() && (#[trigger] t[i]).0@ == k;
                assert(s[i].0@ == k);
            }
        }
    }
}

impl<V> View for StrMap<V> {
    type V = Map<Seq<char>, V>;

    closed spec fn view(&self) -> Map<Seq<char>, V> {
        table_of(self.entries@)
    }
}

impl<V> StrMap<V> {
    /// The keys, in the order in which they came.
    pub closed spec fn keys(self) -> Seq<Seq<char>> {
        Seq::new(self.entries@.len(), |i: int| self.entries@[i].0@)
    }

    #[verifier::type_invariant]
    spec fn has_distinct_keys(self) -> bool {
        distinct_keys(self.entries@)
    }

    pub fn new() -> (r: Self)
        ensures
            r@ == Map::<Seq<char>, V>::empty(),
            r.keys().len() == 0,
    {
        StrMap { entries: Vec::new() }
    }

    /// The number of keys. Each key stands once in the order of keys.
    pub fn len(&self) -> (r: usize)
        ensures
            r == self.keys().len(),
            forall|k: Seq<char>| self@.dom().contains(k) <==> self.keys().contains(k),
            self.keys().no_duplicates(),
    {
        proof {
            use_type_invariant(self);
            lemma_table_of(self.entries@);
            let s = self.entries@;
            assert forall|k: Seq<char>| self@.dom().contains(k) implies self.keys().contains(k) by {
                let i = choose|i: int| 0 <= i < s.len() && (#[trigger] s[i]).0@ == k;
                assert(self.keys()[i] == k);
            }
            assert forall|k: Seq<char>| self.keys().contains(k) implies self@.dom().contains(k) by {
                let i = choose|i: int| 0 <= i < self.keys().len() && self.keys()[i] == k;
                assert(s[i].0@ == k);
            }
            assert forall|i: int, j: int|
                0 <= i < self.keys().len() && 0 <= j < self.keys().len() && i
                    != j implies self.keys()[i] != self.keys()[j] by {
                if i < j {
                    assert(s[i].0@ != s[j].0@);
                } else {
                    assert(s[j].0@ != s[i].0@);
                }
            }
        }
        self.entries.len()
    }

    /// The `i`th key.
    pub fn key_at(&self, i: usize) -> (r: &String)
        requires
            i < self.keys().len(),
        ensures
            r@ == self.keys()[i as int],
            self@.dom().contains(r@),
    {
        proof {
            use_type_invariant(self);
            lemma_table_of(self.entries@);
        }
        &self.entries[i].0
    }

    /// The value under the `i`th key.
    pub fn value_at(&self, i: usize) -> (r: &V)
        requires
            i < self.keys().len(),
        ensures
            self@.dom().contains(self.keys()[i as int]),
            *r == self@[self.keys()[i as int]],
    {
        proof {
            use_type_invariant(self);
            lemma_table_of(self.entries@);
        }
        &self.entries[i].1
    }

    fn position(&self, k: &str) -> (r: Option<usize>)
        ensures
            match r {
                Some(i) => i < self.entries@.len() && self.entries@[i as int].0@ == k@,
                None => forall|i: int|
                    0 <= i < self.entries@.len() ==> (#[trigger] self.entries@[i]).0@ != k@,
            },
    {
        for i in 0..self.entries.len()
            invariant
                forall|j: int| 0 <= j < i ==> (#[trigger] self.entries@[j]).0@ != k@,
        {
            if text::str_eq(self.entries[i].0.as_str(), k) {
                return Some(i);
            }
        }
        None
    }

    /// Whether `k` is a key.
    pub fn contains(&self, k: &str) -> (r: bool)
        ensures
            r == self@.dom().contains(k@),
    {
        proof {
            use_type_invariant(self);
            lemma_table_of(self.entries@);
        }
        self.position(k).is_some()
    }

    /// The value under `k`.
    pub fn get(&self, k: &str) -> (r: Option<&V>)
        ensures
            match r {
                Some(v) => self@.dom().contains(k@) && *v == self@[k@],
                None => !self@.dom().contains(k@),
            },
    {
        proof {
            use_type_invariant(self);
            lemma_table_of(self.entries@);
        }
        match self.position(k) {
            Some(i) => Some(&self.entries[i].1),
            None => None,
        }
    }

    /// Takes the value under `k` out of the table.
    pub fn remove(&mut self, k: &str) -> (r: Option<V>)
        ensures
            final(self)@ == old(self)@.remove(k@),
            final(self).keys().len() == old(self).keys().len() - (if old(self)@.dom().contains(k@) {
                1int
            } else {
                0
            }),
            match r {
                Some(v) => old(self)@.dom().contains(k@) && v == old(self)@[k@],
                None => !old(self)@.dom().contains(k@),
            },
    {
        proof {
            use_type_invariant(&*self);
            lemma_table_of(self.entries@);
        }
        match self.position(k) {
            Some(i) => {
                let mut entries: Vec<(String, V)> = Vec::new();
                std::mem::swap(&mut entries, &mut self.entries);
                let ghost before = entries@;
                let (_, v) = entries.remove(i);
                proof {
                    lemma_removed(before, i as int);
                }
                self.entries = entries;
                Some(v)
            },
            None => {
                assert(self@.remove(k@) == self@);
                None
            },
        }
    }

    /// Puts `v` under `k`, in place of what was there.
    pub fn insert(&mut self, k: String, v: V)
        ensures
            final(self)@ == old(self)@.insert(k@, v),
            final(self).keys().len() == old(self).keys().len() + (if old(self)@.dom().contains(k@) {
                0int
            } else {
                1
            }),
    {
        let ghost at_first = self@;
        let _ = self.remove(k.as_str());
        proof {
            use_type_invariant(&*self);
            lemma_table_of(self.entries@);
        }
        let mut entries: Vec<(String, V)> = Vec::new();
        std::mem::swap(&mut entries, &mut self.entries);
        let ghost before = entries@;
        entries.push((k, v));
        proof {
            assert(entries@.drop_last() == before);
            assert forall|i: int, j: int| 0 <= i < j < entries@.len() implies (
            #[trigger] entries@[i]).0@ != (#[trigger] entries@[j]).0@ by {
                assert(entries@[i] == before[i]);
                if j < before.len() {
                    assert(entries@[j] == before[j]);
                } else {
                    assert(table_of(before).dom().contains(before[i].0@));
                }
            }
            assert(at_first.remove(k@).insert(k@, v) == at_first.insert(k@, v));
        }
        self.entries = entries;
    }
}

/// Taking one entry out takes its key out of the table, and nothing else.
proof fn lemma_removed<V>(s: Seq<(String, V)>, i: int)
    requires
        distinct_keys(s),
        0 <= i < s.len(),
    ensures
        distinct_keys(s.remove(i)),
        table_of(s.remove(i)) == table_of(s).remove(s[i].0@),
{
    let t = s.remove(i);
    let k = s[i].0@;
    lemma_table_of(s);
    assert forall|a: int, b: int| 0 <= a < b < t.len() implies (#[trigger] t[a]).0@ != (
    #[trigger] t[b]).0@ by {
        let x = if a < i { a } else { a + 1 };
        let y = if b < i { b } else { b + 1 };
        assert(t[a] == s[x] && t[b] == s[y]);
    }
    lemma_table_of(t);
    assert forall|q: Seq<char>| #[trigger] table_of(t).dom().contains(q) implies table_of(
        s,
    ).remove(k).dom().contains(q) && table_of(t)[q] == table_of(s)[q] by {
        let a = choose|a: int| 0 <= a < t.len() && (#[trigger] t[a]).0@ == q;
        let x = if a < i { a } else { a + 1 };
        assert(t[a] == s[x]);
    }
    assert forall|q: Seq<char>| #[trigger] table_of(s).remove(k).dom().contains(q) implies table_of(
        t,
    ).dom().contains(q) by {
        assert(table_of(s).dom().contains(q));
        let x = choose|x: int| 0 <= x < s.len() && (#[trigger] s[x]).0@ == q;
        let a = if x < i { x } else { x - 1 };
        assert(t[a] == s[x]);
    }
    assert(table_of(t) == table_of(s).remove(k));
}

} // verus!

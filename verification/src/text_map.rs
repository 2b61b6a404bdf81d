//! A map from text to values, for variables, functions and the like.

use vstd::prelude::*;

use crate::text::{lemma_without_text, same_text, without_text};

verus! {

/// A map whose keys are texts. The entries keep the order in which their keys
/// were first added.
#[derive(Debug)]
pub struct TextMap<T> {
    entries: Vec<(String, T)>,
}

/// The index of the first entry from `i` on whose key is `k`, or the number of
/// entries.
spec fn index_from<T>(s: Seq<(String, T)>, k: Seq<char>, i: int) -> int
    decreases s.len() - i,
{
    if i < 0 || i >= s.len() || s[i].0@ == k {
        i
    } else {
        index_from(s, k, i + 1)
    }
}

/// `i` is the index of the first entry whose key is `k`, or the number of
/// entries if there is none.
spec fn is_first<T>(s: Seq<(String, T)>, k: Seq<char>, i: int) -> bool {
    &&& 0 <= i <= s.len()
    &&& i < s.len() ==> s[i].0@ == k
    &&& forall|j: int| 0 <= j < i ==> (#[trigger] s[j]).0@ != k
}

proof fn lemma_index_from<T>(s: Seq<(String, T)>, k: Seq<char>, i: int)
    requires
        0 <= i <= s.len(),
        forall|j: int| 0 <= j < i ==> (#[trigger] s[j]).0@ != k,
    ensures
        is_first(s, k, index_from(s, k, i)),
    decreases s.len() - i,
{
    if i < s.len() && s[i].0@ != k {
        lemma_index_from(s, k, i + 1);
    }
}

proof fn lemma_first<T>(s: Seq<(String, T)>, k: Seq<char>, i: int)
    requires
        is_first(s, k, i),
    ensures
        index_from(s, k, 0) == i,
{
    lemma_index_from(s, k, 0);
    let r = index_from(s, k, 0);
    if r < i {
        assert(s[r].0@ == k);
    } else if i < r {
        assert(s[i].0@ == k);
    }
}

/// No key occurs twice.
spec fn distinct<T>(s: Seq<(String, T)>) -> bool {
    forall|i: int, j: int| 0 <= i < j < s.len() ==> (#[trigger] s[i]).0@ != (#[trigger] s[j]).0@
}

impl<T> TextMap<T> {
    #[verifier::type_invariant]
    spec fn keys_are_distinct(self) -> bool {
        distinct(self.entries@)
    }
}

impl<T: View> View for TextMap<T> {
    type V = Map<Seq<char>, T::V>;

    closed spec fn view(&self) -> Map<Seq<char>, T::V> {
        Map::new(
            |k: Seq<char>| index_from(self.entries@, k, 0) < self.entries@.len(),
            |k: Seq<char>| self.entries@[index_from(self.entries@, k, 0)].1@,
        )
    }
}

impl<T: View> TextMap<T> {
    /// The keys, in the order in which they were first added.
    pub closed spec fn keys(&self) -> Seq<Seq<char>> {
        Seq::new(self.entries@.len(), |i: int| self.entries@[i].0@)
    }

    /// A map without entries.
    #[must_use]
    pub fn new() -> (r: Self)
        ensures
            r@ == Map::<Seq<char>, T::V>::empty(),
            r.keys() == Seq::<Seq<char>>::empty(),
    {
        let r = TextMap { entries: Vec::new() };
        assert(r.keys() =~= Seq::<Seq<char>>::empty());
        assert(r@ =~= Map::<Seq<char>, T::V>::empty());
        r
    }

    fn find(&self, k: &str) -> (r: usize)
        ensures
            is_first(self.entries@, k@, r as int),
            r == index_from(self.entries@, k@, 0),
    {
        let mut i: usize = 0;
        while i < self.entries.len()
            invariant
                i <= self.entries@.len(),
                forall|j: int| 0 <= j < i ==> (#[trigger] self.entries@[j]).0@ != k@,
            decreases self.entries@.len() - i,
        {
            if same_text(self.entries[i].0.as_str(), k) {
                proof {
                    lemma_first(self.entries@, k@, i as int);
                }
                return i;
            }
            i += 1;
        }
        proof {
            lemma_first(self.entries@, k@, i as int);
        }
        i
    }

    /// The value under a key.
    pub fn get(&self, k: &str) -> (r: Option<&T>)
        ensures
            match r {
                Some(v) => self@.contains_key(k@) && v@ == self@[k@],
                None => !self@.contains_key(k@),
            },
    {
        let i: usize = self.find(k);
        if i < self.entries.len() {
            Some(&self.entries[i].1)
        } else {
            None
        }
    }

    /// Whether there is a value under a key.
    pub fn contains_key(&self, k: &str) -> (r: bool)
        ensures
            r == self@.contains_key(k@),
    {
        self.find(k) < self.entries.len()
    }

    /// Puts a value under a key, in place of the one that was there.
    pub fn insert(&mut self, k: String, v: T) -> (r: Option<T>)
        ensures
            final(self)@ == old(self)@.insert(k@, v@),
            final(self).keys() == (if old(self)@.contains_key(k@) {
                old(self).keys()
            } else {
                old(self).keys().push(k@)
            }),
            match r {
                Some(p) => old(self)@.contains_key(k@) && p@ == old(self)@[k@],
                None => !old(self)@.contains_key(k@),
            },
    {
        let i: usize = self.find(k.as_str());
        proof {
            use_type_invariant(&*self);
        }
        let ghost before = self.entries@;
        let ghost key = k@;
        let mut entries: Vec<(String, T)> = Vec::new();
        core::mem::swap(&mut entries, &mut self.entries);
        if i < entries.len() {
            let ghost new = (k, v);
            entries.push((k, v));
            let (_, previous) = entries.swap_remove(i);
            assert(entries@ =~= before.update(i as int, new));
            *self = TextMap { entries };
            proof {
                let after = self.entries@;
                assert forall|q: Seq<char>| #[trigger] index_from(after, q, 0) == index_from(
                    before,
                    q,
                    0,
                ) by {
                    let n = index_from(before, q, 0);
                    lemma_index_from(before, q, 0);
                    assert forall|j: int| 0 <= j < n implies (#[trigger] after[j]).0@ != q by {
                        assert(before[j].0@ != q);
                    }
                    lemma_first(after, q, n);
                }
                assert forall|q: Seq<char>| q != key implies index_from(before, q, 0) != i by {
                    lemma_index_from(before, q, 0);
                }
                let wanted = old(self)@.insert(key, v@);
                assert forall|q: Seq<char>| #[trigger] self@.contains_key(q)
                    == wanted.contains_key(q) && (self@.contains_key(q) ==> self@[q]
                    == wanted[q]) by {
                    lemma_index_from(before, q, 0);
                    assert(index_from(after, q, 0) == index_from(after, q, 0));
                }
                assert(self@ =~= wanted);
                assert(self.keys() =~= old(self).keys());
            }
            Some(previous)
        } else {
            entries.push((k, v));
            *self = TextMap { entries };
            proof {
                let after = self.entries@;
                assert forall|q: Seq<char>|
                    #[trigger] index_from(after, q, 0) == (if q == key || index_from(before, q, 0)
                        < before.len() {
                        index_from(before, q, 0)
                    } else {
                        (before.len() + 1) as int
                    }) by {
                    lemma_index_from(before, q, 0);
                    let n = if q == key || index_from(before, q, 0) < before.len() {
                        index_from(before, q, 0)
                    } else {
                        (before.len() + 1) as int
                    };
                    assert forall|j: int| 0 <= j < n implies (#[trigger] after[j]).0@ != q by {
                        if j < before.len() {
                            assert(before[j].0@ != q);
                        }
                    }
                    lemma_first(after, q, n);
                }
                let wanted = old(self)@.insert(key, v@);
                assert forall|q: Seq<char>| #[trigger] self@.contains_key(q)
                    == wanted.contains_key(q) && (self@.contains_key(q) ==> self@[q]
                    == wanted[q]) by {
                    lemma_index_from(before, q, 0);
                    assert(index_from(after, q, 0) == index_from(after, q, 0));
                }
                assert(self@ =~= wanted);
                assert(self.keys() =~= old(self).keys().push(key));
            }
            None
        }
    }

    /// Removes the value under a key.
    pub fn remove(&mut self, k: &str) -> (r: Option<T>)
        ensures
            final(self)@ == old(self)@.remove(k@),
            final(self).keys() == without_text(old(self).keys(), k@),
            match r {
                Some(p) => old(self)@.contains_key(k@) && p@ == old(self)@[k@],
                None => !old(self)@.contains_key(k@),
            },
    {
        let i: usize = self.find(k);
        proof {
            use_type_invariant(&*self);
        }
        let ghost before = self.entries@;
        let ghost names = self.keys();
        proof {
            assert forall|j: int| 0 <= j < names.len() && j != i implies #[trigger] names[j]
                != k@ by {
                if i < before.len() {
                    assert(before[i as int].0@ == k@);
                }
                assert(before[j].0@ == names[j]);
            }
            lemma_without_text(names, k@, i as int);
        }
        if i >= self.entries.len() {
            assert(self@ =~= old(self)@.remove(k@));
            return None;
        }
        let mut entries: Vec<(String, T)> = Vec::new();
        core::mem::swap(&mut entries, &mut self.entries);
        let (_, v) = entries.remove(i);
        *self = TextMap { entries };
        proof {
            let after = self.entries@;
            assert forall|q: Seq<char>|
                #[trigger] index_from(after, q, 0) == (if q == k@ {
                    after.len() as int
                } else if index_from(before, q, 0) < i {
                    index_from(before, q, 0)
                } else {
                    index_from(before, q, 0) - 1
                }) by {
                lemma_index_from(before, q, 0);
                let b = index_from(before, q, 0);
                let n = if q == k@ {
                    after.len() as int
                } else if b < i {
                    b
                } else {
                    b - 1
                };
                assert(q != k@ ==> b != i);
                assert forall|j: int| 0 <= j < n implies (#[trigger] after[j]).0@ != q by {
                    if j < i {
                        assert(after[j] == before[j]);
                    } else {
                        assert(after[j] == before[j + 1]);
                    }
                }
                lemma_first(after, q, n);
            }
            assert forall|q: Seq<char>| q != k@ implies index_from(before, q, 0) != i by {
                lemma_index_from(before, q, 0);
            }
            let wanted = old(self)@.remove(k@);
            assert forall|q: Seq<char>| #[trigger] self@.contains_key(q) == wanted.contains_key(q)
                && (self@.contains_key(q) ==> self@[q] == wanted[q]) by {
                lemma_index_from(before, q, 0);
                assert(index_from(after, q, 0) == index_from(after, q, 0));
            }
            assert(self@ =~= wanted);
            assert(self.keys() =~= names.remove(i as int));
        }
        Some(v)
    }
}

impl<T: View> TextMap<T> {
    /// The number of entries. Every key occurs once among the keys.
    pub fn len(&self) -> (r: usize)
        ensures
            r == self.keys().len(),
            self.keys().no_duplicates(),
            forall|k: Seq<char>| self@.contains_key(k) <==> #[trigger] self.keys().contains(k),
    {
        proof {
            use_type_invariant(self);
            assert forall|k: Seq<char>| self@.contains_key(k) <==> #[trigger] self.keys().contains(
                k,
            ) by {
                let n = index_from(self.entries@, k, 0);
                lemma_index_from(self.entries@, k, 0);
                if n < self.entries@.len() {
                    assert(self.keys()[n] == k);
                } else if self.keys().contains(k) {
                    let j = choose|j: int| 0 <= j < self.keys().len() && self.keys()[j] == k;
                    assert(self.entries@[j].0@ == k);
                }
            }
        }
        self.entries.len()
    }

    /// The key and the value of entry `i`.
    pub fn entry(&self, i: usize) -> (r: (&String, &T))
        requires
            i < self.keys().len(),
        ensures
            r.0@ == self.keys()[i as int],
            self@.contains_key(r.0@),
            r.1@ == self@[r.0@],
    {
        proof {
            use_type_invariant(self);
            let k = self.entries@[i as int].0@;
            assert forall|j: int| 0 <= j < i implies (#[trigger] self.entries@[j]).0@ != k by {
                assert(self.entries@[i as int].0@ == k);
            }
            lemma_first(self.entries@, k, i as int);
        }
        let e = &self.entries[i];
        (&e.0, &e.1)
    }
}

impl Clone for TextMap<String> {
    fn clone(&self) -> (r: Self)
        ensures
            r@ == self@,
    {
        proof {
            use_type_invariant(self);
        }
        let mut entries: Vec<(String, String)> = Vec::new();
        let mut i: usize = 0;
        while i < self.entries.len()
            invariant
                i <= self.entries@.len(),
                entries@ == self.entries@.take(i as int),
            decreases self.entries@.len() - i,
        {
            entries.push((self.entries[i].0.clone(), self.entries[i].1.clone()));
            i += 1;
            assert(entries@ =~= self.entries@.take(i as int));
        }
        assert(entries@ =~= self.entries@);
        let r = TextMap { entries };
        assert(r@ =~= self@);
        r
    }
}

} // verus!

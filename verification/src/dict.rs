use vstd::prelude::*;

use crate::value::{assoc, has_pair_key, keys_unique, lemma_assoc_at, lemma_assoc_some};

verus! {

/// A string-keyed map that keeps its entries in insertion order.
#[derive(Debug)]
pub struct Dict<V> {
    pub entries: Vec<(String, V)>,
}

impl<V: DeepView> View for Dict<V> {
    type V = Seq<(Seq<char>, V::V)>;

    open spec fn view(&self) -> Seq<(Seq<char>, V::V)> {
        Seq::new(
            self.entries@.len(),
            |i: int| (self.entries@[i].0@, self.entries@[i].1.deep_view()),
        )
    }
}

impl<V: DeepView> DeepView for Dict<V> {
    type V = Seq<(Seq<char>, V::V)>;

    open spec fn deep_view(&self) -> Seq<(Seq<char>, V::V)> {
        self.view()
    }
}

/// Where the first entry with the given key stands.
pub open spec fn first_key_index<X>(s: Seq<(Seq<char>, X)>, k: Seq<char>) -> int
    decreases s.len(),
{
    if s.len() == 0 {
        0
    } else if s[0].0 == k {
        0
    } else {
        1 + first_key_index(s.drop_first(), k)
    }
}

pub proof fn lemma_first_key_index<X>(s: Seq<(Seq<char>, X)>, k: Seq<char>)
    requires
        has_pair_key(s, k),
    ensures
        0 <= first_key_index(s, k) < s.len(),
        s[first_key_index(s, k)].0 == k,
        forall|j: int| 0 <= j < first_key_index(s, k) ==> s[j].0 != k,
        assoc(s, k) == Some(s[first_key_index(s, k)].1),
    decreases s.len(),
{
    if s.len() > 0 && s[0].0 != k {
        let t = s.drop_first();
        assert forall|i: int| 0 <= i < s.len() && s[i].0 == k implies has_pair_key(t, k) by {
            assert(t[i - 1] == s[i]);
        }
        lemma_first_key_index(t, k);
        let m = first_key_index(t, k);
        assert(s[m + 1] == t[m]);
        assert(forall|j: int| 1 <= j < m + 1 ==> s[j] == t[j - 1]);
    }
}

/// What inserting a binding does: the first entry under the same key is
/// replaced in place, otherwise the binding is appended.
pub open spec fn spec_insert<X>(s: Seq<(Seq<char>, X)>, k: Seq<char>, x: X) -> Seq<(Seq<char>, X)> {
    if has_pair_key(s, k) {
        s.update(first_key_index(s, k), (k, x))
    } else {
        s.push((k, x))
    }
}

/// Folding a list of bindings into a map, later bindings replacing earlier
/// ones under the same key.
pub open spec fn spec_insert_all<X>(
    s: Seq<(Seq<char>, X)>,
    entries: Seq<(Seq<char>, X)>,
    n: int,
) -> Seq<(Seq<char>, X)>
    decreases n,
{
    if n <= 0 || n > entries.len() {
        s
    } else {
        spec_insert(spec_insert_all(s, entries, n - 1), entries[n - 1].0, entries[n - 1].1)
    }
}

impl<V: DeepView> Dict<V> {
    pub fn new() -> (r: Self)
        ensures
            r@ == Seq::<(Seq<char>, V::V)>::empty(),
    {
        let r = Dict { entries: Vec::new() };
        proof {
            assert(r@ =~= Seq::<(Seq<char>, V::V)>::empty());
        }
        r
    }

    pub open spec fn wf(&self) -> bool {
        keys_unique(self@)
    }

    pub fn len(&self) -> (r: usize)
        ensures
            r == self@.len(),
    {
        self.entries.len()
    }

    pub fn is_empty(&self) -> (r: bool)
        ensures
            r == (self@.len() == 0),
    {
        self.entries.len() == 0
    }

    pub fn key_at(&self, i: usize) -> (r: &String)
        requires
            i < self@.len(),
        ensures
            r@ == self@[i as int].0,
    {
        &self.entries[i].0
    }

    pub fn val_at(&self, i: usize) -> (r: &V)
        requires
            i < self@.len(),
        ensures
            r.deep_view() == self@[i as int].1,
    {
        &self.entries[i].1
    }

    pub fn get(&self, key: &String) -> (r: Option<&V>)
        ensures
            match r {
                Some(v) => assoc(self@, key@) == Some(v.deep_view()),
                None => assoc(self@, key@) is None,
            },
    {
        let n = self.entries.len();
        let mut i: usize = 0;
        while i < n
            invariant
                n == self.entries@.len(),
                0 <= i <= n,
                self@.len() == n,
                forall|j: int| 0 <= j < n
                    ==> self@[j] == (self.entries@[j].0@, self.entries@[j].1.deep_view()),
                forall|j: int| 0 <= j < i ==> self@[j].0 != key@,
            decreases n - i,
        {
            if self.entries[i].0.eq(key) {
                proof {
                    lemma_assoc_at(self@, key@, i as int);
                }
                return Some(&self.entries[i].1);
            }
            i = i + 1;
        }
        proof {
            lemma_assoc_at(self@, key@, n as int);
        }
        None
    }

    pub fn contains_key(&self, key: &String) -> (r: bool)
        ensures
            r == has_pair_key(self@, key@),
    {
        proof {
            lemma_assoc_some(self@, key@);
        }
        match self.get(key) {
            Some(_) => true,
            None => false,
        }
    }

    pub fn insert(&mut self, key: String, value: V)
        ensures
            final(self)@ == spec_insert(old(self)@, key@, value.deep_view()),
            old(self).wf() ==> final(self).wf(),
    {
        let ghost s = self@;
        let n = self.entries.len();
        let mut i: usize = 0;
        while i < n
            invariant
                n == self.entries@.len(),
                0 <= i <= n,
                self@ == s,
                s == old(self)@,
                s.len() == n,
                forall|j: int| 0 <= j < n
                    ==> s[j] == (self.entries@[j].0@, self.entries@[j].1.deep_view()),
                forall|j: int| 0 <= j < i ==> s[j].0 != key@,
            decreases n - i,
        {
            if self.entries[i].0.eq(&key) {
                proof {
                    lemma_assoc_at(s, key@, i as int);
                    lemma_assoc_some(s, key@);
                    lemma_first_key_index(s, key@);
                    assert(first_key_index(s, key@) == i as int) by {
                        let m = first_key_index(s, key@);
                        if m < i as int {
                            assert(s[m].0 == key@);
                        }
                        if m > i as int {
                            assert(s[i as int].0 != key@);
                        }
                    }
                }
                proof {
                    assert(has_pair_key(s, key@)) by {
                        assert(s[i as int].0 == key@);
                    }
                    assert(first_key_index(s, key@) == i as int);
                }
                let ghost kv = key@;
                let ghost vv = value.deep_view();
                let ghost e0 = self.entries@;
                self.entries.remove(i);
                let ghost e1 = self.entries@;
                self.entries.insert(i, (key, value));
                proof {
                    e0.remove_ensures(i as int);
                    e1.insert_ensures(i as int, (key, value));
                    assert(self.entries@.len() == s.len());
                    assert(self.entries@[i as int].0@ == kv
                        && self.entries@[i as int].1.deep_view() == vv);
                    assert forall|j: int| 0 <= j < s.len() && j != i as int
                        implies self.entries@[j] == e0[j] by {
                        if j < i as int {
                            assert(self.entries@[j] == e1[j]);
                            assert(e1[j] == e0[j]);
                        } else {
                            assert(self.entries@[j] == e1[j - 1]);
                            assert(e1[j - 1] == e0[j]);
                        }
                    }
                    assert(self@ =~= spec_insert(s, kv, vv));
                    if keys_unique(s) {
                        assert(keys_unique(self@));
                    }
                }
                return;
            }
            i = i + 1;
        }
        proof {
            lemma_assoc_at(s, key@, n as int);
            lemma_assoc_some(s, key@);
            assert(!has_pair_key(s, key@));
        }
        self.entries.push((key, value));
        proof {
            assert(self@ =~= spec_insert(s, key@, value.deep_view()));
            if keys_unique(s) {
                assert forall|p: int, q: int| 0 <= p < q < self@.len() implies self@[p].0
                    != self@[q].0 by {
                    if q == s.len() as int {
                        assert(!(s[p].0 == key@));
                    }
                }
            }
        }
    }
}

} // verus!

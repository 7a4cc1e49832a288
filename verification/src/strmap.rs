use vstd::prelude::*;
use crate::text::str_eq;

verus! {

/// A small map from strings to strings that keeps its entries in insertion order.
/// Its entries are reached only through its methods, which keep each key once
/// (`wf`).
#[derive(Debug)]
pub struct StringMap {
    entries: Vec<(String, String)>,
}

pub open spec fn pair_views(v: Seq<(String, String)>) -> Seq<(Seq<char>, Seq<char>)> {
    v.map_values(|p: (String, String)| (p.0@, p.1@))
}

/// No key occurs twice.
pub open spec fn keys_unique(s: Seq<(Seq<char>, Seq<char>)>) -> bool {
    forall|i: int, j: int| 0 <= i < j < s.len() ==> (#[trigger] s[i]).0 != (#[trigger] s[j]).0
}

/// The index of the first entry with key `k`.
pub open spec fn index_of_key(s: Seq<(Seq<char>, Seq<char>)>, k: Seq<char>) -> Option<int>
    decreases s.len(),
{
    if s.len() == 0 {
        None
    } else if s.last().0 == k && index_of_key(s.drop_last(), k) is None {
        Some(s.len() - 1)
    } else {
        index_of_key(s.drop_last(), k)
    }
}

/// The value under `k`: that of the first entry with that key.
pub open spec fn map_get(s: Seq<(Seq<char>, Seq<char>)>, k: Seq<char>) -> Option<Seq<char>> {
    match index_of_key(s, k) {
        Some(i) => Some(s[i].1),
        None => None,
    }
}

/// Insertion: the first entry with key `k` takes value `v`; without one, `(k, v)` is
/// appended.
pub open spec fn map_insert(s: Seq<(Seq<char>, Seq<char>)>, k: Seq<char>, v: Seq<char>) -> Seq<(Seq<char>, Seq<char>)> {
    match index_of_key(s, k) {
        Some(i) => s.update(i, (k, v)),
        None => s.push((k, v)),
    }
}

pub proof fn lemma_index_of_key(s: Seq<(Seq<char>, Seq<char>)>, k: Seq<char>)
    ensures
        index_of_key(s, k) matches Some(i) ==> 0 <= i < s.len() && s[i].0 == k && forall|j: int| 0 <= j < i ==> s[j].0 != k,
        index_of_key(s, k) is None ==> forall|j: int| 0 <= j < s.len() ==> s[j].0 != k,
    decreases s.len(),
{
    if s.len() > 0 {
        let t = s.drop_last();
        lemma_index_of_key(t, k);
        assert forall|j: int| 0 <= j < t.len() implies t[j] == s[j] by {}
    }
}

/// Law: storing a value keeps every key once.
pub proof fn lemma_map_insert_unique(s: Seq<(Seq<char>, Seq<char>)>, k: Seq<char>, v: Seq<char>)
    requires
        keys_unique(s),
    ensures
        keys_unique(map_insert(s, k, v)),
{
    lemma_index_of_key(s, k);
    let t = map_insert(s, k, v);
    assert forall|i: int, j: int| 0 <= i < j < t.len() implies (#[trigger] t[i]).0 != (#[trigger] t[j]).0 by {
        match index_of_key(s, k) {
            Some(m) => {
                assert(s[i].0 != s[j].0);
                if i == m {
                    assert(t[i].0 == s[i].0);
                } else if j == m {
                    assert(t[j].0 == s[j].0);
                }
            },
            None => {
                if j == s.len() {
                    assert(s[i].0 != k);
                } else {
                    assert(s[i].0 != s[j].0);
                }
            },
        }
    }
}

pub proof fn lemma_index_of_key_first(s: Seq<(Seq<char>, Seq<char>)>, k: Seq<char>, i: int)
    requires
        0 <= i < s.len(),
        s[i].0 == k,
        forall|j: int| 0 <= j < i ==> s[j].0 != k,
    ensures
        index_of_key(s, k) == Some(i),
{
    lemma_index_of_key(s, k);
    match index_of_key(s, k) {
        Some(m) => {
            if m < i {
            } else if m > i {
            }
        },
        None => {},
    }
}

impl View for StringMap {
    type V = Seq<(Seq<char>, Seq<char>)>;

    closed spec fn view(&self) -> Seq<(Seq<char>, Seq<char>)> {
        pair_views(self.entries@)
    }
}

impl StringMap {
    /// Every key occurs once.
    pub open spec fn wf(&self) -> bool {
        keys_unique(self@)
    }

    pub fn new() -> (r: Self)
        ensures
            r.wf(),
            r@ == Seq::<(Seq<char>, Seq<char>)>::empty(),
    {
        let r = StringMap { entries: Vec::new() };
        assert(r@ =~= Seq::<(Seq<char>, Seq<char>)>::empty());
        r
    }

    fn find(&self, key: &str) -> (r: Option<usize>)
        ensures
            match r {
                Some(i) => index_of_key(self@, key@) == Some(i as int),
                None => index_of_key(self@, key@) is None,
            },
    {
        let mut i: usize = 0;
        while i < self.entries.len()
            invariant
                i <= self.entries@.len(),
                forall|j: int| 0 <= j < i ==> (#[trigger] self@[j]).0 != key@,
            decreases self.entries@.len() - i,
        {
            if str_eq(self.entries[i].0.as_str(), key) {
                proof {
                    lemma_index_of_key_first(self@, key@, i as int);
                }
                return Some(i);
            }
            i = i + 1;
        }
        proof {
            lemma_index_of_key(self@, key@);
            match index_of_key(self@, key@) {
                Some(m) => {
                    assert(self@[m].0 != key@);
                },
                None => {},
            }
        }
        None
    }

    /// The value stored under `key`.
    pub fn get(&self, key: &str) -> (r: Option<&String>)
        ensures
            match r {
                Some(v) => map_get(self@, key@) == Some(v@),
                None => map_get(self@, key@) is None,
            },
    {
        proof {
            lemma_index_of_key(self@, key@);
        }
        match self.find(key) {
            Some(i) => Some(&self.entries[i].1),
            None => None,
        }
    }

    /// Stores `value` under `key`, replacing what was there.
    pub fn insert(&mut self, key: String, value: String)
        ensures
            final(self)@ == map_insert(old(self)@, key@, value@),
            old(self).wf() ==> final(self).wf(),
    {
        proof {
            if keys_unique(old(self)@) {
                lemma_map_insert_unique(old(self)@, key@, value@);
            }
        }
        match self.find(key.as_str()) {
            Some(i) => {
                proof {
                    lemma_index_of_key(old(self)@, key@);
                }
                self.entries.set(i, (key, value));
                assert(self@ =~= map_insert(old(self)@, key@, value@));
            },
            None => {
                self.entries.push((key, value));
                assert(self@ =~= map_insert(old(self)@, key@, value@));
            },
        }
    }

    pub fn len(&self) -> (r: usize)
        ensures
            r == self@.len(),
    {
        self.entries.len()
    }

    /// The key and value of the entry at `i`, in insertion order.
    pub fn entry(&self, i: usize) -> (r: (&String, &String))
        requires
            i < self@.len(),
        ensures
            (r.0@, r.1@) == self@[i as int],
    {
        (&self.entries[i].0, &self.entries[i].1)
    }

    /// The entries, in insertion order.
    pub fn into_entries(self) -> (r: Vec<(String, String)>)
        ensures
            pair_views(r@) == self@,
    {
        self.entries
    }
}

impl Default for StringMap {
    fn default() -> (r: Self)
        ensures
            r.wf(),
            r@ == Seq::<(Seq<char>, Seq<char>)>::empty(),
    {
        StringMap::new()
    }
}

impl Clone for StringMap {
    fn clone(&self) -> (r: Self)
        ensures
            r@ == self@,
    {
        let mut entries: Vec<(String, String)> = Vec::new();
        let mut i: usize = 0;
        while i < self.entries.len()
            invariant
                i <= self.entries@.len(),
                entries@.len() == i,
                forall|j: int| 0 <= j < i ==> (#[trigger] entries@[j]).0@ == self.entries@[j].0@ && entries@[j].1@ == self.entries@[j].1@,
            decreases self.entries@.len() - i,
        {
            entries.push((self.entries[i].0.clone(), self.entries[i].1.clone()));
            i = i + 1;
        }
        let r = StringMap { entries };
        assert(r@ =~= self@);
        r
    }
}

} // verus!

//! Small string-keyed maps with unique keys, in insertion order.

use crate::text::{chars_of, same_chars};
use vstd::prelude::*;

verus! {

/// The map denoted by a list of entries in which later entries take precedence.
pub open spec fn entries_map<V>(entries: Seq<(Seq<char>, V)>) -> Map<Seq<char>, V>
    decreases entries.len(),
{
    if entries.len() == 0 {
        Map::empty()
    } else {
        entries_map(entries.drop_last()).insert(entries.last().0, entries.last().1)
    }
}

/// String keys mapped to string values. Keys are unique; entries keep the
/// order in which their keys were first inserted.
#[derive(Debug)]
pub struct InfoMap {
    entries: Vec<(String, String)>,
}

impl View for InfoMap {
    type V = Map<Seq<char>, Seq<char>>;

    /// The map from keys to values.
    open spec fn view(&self) -> Map<Seq<char>, Seq<char>> {
        entries_map(self.entries_view())
    }
}

impl InfoMap {
    /// The entries as character sequences, in order.
    pub closed spec fn entries_view(&self) -> Seq<(Seq<char>, Seq<char>)> {
        self.entries@.map_values(|e: (String, String)| (e.0@, e.1@))
    }

    /// The keys of the entries are pairwise distinct.
    #[verifier::type_invariant]
    spec fn wf(&self) -> bool {
        keys_distinct(self.entries_view())
    }

    /// The empty map.
    pub fn new() -> (res: Self)
        ensures
            res@ == Map::<Seq<char>, Seq<char>>::empty(),
            res.entries_view() == Seq::<(Seq<char>, Seq<char>)>::empty(),
    {
        let res = InfoMap { entries: Vec::new() };
        assert(res.entries_view() =~= Seq::<(Seq<char>, Seq<char>)>::empty());
        res
    }

    /// Number of keys.
    pub fn len(&self) -> (res: usize)
        ensures
            res == self.entries_view().len(),
    {
        self.entries.len()
    }

    /// Whether the map has no keys.
    pub fn is_empty(&self) -> (res: bool)
        ensures
            res == (self.entries_view().len() == 0),
    {
        self.entries.len() == 0
    }

    /// Inserts `value` under `key`, replacing any previous value.
    pub fn insert(&mut self, key: String, value: String)
        ensures
            final(self)@ == old(self)@.insert(key@, value@),
    {
        proof {
            use_type_invariant(&*self);
            lemma_entries_map_keys(self.entries_view());
        }
        let ghost before = self.entries_view();
        let mut entries: Vec<(String, String)> = Vec::new();
        std::mem::swap(&mut entries, &mut self.entries);
        let ghost view_of = |es: Seq<(String, String)>| es.map_values(|e: (String, String)| (e.0@, e.1@));
        assert(view_of(entries@) == before);
        match position_of(&entries, &key) {
            Some(i) => {
                proof {
                    assert(before[i as int].0 == key@);
                }
                entries.set(i, (key, value));
                proof {
                    assert(view_of(entries@) =~= before.update(i as int, (key@, value@)));
                    lemma_entries_map_update(before, i as int, key@, value@);
                }
            },
            None => {
                proof {
                    assert forall|j: int| 0 <= j < before.len() implies before[j].0 != key@ by {
                        assert(before[j].0 == entries@[j].0@);
                    }
                }
                entries.push((key, value));
                proof {
                    assert(view_of(entries@) =~= before.push((key@, value@)));
                    assert(view_of(entries@).drop_last() =~= before);
                }
            },
        }
        assert(keys_distinct(view_of(entries@)));
        self.entries = entries;
    }

    /// The value stored under `key`.
    pub fn get(&self, key: &str) -> (res: Option<&String>)
        ensures
            match res {
                Some(v) => self@.contains_key(key@) && self@[key@] == v@,
                None => !self@.contains_key(key@),
            },
    {
        let k = key.to_owned();
        proof {
            use_type_invariant(self);
            lemma_entries_map_keys(self.entries_view());
        }
        match position_of(&self.entries, &k) {
            Some(i) => {
                proof {
                    lemma_entries_map_at(self.entries_view(), i as int);
                }
                Some(&self.entries[i].1)
            },
            None => None,
        }
    }

    /// Whether `key` has a value.
    pub fn contains_key(&self, key: &str) -> (res: bool)
        ensures
            res == self@.contains_key(key@),
    {
        self.get(key).is_some()
    }

    /// The keys, in insertion order.
    pub fn keys(&self) -> (res: Vec<String>)
        ensures
            res@.len() == self.entries_view().len(),
            forall|i: int| 0 <= i < res@.len() ==> res@[i]@ == self.entries_view()[i].0,
    {
        let mut res: Vec<String> = Vec::new();
        let mut i: usize = 0;
        while i < self.entries.len()
            invariant
                0 <= i <= self.entries@.len(),
                res@.len() == i,
                forall|k: int| 0 <= k < i ==> res@[k]@ == self.entries@[k].0@,
            decreases self.entries@.len() - i,
        {
            res.push(self.entries[i].0.clone());
            i = i + 1;
        }
        res
    }
}

/// String keys mapped to integer values, with the same discipline as
/// [`InfoMap`]: unique keys, insertion order.
#[derive(Debug)]
pub struct NamedValues {
    entries: Vec<(String, i32)>,
}

impl View for NamedValues {
    type V = Map<Seq<char>, i32>;

    /// The map from keys to values.
    open spec fn view(&self) -> Map<Seq<char>, i32> {
        entries_map(self.entries_view())
    }
}

impl NamedValues {
    /// The entries with their keys as character sequences, in order.
    pub closed spec fn entries_view(&self) -> Seq<(Seq<char>, i32)> {
        self.entries@.map_values(|e: (String, i32)| (e.0@, e.1))
    }

    /// The keys of the entries are pairwise distinct.
    #[verifier::type_invariant]
    spec fn wf(&self) -> bool {
        keys_distinct(self.entries_view())
    }

    /// The empty map.
    pub fn new() -> (res: Self)
        ensures
            res@ == Map::<Seq<char>, i32>::empty(),
    {
        let res = NamedValues { entries: Vec::new() };
        assert(res.entries_view() =~= Seq::<(Seq<char>, i32)>::empty());
        res
    }

    /// The value stored under `key`.
    pub fn get(&self, key: &str) -> (res: Option<i32>)
        ensures
            match res {
                Some(v) => self@.contains_key(key@) && self@[key@] == v,
                None => !self@.contains_key(key@),
            },
    {
        proof {
            use_type_invariant(self);
            lemma_entries_map_keys(self.entries_view());
        }
        match named_position(&self.entries, key) {
            Some(i) => {
                proof {
                    assert(self.entries_view()[i as int] == (self.entries@[i as int].0@, self.entries@[i as int].1));
                    lemma_entries_map_at(self.entries_view(), i as int);
                }
                Some(self.entries[i].1)
            },
            None => {
                proof {
                    assert forall|j: int| 0 <= j < self.entries_view().len() implies #[trigger] self.entries_view()[j].0 != key@ by {
                        assert(self.entries_view()[j].0 == self.entries@[j].0@);
                    }
                }
                None
            },
        }
    }

    /// Stores `value` under `key`, replacing any previous value.
    pub fn insert(&mut self, key: &str, value: i32)
        ensures
            final(self)@ == old(self)@.insert(key@, value),
    {
        proof {
            use_type_invariant(&*self);
            lemma_entries_map_keys(self.entries_view());
        }
        let ghost before = self.entries_view();
        let mut entries: Vec<(String, i32)> = Vec::new();
        std::mem::swap(&mut entries, &mut self.entries);
        let ghost view_of = |es: Seq<(String, i32)>| es.map_values(|e: (String, i32)| (e.0@, e.1));
        assert(view_of(entries@) == before);
        match named_position(&entries, key) {
            Some(i) => {
                proof {
                    assert(before[i as int].0 == key@);
                }
                entries.set(i, (key.to_string(), value));
                proof {
                    assert(view_of(entries@) =~= before.update(i as int, (key@, value)));
                    lemma_entries_map_update(before, i as int, key@, value);
                }
            },
            None => {
                proof {
                    assert forall|j: int| 0 <= j < before.len() implies before[j].0 != key@ by {
                        assert(before[j].0 == entries@[j].0@);
                    }
                }
                entries.push((key.to_string(), value));
                proof {
                    assert(view_of(entries@) =~= before.push((key@, value)));
                    assert(view_of(entries@).drop_last() =~= before);
                }
            },
        }
        assert(keys_distinct(view_of(entries@)));
        self.entries = entries;
    }
}

impl Clone for InfoMap {
    /// A copy with the same entries.
    fn clone(&self) -> (res: Self)
        ensures
            res.entries_view() == self.entries_view(),
            res@ == self@,
    {
        proof {
            use_type_invariant(self);
        }
        let mut entries: Vec<(String, String)> = Vec::new();
        let mut i: usize = 0;
        while i < self.entries.len()
            invariant
                0 <= i <= self.entries@.len(),
                entries@.len() == i,
                forall|k: int|
                    0 <= k < i ==> (#[trigger] entries@[k]).0@ == self.entries@[k].0@
                        && entries@[k].1@ == self.entries@[k].1@,
            decreases self.entries@.len() - i,
        {
            entries.push((self.entries[i].0.clone(), self.entries[i].1.clone()));
            i = i + 1;
        }
        let ghost a = entries@.map_values(|e: (String, String)| (e.0@, e.1@));
        assert(a =~= self.entries_view());
        InfoMap { entries }
    }
}

impl Clone for NamedValues {
    /// A copy with the same entries.
    fn clone(&self) -> (res: Self)
        ensures
            res.entries_view() == self.entries_view(),
            res@ == self@,
    {
        proof {
            use_type_invariant(self);
        }
        let mut entries: Vec<(String, i32)> = Vec::new();
        let mut i: usize = 0;
        while i < self.entries.len()
            invariant
                0 <= i <= self.entries@.len(),
                entries@.len() == i,
                forall|k: int|
                    0 <= k < i ==> (#[trigger] entries@[k]).0@ == self.entries@[k].0@
                        && entries@[k].1 == self.entries@[k].1,
            decreases self.entries@.len() - i,
        {
            entries.push((self.entries[i].0.clone(), self.entries[i].1));
            i = i + 1;
        }
        let ghost a = entries@.map_values(|e: (String, i32)| (e.0@, e.1));
        assert(a =~= self.entries_view());
        NamedValues { entries }
    }
}

/// Position of `key` among `entries`.
fn named_position(entries: &Vec<(String, i32)>, key: &str) -> (res: Option<usize>)
    ensures
        match res {
            Some(i) => i < entries@.len() && entries@[i as int].0@ == key@,
            None => forall|i: int|
                0 <= i < entries@.len() ==> entries@[i].0@ != key@,
        },
{
    let k = chars_of(key);
    let mut i: usize = 0;
    while i < entries.len()
        invariant
            0 <= i <= entries@.len(),
            k@ == key@,
            forall|j: int| 0 <= j < i ==> entries@[j].0@ != key@,
        decreases entries@.len() - i,
    {
        let e = chars_of(entries[i].0.as_str());
        if same_chars(&e, &k) {
            return Some(i);
        }
        i = i + 1;
    }
    None
}

/// Position of `key` among `entries`.
fn position_of(entries: &Vec<(String, String)>, key: &String) -> (res: Option<usize>)
    ensures
        match res {
            Some(i) => i < entries@.len() && entries@[i as int].0@ == key@,
            None => forall|i: int| 0 <= i < entries@.len() ==> entries@[i].0@ != key@,
        },
{
    let mut i: usize = 0;
    while i < entries.len()
        invariant
            0 <= i <= entries@.len(),
            forall|k: int| 0 <= k < i ==> entries@[k].0@ != key@,
        decreases entries@.len() - i,
    {
        if entries[i].0 == *key {
            return Some(i);
        }
        i = i + 1;
    }
    None
}

/// The keys of `entries` are pairwise distinct.
pub open spec fn keys_distinct<V>(entries: Seq<(Seq<char>, V)>) -> bool {
    forall|i: int, j: int| 0 <= i < j < entries.len() ==> #[trigger] entries[i].0 != #[trigger] entries[j].0
}

/// Every key of the map comes from some entry, and every entry's key is in the map.
pub proof fn lemma_entries_map_keys<V>(entries: Seq<(Seq<char>, V)>)
    ensures
        forall|k: Seq<char>|
            entries_map(entries).contains_key(k) <==> exists|i: int|
                0 <= i < entries.len() && #[trigger] entries[i].0 == k,
    decreases entries.len(),
{
    if entries.len() > 0 {
        lemma_entries_map_keys(entries.drop_last());
        let d = entries.drop_last();
        let n = entries.len() - 1;
        assert forall|k: Seq<char>|
            entries_map(entries).contains_key(k) <==> exists|i: int|
                0 <= i < entries.len() && #[trigger] entries[i].0 == k by {
            if entries_map(entries).contains_key(k) {
                if k == entries[n].0 {
                    assert(0 <= n < entries.len() && entries[n].0 == k);
                } else {
                    assert(entries_map(d).contains_key(k));
                    let i = choose|i: int| 0 <= i < d.len() && #[trigger] d[i].0 == k;
                    assert(entries[i] == d[i]);
                    assert(0 <= i < entries.len() && entries[i].0 == k);
                }
            }
            if exists|i: int| 0 <= i < entries.len() && #[trigger] entries[i].0 == k {
                let i = choose|i: int| 0 <= i < entries.len() && #[trigger] entries[i].0 == k;
                if i < n {
                    assert(d[i] == entries[i]);
                    assert(0 <= i < d.len() && d[i].0 == k);
                    assert(entries_map(d).contains_key(k));
                }
            }
        }
    }
}

/// With unique keys, the value of an entry's key is that entry's value.
pub proof fn lemma_entries_map_at<V>(entries: Seq<(Seq<char>, V)>, i: int)
    requires
        0 <= i < entries.len(),
        forall|a: int, b: int|
            0 <= a < b < entries.len() ==> #[trigger] entries[a].0 != #[trigger] entries[b].0,
    ensures
        entries_map(entries).contains_key(entries[i].0),
        entries_map(entries)[entries[i].0] == entries[i].1,
    decreases entries.len(),
{
    if i < entries.len() - 1 {
        let d = entries.drop_last();
        assert(d[i] == entries[i]);
        assert forall|a: int, b: int| 0 <= a < b < d.len() implies #[trigger] d[a].0 != #[trigger] d[b].0 by {
            assert(d[a] == entries[a]);
            assert(d[b] == entries[b]);
        }
        lemma_entries_map_at(d, i);
        assert(entries[i].0 != entries[entries.len() - 1].0);
    }
}

/// Replacing the value of an existing key updates the map at that key only.
pub proof fn lemma_entries_map_update<V>(
    entries: Seq<(Seq<char>, V)>,
    i: int,
    k: Seq<char>,
    v: V,
)
    requires
        0 <= i < entries.len(),
        entries[i].0 == k,
        forall|a: int, b: int|
            0 <= a < b < entries.len() ==> #[trigger] entries[a].0 != #[trigger] entries[b].0,
    ensures
        entries_map(entries.update(i, (k, v))) == entries_map(entries).insert(k, v),
    decreases entries.len(),
{
    let u = entries.update(i, (k, v));
    if i == entries.len() - 1 {
        assert(u.drop_last() =~= entries.drop_last());
        assert(entries_map(u) =~= entries_map(entries).insert(k, v));
    } else {
        let d = entries.drop_last();
        assert forall|a: int, b: int| 0 <= a < b < d.len() implies #[trigger] d[a].0 != #[trigger] d[b].0 by {
            assert(d[a] == entries[a]);
            assert(d[b] == entries[b]);
        }
        lemma_entries_map_update(d, i, k, v);
        assert(u.drop_last() =~= d.update(i, (k, v)));
        assert(entries.last().0 != k);
        assert(entries_map(u) =~= entries_map(entries).insert(k, v));
    }
}

} // verus!

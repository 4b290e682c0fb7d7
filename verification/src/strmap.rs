//! A small map keyed by strings, kept as a list of distinct keys in insertion order.

use vstd::prelude::*;
use crate::text::str_eq;

verus! {

/// The map an entry list denotes: later entries override earlier ones.
pub open spec fn entries_map<V>(s: Seq<(String, V)>) -> Map<Seq<char>, V>
    decreases s.len(),
{
    if s.len() == 0 {
        Map::empty()
    } else {
        entries_map(s.drop_last()).insert(s.last().0@, s.last().1)
    }
}

/// No key occurs twice.
pub open spec fn distinct_keys<V>(s: Seq<(String, V)>) -> bool {
    forall|i: int, j: int| 0 <= i < j < s.len() ==> (#[trigger] s[i]).0@ != (#[trigger] s[j]).0@
}

proof fn lemma_entries_map_at<V>(s: Seq<(String, V)>, i: int)
    requires
        distinct_keys(s),
        0 <= i < s.len(),
    ensures
        entries_map(s).contains_key(s[i].0@),
        entries_map(s)[s[i].0@] == s[i].1,
    decreases s.len(),
{
    if i < s.len() - 1 {
        assert(s.drop_last()[i] == s[i]);
        assert(distinct_keys(s.drop_last()));
        lemma_entries_map_at(s.drop_last(), i);
        assert(s[i].0@ != s.last().0@);
    }
}

proof fn lemma_entries_map_absent<V>(s: Seq<(String, V)>, k: Seq<char>)
    requires
        forall|i: int| 0 <= i < s.len() ==> (#[trigger] s[i]).0@ != k,
    ensures
        !entries_map(s).contains_key(k),
    decreases s.len(),
{
    if s.len() > 0 {
        lemma_entries_map_absent(s.drop_last(), k);
    }
}

proof fn lemma_entries_map_update<V>(s: Seq<(String, V)>, i: int, key: String, v: V)
    requires
        distinct_keys(s),
        0 <= i < s.len(),
        s[i].0@ == key@,
    ensures
        distinct_keys(s.update(i, (key, v))),
        entries_map(s.update(i, (key, v))) == entries_map(s).insert(key@, v),
{
    let t = s.update(i, (key, v));
    assert(distinct_keys(t));
    assert forall|k: Seq<char>| entries_map(t).contains_key(k) <==> entries_map(s).insert(key@, v).contains_key(k) by {
        if exists|j: int| 0 <= j < s.len() && s[j].0@ == k {
            let j = choose|j: int| 0 <= j < s.len() && s[j].0@ == k;
            lemma_entries_map_at(s, j);
            lemma_entries_map_at(t, j);
        } else {
            lemma_entries_map_absent(s, k);
            lemma_entries_map_absent(t, k);
        }
    }
    assert forall|k: Seq<char>| entries_map(t).contains_key(k) implies entries_map(t)[k] == entries_map(s).insert(key@, v)[k] by {
        let j = choose|j: int| 0 <= j < s.len() && s[j].0@ == k;
        if !(0 <= j < s.len() && s[j].0@ == k) {
            lemma_entries_map_absent(t, k);
        }
        lemma_entries_map_at(s, j);
        lemma_entries_map_at(t, j);
    }
    assert(entries_map(t) =~= entries_map(s).insert(key@, v));
}

proof fn lemma_entries_map_remove<V>(s: Seq<(String, V)>, i: int)
    requires
        distinct_keys(s),
        0 <= i < s.len(),
    ensures
        distinct_keys(s.remove(i)),
        entries_map(s.remove(i)) == entries_map(s).remove(s[i].0@),
{
    let t = s.remove(i);
    let key = s[i].0@;
    assert(distinct_keys(t));
    assert forall|k: Seq<char>| entries_map(t).contains_key(k) <==> entries_map(s).remove(key).contains_key(k) by {
        if exists|j: int| 0 <= j < t.len() && t[j].0@ == k {
            let j = choose|j: int| 0 <= j < t.len() && t[j].0@ == k;
            lemma_entries_map_at(t, j);
            let js = if j < i { j } else { j + 1 };
            assert(t[j] == s[js]);
            lemma_entries_map_at(s, js);
        } else {
            lemma_entries_map_absent(t, k);
            if k != key {
                if exists|j: int| 0 <= j < s.len() && s[j].0@ == k {
                    let j = choose|j: int| 0 <= j < s.len() && s[j].0@ == k;
                    let jt = if j < i { j } else { j - 1 };
                    assert(t[jt] == s[j]);
                } else {
                    lemma_entries_map_absent(s, k);
                }
            }
        }
    }
    assert forall|k: Seq<char>| entries_map(t).contains_key(k) implies entries_map(t)[k] == entries_map(s).remove(key)[k] by {
        if exists|j: int| 0 <= j < t.len() && t[j].0@ == k {
            let j = choose|j: int| 0 <= j < t.len() && t[j].0@ == k;
            lemma_entries_map_at(t, j);
            let js = if j < i { j } else { j + 1 };
            assert(t[j] == s[js]);
            lemma_entries_map_at(s, js);
        } else {
            lemma_entries_map_absent(t, k);
        }
    }
    assert(entries_map(t) =~= entries_map(s).remove(key));
}

/// A map from strings to values (each key once, insertion order kept).
pub struct StrMap<V> {
    entries: Vec<(String, V)>,
}

impl<V> View for StrMap<V> {
    type V = Map<Seq<char>, V>;

    closed spec fn view(&self) -> Map<Seq<char>, V> {
        entries_map(self.entries@)
    }
}

impl<V> StrMap<V> {
    #[verifier::type_invariant]
    closed spec fn keys_distinct(&self) -> bool {
        distinct_keys(self.entries@)
    }

    pub fn new() -> (m: Self)
        ensures
            m@ == Map::<Seq<char>, V>::empty(),
    {
        StrMap { entries: Vec::new() }
    }

    /// The position of `key`, if present.
    fn find(&self, key: &str) -> (r: Option<usize>)
        ensures
            r matches Some(i) ==> i < self.entries@.len() && self.entries@[i as int].0@ == key@,
            r is None ==> forall|i: int| 0 <= i < self.entries@.len() ==> (#[trigger] self.entries@[i]).0@ != key@,
    {
        let mut k: usize = 0;
        while k < self.entries.len()
            invariant
                k <= self.entries@.len(),
                forall|i: int| 0 <= i < k ==> (#[trigger] self.entries@[i]).0@ != key@,
            decreases self.entries.len() - k,
        {
            if str_eq(self.entries[k].0.as_str(), key) {
                return Some(k);
            }
            k = k + 1;
        }
        None
    }

    pub fn get(&self, key: &str) -> (r: Option<&V>)
        ensures
            r is Some <==> self@.contains_key(key@),
            r matches Some(v) ==> *v == self@[key@],
    {
        proof {
            use_type_invariant(self);
        }
        match self.find(key) {
            Some(i) => {
                proof {
                    lemma_entries_map_at(self.entries@, i as int);
                }
                Some(&self.entries[i].1)
            }
            None => {
                proof {
                    lemma_entries_map_absent(self.entries@, key@);
                }
                None
            }
        }
    }

    pub fn contains_key(&self, key: &str) -> (b: bool)
        ensures
            b == self@.contains_key(key@),
    {
        self.get(key).is_some()
    }

    /// Binds `key` to `value`, replacing any earlier binding.
    pub fn insert(&mut self, key: String, value: V)
        ensures
            final(self)@ == old(self)@.insert(key@, value),
    {
        proof {
            use_type_invariant(&*self);
        }
        let mut entries: Vec<(String, V)> = Vec::new();
        std::mem::swap(&mut entries, &mut self.entries);
        let ghost s = entries@;
        let found = {
            let tmp = StrMap { entries };
            let f = tmp.find(key.as_str());
            entries = tmp.entries;
            f
        };
        match found {
            Some(i) => {
                proof {
                    lemma_entries_map_update(s, i as int, key, value);
                }
                entries.set(i, (key, value));
            }
            None => {
                proof {
                    assert(entries@.push((key, value)).drop_last() =~= s);
                }
                entries.push((key, value));
            }
        }
        self.entries = entries;
    }

    /// Inserts every binding of `other`, its bindings winning over existing ones.
    pub fn extend(&mut self, other: StrMap<V>)
        ensures
            final(self)@ == old(self)@.union_prefer_right(other@),
    {
        let StrMap { entries } = other;
        let ghost orig = entries@;
        let ghost start = self@;
        let mut entries = entries;
        let mut i: usize = 0;
        assert(orig.take(0) =~= Seq::<(String, V)>::empty());
        assert(start.union_prefer_right(entries_map(orig.take(0))) =~= start);
        assert(orig.skip(0) =~= orig);
        assert(orig.len() == entries.len());
        while entries.len() > 0
            invariant
                orig.len() <= usize::MAX,
                i <= orig.len(),
                entries@ == orig.skip(i as int),
                self@ == start.union_prefer_right(entries_map(orig.take(i as int))),
            decreases entries.len(),
        {
            let (k, v) = entries.remove(0);
            proof {
                assert(orig.take(i + 1).drop_last() =~= orig.take(i as int));
                assert(orig[i as int] == (k, v));
            }
            self.insert(k, v);
            proof {
                assert(self@ =~= start.union_prefer_right(entries_map(orig.take(i + 1))));
                assert(entries@ =~= orig.skip(i + 1));
            }
            i = i + 1;
        }
        assert(orig.take(i as int) =~= orig);
    }

    /// The bindings, in insertion order, each key once.
    pub fn entries(&self) -> (r: &Vec<(String, V)>)
        ensures
            entries_map(r@) == self@,
            distinct_keys(r@),
    {
        proof {
            use_type_invariant(self);
        }
        &self.entries
    }

    /// Removes the binding of `key`, if any.
    /// Removes the binding of `key` and gives back its value.
    pub fn take(&mut self, key: &str) -> (r: Option<V>)
        ensures
            final(self)@ == old(self)@.remove(key@),
            r is Some <==> old(self)@.contains_key(key@),
            r matches Some(v) ==> v == old(self)@[key@],
    {
        proof {
            use_type_invariant(&*self);
        }
        match self.find(key) {
            Some(i) => {
                let mut entries: Vec<(String, V)> = Vec::new();
                std::mem::swap(&mut entries, &mut self.entries);
                proof {
                    lemma_entries_map_remove(entries@, i as int);
                    lemma_entries_map_at(entries@, i as int);
                }
                let (_, v) = entries.remove(i);
                self.entries = entries;
                Some(v)
            }
            None => {
                proof {
                    lemma_entries_map_absent(self.entries@, key@);
                    assert(self@.remove(key@) =~= self@);
                }
                None
            }
        }
    }

    pub fn remove(&mut self, key: &str)
        ensures
            final(self)@ == old(self)@.remove(key@),
    {
        proof {
            use_type_invariant(&*self);
        }
        match self.find(key) {
            Some(i) => {
                let mut entries: Vec<(String, V)> = Vec::new();
                std::mem::swap(&mut entries, &mut self.entries);
                proof {
                    lemma_entries_map_remove(entries@, i as int);
                }
                entries.remove(i);
                self.entries = entries;
            }
            None => {
                proof {
                    lemma_entries_map_absent(self.entries@, key@);
                    assert(self@.remove(key@) =~= self@);
                }
            }
        }
    }
}


proof fn lemma_entries_map_same_keys<V>(s: Seq<(String, V)>, t: Seq<(String, V)>)
    requires
        s.len() == t.len(),
        forall|i: int| 0 <= i < s.len() ==> (#[trigger] s[i]).0@ == t[i].0@ && s[i].1 == t[i].1,
    ensures
        entries_map(s) == entries_map(t),
        distinct_keys(s) ==> distinct_keys(t),
    decreases s.len(),
{
    if s.len() > 0 {
        lemma_entries_map_same_keys(s.drop_last(), t.drop_last());
    }
    if distinct_keys(s) {
        assert forall|i: int, j: int| 0 <= i < j < t.len() implies (#[trigger] t[i]).0@ != (#[trigger] t[j]).0@ by {
            assert(s[i].0@ == t[i].0@);
            assert(s[j].0@ == t[j].0@);
        }
    }
}

impl<V: Copy> StrMap<V> {
    /// A copy of the map.
    pub fn copy(&self) -> (r: Self)
        ensures
            r@ == self@,
    {
        proof {
            use_type_invariant(self);
        }
        let mut out: Vec<(String, V)> = Vec::new();
        let mut i: usize = 0;
        while i < self.entries.len()
            invariant
                i <= self.entries@.len(),
                out@.len() == i,
                forall|q: int| 0 <= q < i ==> (#[trigger] out@[q]).0@ == self.entries@[q].0@ && out@[q].1 == self.entries@[q].1,
            decreases self.entries.len() - i,
        {
            let k = self.entries[i].0.clone();
            let v = self.entries[i].1;
            out.push((k, v));
            i = i + 1;
        }
        proof {
            lemma_entries_map_same_keys(self.entries@, out@);
        }
        StrMap { entries: out }
    }
}

} // verus!

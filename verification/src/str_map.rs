//! String-keyed maps with at most one entry per key.

use vstd::prelude::*;
use crate::text::str_eq;

verus! {

/// The map that a list of entries describes; later entries win.
pub open spec fn entries_map<V: View>(e: Seq<(String, V)>) -> Map<Seq<char>, V::V>
    decreases e.len(),
{
    if e.len() == 0 {
        Map::empty()
    } else {
        entries_map(e.drop_last()).insert(e.last().0@, e.last().1@)
    }
}

/// No two entries share a key.
pub open spec fn keys_distinct<V>(e: Seq<(String, V)>) -> bool {
    forall|i: int, j: int| 0 <= i < j < e.len() ==> e[i].0@ != e[j].0@
}

/// What an entry list holds at each key.
pub proof fn lemma_entries_map<V: View>(e: Seq<(String, V)>)
    requires
        keys_distinct(e),
    ensures
        entries_map(e).dom().finite(),
        entries_map(e).len() == e.len(),
        forall|k: Seq<char>| #[trigger]
            entries_map(e).contains_key(k) <==> exists|i: int| 0 <= i < e.len() && e[i].0@ == k,
        forall|i: int| #![trigger e[i]] 0 <= i < e.len() ==> entries_map(e)[e[i].0@] == e[i].1@,
        forall|i: int| 0 <= i < e.len() ==> entries_map(e).contains_key(#[trigger] e[i].0@),
    decreases e.len(),
{
    if e.len() > 0 {
        let d = e.drop_last();
        lemma_entries_map(d);
        assert forall|k: Seq<char>| #[trigger]
            entries_map(e).contains_key(k) <==> exists|i: int| 0 <= i < e.len() && e[i].0@ == k by {
            if entries_map(e).contains_key(k) && k != e.last().0@ {
                let i = choose|i: int| 0 <= i < d.len() && d[i].0@ == k;
                assert(e[i] == d[i]);
            }
            if exists|i: int| 0 <= i < e.len() && e[i].0@ == k {
                let i = choose|i: int| 0 <= i < e.len() && e[i].0@ == k;
                if i < e.len() - 1 {
                    assert(d[i] == e[i]);
                }
            }
        }
        assert(!entries_map(d).contains_key(e.last().0@)) by {
            if entries_map(d).contains_key(e.last().0@) {
                let i = choose|i: int| 0 <= i < d.len() && d[i].0@ == e.last().0@;
                assert(e[i] == d[i]);
            }
        }
        assert forall|i: int| #![trigger e[i]] 0 <= i < e.len() implies entries_map(e)[e[i].0@]
            == e[i].1@ by {
            if i < e.len() - 1 {
                assert(e[i] == d[i]);
            }
        }
    }
}

/// Replacing the value of an entry in place keeps the keys distinct and
/// updates the map at that key.
pub proof fn lemma_update_entry<V: View>(old_e: Seq<(String, V)>, i: int, e: (String, V))
    requires
        keys_distinct(old_e),
        0 <= i < old_e.len(),
        e.0@ == old_e[i].0@,
    ensures
        keys_distinct(old_e.update(i, e)),
        entries_map(old_e.update(i, e)) == entries_map(old_e).insert(e.0@, e.1@),
{
    let new_e = old_e.update(i, e);
    let k = e.0@;
    let v = e.1@;
    assert(keys_distinct(new_e)) by {
        assert forall|a: int, b: int| 0 <= a < b < new_e.len() implies new_e[a].0@ != new_e[b].0@ by {
            if a != i && b != i {
                assert(new_e[a] == old_e[a] && new_e[b] == old_e[b]);
            } else if a == i {
                assert(new_e[b] == old_e[b]);
            } else {
                assert(new_e[a] == old_e[a]);
            }
        }
    }
    lemma_entries_map(new_e);
    lemma_entries_map(old_e);
    assert(entries_map(new_e) =~= entries_map(old_e).insert(k, v)) by {
        assert forall|x: Seq<char>| #[trigger] entries_map(new_e).contains_key(x) == entries_map(old_e).insert(k, v).contains_key(x) by {
            if x == k {
                assert(new_e[i].0@ == x);
            }
            if entries_map(old_e).contains_key(x) {
                let j = choose|j: int| 0 <= j < old_e.len() && old_e[j].0@ == x;
                if j != i {
                    assert(new_e[j] == old_e[j]);
                }
            }
            if entries_map(new_e).contains_key(x) {
                let j = choose|j: int| 0 <= j < new_e.len() && new_e[j].0@ == x;
                if j != i {
                    assert(new_e[j] == old_e[j]);
                }
            }
        }
        assert forall|x: Seq<char>| #[trigger] entries_map(new_e).contains_key(x) implies entries_map(new_e)[x] == entries_map(old_e).insert(k, v)[x] by {
            let j = choose|j: int| 0 <= j < new_e.len() && new_e[j].0@ == x;
            assert(entries_map(new_e)[new_e[j].0@] == new_e[j].1@);
            if j != i {
                assert(new_e[j] == old_e[j]);
                assert(entries_map(old_e)[old_e[j].0@] == old_e[j].1@);
            }
        }
    }
}

/// Map from strings to values, kept in order of first insertion.
#[derive(Debug)]
pub struct KeyMap<V> {
    entries: Vec<(String, V)>,
}

/// Map from strings to strings.
pub type StrMap = KeyMap<String>;

impl<V: View> View for KeyMap<V> {
    type V = Map<Seq<char>, V::V>;

    open spec fn view(&self) -> Map<Seq<char>, V::V> {
        self.mapping()
    }
}

impl<V> KeyMap<V> {
    #[verifier::type_invariant]
    spec fn inv(&self) -> bool {
        keys_distinct(self.entries@)
    }
}

impl<V: View> KeyMap<V> {
    /// The mapping held.
    pub closed spec fn mapping(&self) -> Map<Seq<char>, V::V> {
        entries_map(self.entries@)
    }

    /// The entries in storage order.
    pub closed spec fn entries_spec(&self) -> Seq<(String, V)> {
        self.entries@
    }

    /// The mapping is the one that the entries describe.
    pub proof fn lemma_entries_view(&self)
        ensures
            entries_map(self.entries_spec()) == self@,
    {
    }

    /// An empty map.
    pub fn new() -> (res: Self)
        ensures
            res@ == Map::<Seq<char>, V::V>::empty(),
            res.entries_spec().len() == 0,
    {
        KeyMap { entries: Vec::new() }
    }

    /// Index of `key`, if present.
    fn index_of(&self, key: &str) -> (res: Option<usize>)
        ensures
            match res {
                Some(i) => i < self.entries@.len() && self.entries@[i as int].0@ == key@,
                None => forall|i: int| 0 <= i < self.entries@.len() ==> self.entries@[i].0@ != key@,
            },
    {
        let mut i: usize = 0;
        while i < self.entries.len()
            invariant
                i <= self.entries@.len(),
                forall|j: int| 0 <= j < i ==> self.entries@[j].0@ != key@,
            decreases self.entries@.len() - i,
        {
            if str_eq(self.entries[i].0.as_str(), key) {
                return Some(i);
            }
            i = i + 1;
        }
        None
    }

    /// Whether `key` has a value.
    pub fn contains_key(&self, key: &str) -> (res: bool)
        ensures
            res == self@.contains_key(key@),
    {
        proof {
            use_type_invariant(self);
            lemma_entries_map(self.entries@);
        }
        self.index_of(key).is_some()
    }

    /// The value at `key`.
    pub fn get(&self, key: &str) -> (res: Option<&V>)
        ensures
            match res {
                Some(v) => self@.contains_key(key@) && v@ == self@[key@],
                None => !self@.contains_key(key@),
            },
    {
        proof {
            use_type_invariant(self);
            lemma_entries_map(self.entries@);
        }
        match self.index_of(key) {
            Some(i) => {
                assert(self.entries@[i as int] == self.entries@[i as int]);
                Some(&self.entries[i].1)
            },
            None => None,
        }
    }

    /// Number of keys.
    pub fn len(&self) -> (res: usize)
        ensures
            res == self@.len(),
    {
        proof {
            use_type_invariant(self);
            lemma_entries_map(self.entries@);
        }
        self.entries.len()
    }

    /// Whether the map is empty.
    pub fn is_empty(&self) -> (res: bool)
        ensures
            res == (self@.len() == 0),
    {
        self.len() == 0
    }

    /// Sets `key` to `value`, replacing any earlier value.
    pub fn insert(&mut self, key: String, value: V)
        ensures
            final(self)@ == old(self)@.insert(key@, value@),
    {
        proof {
            use_type_invariant(&*self);
            lemma_entries_map(self.entries@);
        }
        match self.index_of(key.as_str()) {
            Some(i) => {
                let ghost old_e = self.entries@;
                let ghost k = key@;
                let ghost v = value@;
                let mut entries: Vec<(String, V)> = Vec::new();
                std::mem::swap(&mut entries, &mut self.entries);
                entries.set(i, (key, value));
                let ghost new_e = entries@;
                assert(new_e[i as int].0@ == k && new_e[i as int].1@ == v);
                assert(keys_distinct(new_e)) by {
                    assert forall|a: int, b: int| 0 <= a < b < new_e.len() implies new_e[a].0@
                        != new_e[b].0@ by {
                        if a != i && b != i {
                            assert(new_e[a] == old_e[a] && new_e[b] == old_e[b]);
                        } else if a == i {
                            assert(new_e[b] == old_e[b]);
                        } else {
                            assert(new_e[a] == old_e[a]);
                        }
                    }
                }
                proof {
                    lemma_entries_map(new_e);
                }
                assert(entries_map(new_e) =~= entries_map(old_e).insert(k, v)) by {
                    assert forall|x: Seq<char>| #[trigger]
                        entries_map(new_e).contains_key(x) == entries_map(old_e).insert(
                            k,
                            v,
                        ).contains_key(x) by {
                        if x == k {
                            assert(new_e[i as int].0@ == x);
                        }
                        if entries_map(old_e).contains_key(x) {
                            let j = choose|j: int| 0 <= j < old_e.len() && old_e[j].0@ == x;
                            if j != i {
                                assert(new_e[j] == old_e[j]);
                            }
                        }
                        if entries_map(new_e).contains_key(x) {
                            let j = choose|j: int| 0 <= j < new_e.len() && new_e[j].0@ == x;
                            if j != i {
                                assert(new_e[j] == old_e[j]);
                            }
                        }
                    }
                    assert forall|x: Seq<char>| #[trigger]
                        entries_map(new_e).contains_key(x) implies entries_map(new_e)[x]
                        == entries_map(old_e).insert(k, v)[x] by {
                        let j = choose|j: int| 0 <= j < new_e.len() && new_e[j].0@ == x;
                        assert(entries_map(new_e)[new_e[j].0@] == new_e[j].1@);
                        if j != i {
                            assert(new_e[j] == old_e[j]);
                            assert(entries_map(old_e)[old_e[j].0@] == old_e[j].1@);
                        }
                    }
                }
                self.entries = entries;
            },
            None => {
                let ghost old_e = self.entries@;
                let ghost k = key@;
                let ghost v = value@;
                let mut entries: Vec<(String, V)> = Vec::new();
                std::mem::swap(&mut entries, &mut self.entries);
                entries.push((key, value));
                assert(entries@.drop_last() =~= old_e);
                assert(keys_distinct(entries@)) by {
                    assert forall|a: int, b: int| 0 <= a < b < entries@.len() implies entries@[a].0@
                        != entries@[b].0@ by {
                        assert(entries@[a] == old_e[a]);
                        if b < old_e.len() {
                            assert(entries@[b] == old_e[b]);
                        }
                    }
                }
                self.entries = entries;
            },
        }
    }

    /// Removes `key`; returns its value if it had one.
    pub fn remove(&mut self, key: &str) -> (res: Option<V>)
        ensures
            final(self)@ == old(self)@.remove(key@),
            match res {
                Some(v) => old(self)@.contains_key(key@) && v@ == old(self)@[key@],
                None => !old(self)@.contains_key(key@),
            },
    {
        proof {
            use_type_invariant(&*self);
            lemma_entries_map(self.entries@);
        }
        match self.index_of(key) {
            Some(i) => {
                let ghost old_e = self.entries@;
                let mut entries: Vec<(String, V)> = Vec::new();
                std::mem::swap(&mut entries, &mut self.entries);
                let (_k, v) = entries.remove(i);
                let ghost new_e = entries@;
                assert(new_e =~= old_e.subrange(0, i as int) + old_e.subrange(i + 1, old_e.len() as int));
                assert forall|j: int| 0 <= j < new_e.len() implies #[trigger] new_e[j] == (if j < i { old_e[j] } else { old_e[j + 1] }) by {}
                assert(keys_distinct(new_e)) by {
                    assert forall|a: int, b: int| 0 <= a < b < new_e.len() implies new_e[a].0@ != new_e[b].0@ by {
                        let oa = if a < i { a } else { a + 1 };
                        let ob = if b < i { b } else { b + 1 };
                        assert(new_e[a] == old_e[oa] && new_e[b] == old_e[ob]);
                    }
                }
                proof {
                    lemma_entries_map(new_e);
                }
                assert(entries_map(new_e) =~= entries_map(old_e).remove(key@)) by {
                    assert forall|x: Seq<char>| #[trigger] entries_map(new_e).contains_key(x) == entries_map(old_e).remove(key@).contains_key(x) by {
                        if entries_map(new_e).contains_key(x) {
                            let j = choose|j: int| 0 <= j < new_e.len() && new_e[j].0@ == x;
                            let oj = if j < i { j } else { j + 1 };
                            assert(new_e[j] == old_e[oj]);
                        }
                        if entries_map(old_e).contains_key(x) && x != key@ {
                            let j = choose|j: int| 0 <= j < old_e.len() && old_e[j].0@ == x;
                            if j < i {
                                assert(new_e[j] == old_e[j]);
                            } else {
                                assert(new_e[j - 1] == old_e[j]);
                            }
                        }
                    }
                    assert forall|x: Seq<char>| #[trigger] entries_map(new_e).contains_key(x) implies entries_map(new_e)[x] == entries_map(old_e)[x] by {
                        let j = choose|j: int| 0 <= j < new_e.len() && new_e[j].0@ == x;
                        let oj = if j < i { j } else { j + 1 };
                        assert(new_e[j] == old_e[oj]);
                        assert(entries_map(new_e)[new_e[j].0@] == new_e[j].1@);
                        assert(entries_map(old_e)[old_e[oj].0@] == old_e[oj].1@);
                    }
                }
                self.entries = entries;
                Some(v)
            },
            None => {
                assert(self@ =~= self@.remove(key@));
                None
            },
        }
    }

    /// Puts `value` at `key` in the key's place and returns the value it
    /// replaces; where `key` has no value nothing changes and `None` comes
    /// back.
    pub fn replace(&mut self, key: &str, value: V) -> (res: Option<V>)
        ensures
            final(self)@ == if old(self)@.contains_key(key@) { old(self)@.insert(key@, value@) } else { old(self)@ },
            match res {
                Some(v) => old(self)@.contains_key(key@) && v@ == old(self)@[key@],
                None => !old(self)@.contains_key(key@),
            },
    {
        proof {
            use_type_invariant(&*self);
            lemma_entries_map(self.entries@);
        }
        match self.index_of(key) {
            Some(i) => {
                let ghost old_e = self.entries@;
                let mut entries: Vec<(String, V)> = Vec::new();
                std::mem::swap(&mut entries, &mut self.entries);
                let (k, v) = entries.remove(i);
                assert(k@ == key@);
                assert(entries_map(old_e)[old_e[i as int].0@] == old_e[i as int].1@);
                entries.insert(i, (k, value));
                assert(entries@ =~= old_e.update(i as int, entries@[i as int]));
                proof {
                    lemma_update_entry(old_e, i as int, entries@[i as int]);
                }
                self.entries = entries;
                Some(v)
            },
            None => None,
        }
    }

    /// Keeps the entries whose key is in `keep` and drops the others.
    pub fn retain_keys(&mut self, keep: &Vec<String>)
        ensures
            final(self)@ == old(self)@.restrict(keep.deep_view().to_set()),
    {
        proof {
            use_type_invariant(&*self);
            lemma_entries_map(self.entries@);
        }
        let ghost e0 = self.entries@;
        let mut keys: Vec<String> = Vec::new();
        let mut i: usize = 0;
        while i < self.entries.len()
            invariant
                i <= self.entries@.len(),
                self.entries@ == e0,
                keys.deep_view() == e0.take(i as int).map_values(|e: (String, V)| e.0@),
            decreases self.entries@.len() - i,
        {
            let k = String::from_str(self.entries[i].0.as_str());
            let ghost before = keys.deep_view();
            let ghost before_v = keys@;
            keys.push(k);
            assert(keys.deep_view() =~= before.push(e0[i as int].0@)) by {
                assert(keys.deep_view().len() == before.len() + 1);
                assert forall|t: int| 0 <= t < before.len() implies keys.deep_view()[t] == before[t] by {
                    assert(keys@[t] == before_v[t]);
                }
            }
            assert(keys.deep_view() =~= e0.take(i + 1).map_values(|e: (String, V)| e.0@));
            i = i + 1;
        }
        assert(e0.take(i as int) =~= e0);
        let ghost kv = keys.deep_view();
        let ghost m0 = self@;
        let ghost keepv = keep.deep_view();
        assert forall|k: Seq<char>| m0.contains_key(k) implies kv.contains(k) by {
            let j = choose|j: int| 0 <= j < e0.len() && e0[j].0@ == k;
            assert(kv[j] == k);
        }
        let mut n: usize = 0;
        while n < keys.len()
            invariant
                n <= kv.len(),
                kv == keys.deep_view(),
                keepv == keep.deep_view(),
                forall|k: Seq<char>| m0.contains_key(k) ==> kv.contains(k),
                forall|k: Seq<char>| #[trigger] self@.contains_key(k) <==> (m0.contains_key(k) && (keepv.contains(k) || !kv.take(n as int).contains(k))),
                forall|k: Seq<char>| #[trigger] self@.contains_key(k) ==> self@[k] == m0[k],
            decreases kv.len() - n,
        {
            let key = keys[n].as_str();
            let mut found = false;
            let mut j: usize = 0;
            while j < keep.len()
                invariant
                    j <= keepv.len(),
                    keepv == keep.deep_view(),
                    found == keepv.take(j as int).contains(key@),
                decreases keepv.len() - j,
            {
                let same = str_eq(keep[j].as_str(), key);
                proof {
                    let t0 = keepv.take(j as int);
                    let t1 = keepv.take(j + 1);
                    assert(t1 =~= t0.push(keepv[j as int]));
                    assert(keepv[j as int] == keep[j as int]@);
                    if same {
                        assert(t1[j as int] == key@);
                    }
                    if t1.contains(key@) && !same {
                        let t = choose|t: int| 0 <= t < t1.len() && #[trigger] t1[t] == key@;
                        assert(t < j);
                        assert(t0[t] == key@);
                    }
                    if t0.contains(key@) {
                        let t = choose|t: int| 0 <= t < t0.len() && #[trigger] t0[t] == key@;
                        assert(t1[t] == key@);
                    }
                }
                if same {
                    found = true;
                }
                j = j + 1;
            }
            assert(keepv.take(j as int) =~= keepv);
            if !found {
                self.remove(key);
            }
            assert(kv.take(n + 1) =~= kv.take(n as int).push(kv[n as int]));
            assert forall|k: Seq<char>| #[trigger] self@.contains_key(k) <==> (m0.contains_key(k) && (keepv.contains(k) || !kv.take(n + 1).contains(k))) by {
                if k == kv[n as int] {
                    assert(kv.take(n + 1).contains(k)) by {
                        assert(kv.take(n + 1)[n as int] == k);
                    }
                } else {
                    if kv.take(n + 1).contains(k) {
                        let t = choose|t: int| 0 <= t < n + 1 && #[trigger] kv.take(n + 1)[t] == k;
                        assert(kv.take(n as int)[t] == k);
                    }
                }
            }
            n = n + 1;
        }
        assert(kv.take(n as int) =~= kv);
        assert(self@ =~= m0.restrict(keepv.to_set()));
    }

    /// The entries, one per key, in storage order.
    pub fn entries(&self) -> (res: &Vec<(String, V)>)
        ensures
            res@ == self.entries_spec(),
            keys_distinct(res@),
            entries_map(res@) == self@,
    {
        proof {
            use_type_invariant(self);
        }
        &self.entries
    }
}

impl KeyMap<String> {
    /// Inserts every entry of `other`; its values win.
    pub fn extend(&mut self, other: &StrMap)
        ensures
            final(self)@ == old(self)@.union_prefer_right(other@),
    {
        proof {
            use_type_invariant(other);
        }
        let mut i: usize = 0;
        while i < other.entries.len()
            invariant
                i <= other.entries@.len(),
                self@ == old(self)@.union_prefer_right(entries_map(other.entries@.take(i as int))),
            decreases other.entries@.len() - i,
        {
            let k = other.entries[i].0.clone();
            let v = other.entries[i].1.clone();
            self.insert(k, v);
            assert(other.entries@.take(i + 1).drop_last() =~= other.entries@.take(i as int));
            assert(self@ =~= old(self)@.union_prefer_right(entries_map(other.entries@.take(i + 1))));
            i = i + 1;
        }
        assert(other.entries@.take(i as int) =~= other.entries@);
    }

    /// A copy with the same mapping.
    pub fn duplicate(&self) -> (res: StrMap)
        ensures
            res@ == self@,
    {
        let mut out = StrMap::new();
        out.extend(self);
        assert(out@ =~= self@);
        out
    }

}

impl Clone for KeyMap<String> {
    fn clone(&self) -> (res: Self)
        ensures
            res@ == self@,
    {
        self.duplicate()
    }
}

} // verus!

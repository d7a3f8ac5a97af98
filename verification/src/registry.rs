//! Live objects of the application (sessions, forwards, transfers) kept by
//! their text id, at most one per id.
use vstd::prelude::*;

use crate::text::str_eq;

verus! {

/// A lowercase hexadecimal digit.
pub open spec fn is_lower_hex(c: char) -> bool {
    ('0' <= c && c <= '9') || ('a' <= c && c <= 'f')
}

/// A version-4 UUID in its hyphenated lowercase form: 32 hexadecimal digits
/// in groups of 8, 4, 4, 4 and 12 between hyphens, the version digit `4`
/// opening the third group and one of `8`, `9`, `a`, `b` the fourth.
pub open spec fn is_uuid_v4_text(s: Seq<char>) -> bool {
    &&& s.len() == 36
    &&& forall|i: int|
        0 <= i < 36 ==> if i == 8 || i == 13 || i == 18 || i == 23 {
            s[i] == '-'
        } else {
            is_lower_hex(#[trigger] s[i])
        }
    &&& s[14] == '4'
    &&& (s[19] == '8' || s[19] == '9' || s[19] == 'a' || s[19] == 'b')
}

/// `uuid::Uuid::new_v4().to_string()`: a random version-4 UUID, which its
/// `Display` writes hyphenated in lowercase. Which UUID comes back is left
/// unstated: its bits other than the version and the variant are random.
#[verifier::external_body]
fn random_uuid_text() -> (r: String)
    ensures
        is_uuid_v4_text(r@),
{
    uuid::Uuid::new_v4().to_string()
}

/// A fresh random id for a record or a session.
pub fn new_id() -> (r: String)
    ensures
        is_uuid_v4_text(r@),
{
    random_uuid_text()
}

/// Objects kept by a text id.
pub struct Registry<V> {
    entries: Vec<(String, V)>,
}

/// No id occurs twice.
pub open spec fn ids_distinct<V>(s: Seq<(String, V)>) -> bool {
    forall|i: int, j: int|
        0 <= i < s.len() && 0 <= j < s.len() && i != j ==> (#[trigger] s[i].0)@ != (#[trigger] s[j].0)@
}

/// Whether `s` holds an entry for `k`.
pub open spec fn has_id<V>(s: Seq<(String, V)>, k: Seq<char>) -> bool {
    exists|i: int| 0 <= i < s.len() && (#[trigger] s[i].0)@ == k
}

/// The entries as a map from id to object.
pub open spec fn map_of<V>(s: Seq<(String, V)>) -> Map<Seq<char>, V> {
    Map::new(
        |k: Seq<char>| has_id(s, k),
        |k: Seq<char>| s[choose|i: int| 0 <= i < s.len() && (#[trigger] s[i].0)@ == k].1,
    )
}

proof fn lemma_map_of_at<V>(s: Seq<(String, V)>, i: int)
    requires
        ids_distinct(s),
        0 <= i < s.len(),
    ensures
        map_of(s).contains_key(s[i].0@),
        map_of(s)[s[i].0@] == s[i].1,
{
    let k = s[i].0@;
    assert(has_id(s, k));
    let j = choose|j: int| 0 <= j < s.len() && (#[trigger] s[j].0)@ == k;
    assert(s[j].0@ == k);
    if j != i {
        assert(s[i].0@ != s[j].0@);
    }
}

/// With distinct ids the map has one key per entry.
proof fn lemma_dom_len<V>(s: Seq<(String, V)>)
    requires
        ids_distinct(s),
    ensures
        map_of(s).dom().finite(),
        map_of(s).dom().len() == s.len(),
    decreases s.len(),
{
    let m = map_of(s);
    if s.len() == 0 {
        assert(m.dom() =~= Set::<Seq<char>>::empty());
    } else {
        let t = s.drop_last();
        let n = t.len() as int;
        assert(ids_distinct(t)) by {
            assert forall|a: int, b: int|
                0 <= a < t.len() && 0 <= b < t.len() && a != b implies (#[trigger] t[a].0)@ != (#[trigger] t[b].0)@ by {
                assert(t[a] == s[a] && t[b] == s[b]);
            }
        }
        lemma_dom_len(t);
        let k = s[n].0@;
        assert(!map_of(t).dom().contains(k)) by {
            if has_id(t, k) {
                let j = choose|j: int| 0 <= j < t.len() && (#[trigger] t[j].0)@ == k;
                assert(t[j] == s[j]);
            }
        }
        assert(m.dom() =~= map_of(t).dom().insert(k)) by {
            assert forall|key: Seq<char>| #[trigger] m.dom().contains(key) <==> map_of(t).dom().contains(key) || key == k by {
                if has_id(s, key) {
                    let j = choose|j: int| 0 <= j < s.len() && (#[trigger] s[j].0)@ == key;
                    if j < n {
                        assert(t[j] == s[j]);
                    }
                }
                if has_id(t, key) {
                    let j = choose|j: int| 0 <= j < t.len() && (#[trigger] t[j].0)@ == key;
                    assert(t[j] == s[j]);
                }
            }
        }
    }
}

impl<V> Registry<V> {
    /// The objects by id.
    pub closed spec fn view(&self) -> Map<Seq<char>, V> {
        map_of(self.entries@)
    }

    /// The registry's invariant: no id occurs twice.
    pub closed spec fn wf(&self) -> bool {
        ids_distinct(self.entries@)
    }

    /// An empty registry.
    pub fn new() -> (r: Self)
        ensures
            r.wf(),
            r.view() == Map::<Seq<char>, V>::empty(),
    {
        let r = Registry { entries: Vec::new() };
        assert(r.view() =~= Map::<Seq<char>, V>::empty());
        r
    }

    fn find(&self, id: &str) -> (r: Option<usize>)
        requires
            self.wf(),
        ensures
            match r {
                Some(i) => i < self.entries@.len() && self.entries@[i as int].0@ == id@,
                None => !has_id(self.entries@, id@),
            },
    {
        let mut i: usize = 0;
        while i < self.entries.len()
            invariant
                i <= self.entries@.len(),
                forall|j: int| 0 <= j < i ==> (#[trigger] self.entries@[j].0)@ != id@,
            decreases self.entries@.len() - i,
        {
            if str_eq(self.entries[i].0.as_str(), id) {
                return Some(i);
            }
            i = i + 1;
        }
        None
    }

    /// The object kept under `id`, if any.
    pub fn get(&self, id: &str) -> (r: Option<&V>)
        requires
            self.wf(),
        ensures
            match r {
                Some(v) => self.view().contains_key(id@) && *v == self.view()[id@],
                None => !self.view().contains_key(id@),
            },
    {
        match self.find(id) {
            Some(i) => {
                proof {
                    lemma_map_of_at(self.entries@, i as int);
                }
                Some(&self.entries[i].1)
            },
            None => None,
        }
    }

    /// Whether an object is kept under `id`.
    pub fn contains(&self, id: &str) -> (r: bool)
        requires
            self.wf(),
        ensures
            r == self.view().contains_key(id@),
    {
        self.find(id).is_some()
    }

    /// Keeps `v` under `id`, in place of what was kept there.
    pub fn insert(&mut self, id: String, v: V)
        requires
            old(self).wf(),
        ensures
            final(self).wf(),
            final(self).view() == old(self).view().insert(id@, v),
    {
        let ghost old_entries = self.entries@;
        let ghost k = id@;
        match self.find(id.as_str()) {
            Some(i) => {
                self.entries.set(i, (id, v));
                proof {
                    let s = self.entries@;
                    assert(s == old_entries.update(i as int, s[i as int]));
                    assert(ids_distinct(s)) by {
                        assert forall|a: int, b: int|
                            0 <= a < s.len() && 0 <= b < s.len() && a != b implies (#[trigger] s[a].0)@ != (#[trigger] s[b].0)@ by {
                            if a != i && b != i {
                                assert(s[a] == old_entries[a] && s[b] == old_entries[b]);
                            } else if a == i {
                                assert(old_entries[a].0@ == k);
                                assert(s[b] == old_entries[b]);
                                assert(old_entries[b].0@ != old_entries[a].0@);
                            } else {
                                assert(old_entries[b].0@ == k);
                                assert(s[a] == old_entries[a]);
                                assert(old_entries[a].0@ != old_entries[b].0@);
                            }
                        }
                    }
                    assert(map_of(s) =~= map_of(old_entries).insert(k, v)) by {
                        assert forall|key: Seq<char>| #[trigger] has_id(s, key) <==> (has_id(old_entries, key) || key == k) by {
                            if has_id(old_entries, key) {
                                let j = choose|j: int| 0 <= j < old_entries.len() && (#[trigger] old_entries[j].0)@ == key;
                                if j != i {
                                    assert(s[j] == old_entries[j]);
                                } else {
                                    assert(s[i as int].0@ == key);
                                }
                            }
                            if key == k {
                                assert(s[i as int].0@ == key);
                            }
                            if has_id(s, key) {
                                let j = choose|j: int| 0 <= j < s.len() && (#[trigger] s[j].0)@ == key;
                                if j != i {
                                    assert(s[j] == old_entries[j]);
                                    assert(old_entries[j].0@ == key);
                                }
                            }
                        }
                        assert forall|key: Seq<char>| #[trigger] map_of(s).contains_key(key) implies map_of(s)[key] == map_of(old_entries).insert(k, v)[key] by {
                            let j = choose|j: int| 0 <= j < s.len() && (#[trigger] s[j].0)@ == key;
                            lemma_map_of_at(s, j);
                            if j != i {
                                assert(s[j] == old_entries[j]);
                                lemma_map_of_at(old_entries, j);
                            }
                        }
                    }
                }
            },
            None => {
                self.entries.push((id, v));
                proof {
                    let s = self.entries@;
                    let n = old_entries.len() as int;
                    assert(s == old_entries.push(s[n]));
                    assert(ids_distinct(s)) by {
                        assert forall|a: int, b: int|
                            0 <= a < s.len() && 0 <= b < s.len() && a != b implies (#[trigger] s[a].0)@ != (#[trigger] s[b].0)@ by {
                            if a < n && b < n {
                                assert(s[a] == old_entries[a] && s[b] == old_entries[b]);
                            } else if a == n {
                                assert(s[b] == old_entries[b]);
                            } else {
                                assert(s[a] == old_entries[a]);
                            }
                        }
                    }
                    assert(map_of(s) =~= map_of(old_entries).insert(k, v)) by {
                        assert forall|key: Seq<char>| #[trigger] has_id(s, key) <==> (has_id(old_entries, key) || key == k) by {
                            if has_id(old_entries, key) {
                                let j = choose|j: int| 0 <= j < old_entries.len() && (#[trigger] old_entries[j].0)@ == key;
                                assert(s[j] == old_entries[j]);
                            }
                            if key == k {
                                assert(s[n].0@ == key);
                            }
                            if has_id(s, key) {
                                let j = choose|j: int| 0 <= j < s.len() && (#[trigger] s[j].0)@ == key;
                                if j < n {
                                    assert(s[j] == old_entries[j]);
                                }
                            }
                        }
                        assert forall|key: Seq<char>| #[trigger] map_of(s).contains_key(key) implies map_of(s)[key] == map_of(old_entries).insert(k, v)[key] by {
                            let j = choose|j: int| 0 <= j < s.len() && (#[trigger] s[j].0)@ == key;
                            lemma_map_of_at(s, j);
                            if j < n {
                                assert(s[j] == old_entries[j]);
                                lemma_map_of_at(old_entries, j);
                            }
                        }
                    }
                }
            },
        }
    }

    /// Keeps `v` under a fresh random id and returns the id.
    pub fn insert_new(&mut self, v: V) -> (id: String)
        requires
            old(self).wf(),
        ensures
            final(self).wf(),
            final(self).view() == old(self).view().insert(id@, v),
            id@.len() == 36,
    {
        let id = new_id();
        let key = crate::ssh::clone_string(&id);
        self.insert(key, v);
        id
    }

    /// Takes out the object kept under `id`, if any.
    pub fn remove(&mut self, id: &str) -> (r: Option<V>)
        requires
            old(self).wf(),
        ensures
            final(self).wf(),
            final(self).view() == old(self).view().remove(id@),
            match r {
                Some(v) => old(self).view().contains_key(id@) && v == old(self).view()[id@],
                None => !old(self).view().contains_key(id@),
            },
    {
        let ghost old_entries = self.entries@;
        let ghost k = id@;
        match self.find(id) {
            Some(i) => {
                proof {
                    lemma_map_of_at(old_entries, i as int);
                }
                let (_, v) = self.entries.remove(i);
                proof {
                    let s = self.entries@;
                    assert(s == old_entries.remove(i as int));
                    assert(forall|j: int| 0 <= j < i ==> s[j] == old_entries[j]);
                    assert(forall|j: int| i <= j < s.len() ==> s[j] == old_entries[j + 1]);
                    assert(ids_distinct(s)) by {
                        assert forall|a: int, b: int|
                            0 <= a < s.len() && 0 <= b < s.len() && a != b implies (#[trigger] s[a].0)@ != (#[trigger] s[b].0)@ by {
                            let a2 = if a < i { a } else { a + 1 };
                            let b2 = if b < i { b } else { b + 1 };
                            assert(s[a] == old_entries[a2] && s[b] == old_entries[b2]);
                        }
                    }
                    assert(map_of(s) =~= map_of(old_entries).remove(k)) by {
                        assert forall|key: Seq<char>| #[trigger] has_id(s, key) <==> (has_id(old_entries, key) && key != k) by {
                            if has_id(old_entries, key) && key != k {
                                let j = choose|j: int| 0 <= j < old_entries.len() && (#[trigger] old_entries[j].0)@ == key;
                                if j < i {
                                    assert(s[j] == old_entries[j]);
                                } else {
                                    assert(j != i);
                                    assert(s[j - 1] == old_entries[j]);
                                }
                            }
                            if has_id(s, key) {
                                let j = choose|j: int| 0 <= j < s.len() && (#[trigger] s[j].0)@ == key;
                                let j2 = if j < i { j } else { j + 1 };
                                assert(s[j] == old_entries[j2]);
                                assert(old_entries[j2].0@ != old_entries[i as int].0@);
                            }
                        }
                        assert forall|key: Seq<char>| #[trigger] map_of(s).contains_key(key) implies map_of(s)[key] == map_of(old_entries).remove(k)[key] by {
                            let j = choose|j: int| 0 <= j < s.len() && (#[trigger] s[j].0)@ == key;
                            lemma_map_of_at(s, j);
                            let j2 = if j < i { j } else { j + 1 };
                            assert(s[j] == old_entries[j2]);
                            lemma_map_of_at(old_entries, j2);
                        }
                    }
                }
                Some(v)
            },
            None => {
                proof {
                    assert(map_of(old_entries) =~= map_of(old_entries).remove(k));
                }
                None
            },
        }
    }

    /// The ids kept, each once.
    pub fn ids(&self) -> (r: Vec<String>)
        requires
            self.wf(),
        ensures
            r@.len() == self.view().dom().len(),
            forall|i: int| 0 <= i < r@.len() ==> self.view().contains_key(#[trigger] r@[i]@),
            forall|k: Seq<char>| #[trigger] self.view().contains_key(k) ==> exists|i: int| 0 <= i < r@.len() && r@[i]@ == k,
    {
        let mut r: Vec<String> = Vec::new();
        let mut i: usize = 0;
        while i < self.entries.len()
            invariant
                i <= self.entries@.len(),
                r@.len() == i,
                self.wf(),
                forall|j: int| 0 <= j < i ==> (#[trigger] r@[j])@ == self.entries@[j].0@,
            decreases self.entries@.len() - i,
        {
            r.push(crate::ssh::clone_string(&self.entries[i].0));
            i = i + 1;
        }
        proof {
            let s = self.entries@;
            assert forall|j: int| 0 <= j < r@.len() implies self.view().contains_key(#[trigger] r@[j]@) by {
                lemma_map_of_at(s, j);
            }
            assert forall|k: Seq<char>| #[trigger] self.view().contains_key(k) implies exists|j: int| 0 <= j < r@.len() && r@[j]@ == k by {
                let j = choose|j: int| 0 <= j < s.len() && (#[trigger] s[j].0)@ == k;
                assert(r@[j]@ == k);
            }
            lemma_dom_len(s);
        }
        r
    }
}


/// What is kept under an id is what was last put there; a removed id holds
/// nothing; putting or removing one id leaves the others as they were.
pub proof fn registry_law<V>(m: Map<Seq<char>, V>, id: Seq<char>, v: V, other: Seq<char>)
    requires
        other != id,
    ensures
        m.insert(id, v).contains_key(id) && m.insert(id, v)[id] == v,
        !m.remove(id).contains_key(id),
        m.insert(id, v).contains_key(other) == m.contains_key(other),
        m.remove(id).contains_key(other) == m.contains_key(other),
        m.contains_key(other) ==> m.insert(id, v)[other] == m[other] && m.remove(id)[other] == m[other],
{
}

} // verus!

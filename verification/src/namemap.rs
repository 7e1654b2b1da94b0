//! A small map keyed by name: at most one entry per key, kept in the order
//! in which keys were first inserted.
use vstd::prelude::*;
use crate::text::{chars_of, no_duplicates, range_eq, texts};

verus! {

/// Entries keyed by a string, no key twice.
pub struct NameMap<V> {
    entries: Vec<(String, V)>,
}

/// No key occurs twice in `e`.
pub open spec fn distinct_keys<V>(e: Seq<(String, V)>) -> bool {
    forall|i: int, j: int|
        0 <= i < e.len() && 0 <= j < e.len() && i != j ==> #[trigger] e[i].0@ != #[trigger] e[j].0@
}

/// The map that the entries `e` stand for.
pub open spec fn entries_map<V>(e: Seq<(String, V)>) -> Map<Seq<char>, V>
    decreases e.len(),
{
    if e.len() == 0 {
        Map::empty()
    } else {
        entries_map(e.drop_last()).insert(e.last().0@, e.last().1)
    }
}

pub proof fn lemma_entries_map<V>(e: Seq<(String, V)>)
    requires
        distinct_keys(e),
    ensures
        forall|k: Seq<char>|
            #[trigger] entries_map(e).contains_key(k) <==> exists|i: int|
                0 <= i < e.len() && e[i].0@ == k,
        forall|i: int| 0 <= i < e.len() ==> #[trigger] entries_map(e)[e[i].0@] == e[i].1,
        entries_map(e).dom().finite(),
        entries_map(e).len() == e.len(),
    decreases e.len(),
{
    if e.len() > 0 {
        let d = e.drop_last();
        assert(distinct_keys(d)) by {
            assert forall|i: int, j: int|
                0 <= i < d.len() && 0 <= j < d.len() && i != j implies #[trigger] d[i].0@
                != #[trigger] d[j].0@ by {
                assert(d[i] == e[i] && d[j] == e[j]);
            }
        }
        lemma_entries_map(d);
        let last = e.last();
        assert(!entries_map(d).contains_key(last.0@)) by {
            if entries_map(d).contains_key(last.0@) {
                let i = choose|i: int| 0 <= i < d.len() && d[i].0@ == last.0@;
                assert(e[i] == d[i]);
                assert(e[e.len() - 1] == last);
            }
        }
        assert forall|k: Seq<char>|
            #[trigger] entries_map(e).contains_key(k) <==> exists|i: int|
                0 <= i < e.len() && e[i].0@ == k by {
            if entries_map(e).contains_key(k) && k != last.0@ {
                let i = choose|i: int| 0 <= i < d.len() && d[i].0@ == k;
                assert(e[i] == d[i]);
            }
            if exists|i: int| 0 <= i < e.len() && e[i].0@ == k {
                let i = choose|i: int| 0 <= i < e.len() && e[i].0@ == k;
                if i < d.len() {
                    assert(e[i] == d[i]);
                }
            }
        }
        assert forall|i: int| 0 <= i < e.len() implies #[trigger] entries_map(e)[e[i].0@] == e[i].1 by {
            if i < d.len() {
                assert(e[i] == d[i]);
                assert(e[i].0@ != last.0@);
            }
        }
    }
}

impl<V> NameMap<V> {
    #[verifier::type_invariant]
    spec fn wf(self) -> bool {
        distinct_keys(self.entries@)
    }

    /// The entries, in the order in which their keys were first inserted.
    pub closed spec fn entries_seq(&self) -> Seq<(String, V)> {
        self.entries@
    }

    /// The map these entries stand for.
    pub open spec fn view(&self) -> Map<Seq<char>, V> {
        entries_map(self.entries_seq())
    }

    /// Brings the facts that the entries stand for the map into scope.
    pub(crate) fn lemma_view(&self)
        ensures
            distinct_keys(self.entries_seq()),
            forall|k: Seq<char>|
                #[trigger] self.view().contains_key(k) <==> exists|i: int|
                    0 <= i < self.entries_seq().len() && self.entries_seq()[i].0@ == k,
            forall|i: int|
                0 <= i < self.entries_seq().len() ==> #[trigger] self.view()[self.entries_seq()[i].0@]
                    == self.entries_seq()[i].1,
            self.view().dom().finite(),
            self.view().len() == self.entries_seq().len(),
    {
        proof {
            use_type_invariant(self);
            lemma_entries_map(self.entries@);
        }
    }

    pub fn new() -> (m: Self)
        ensures
            m.entries_seq() == Seq::<(String, V)>::empty(),
            m.view() == Map::<Seq<char>, V>::empty(),
    {
        NameMap { entries: Vec::new() }
    }

    pub fn len(&self) -> (n: usize)
        ensures
            n == self.entries_seq().len(),
    {
        self.entries.len()
    }

    pub fn is_empty(&self) -> (b: bool)
        ensures
            b == (self.entries_seq().len() == 0),
    {
        self.entries.len() == 0
    }

    /// The `i`-th entry.
    pub fn entry(&self, i: usize) -> (r: &(String, V))
        requires
            i < self.entries_seq().len(),
        ensures
            *r == self.entries_seq()[i as int],
    {
        &self.entries[i]
    }

    /// Position of the entry for `key`.
    pub fn position(&self, key: &Vec<char>) -> (r: Option<usize>)
        ensures
            r matches Some(i) ==> i < self.entries_seq().len() && self.entries_seq()[i as int].0@
                == key@,
            r is None ==> forall|i: int|
                0 <= i < self.entries_seq().len() ==> #[trigger] self.entries_seq()[i].0@ != key@,
    {
        let mut i: usize = 0;
        while i < self.entries.len()
            invariant
                0 <= i <= self.entries@.len(),
                forall|j: int| 0 <= j < i ==> #[trigger] self.entries@[j].0@ != key@,
            decreases self.entries@.len() - i,
        {
            let kc = chars_of(self.entries[i].0.as_str());
            if range_eq(&kc, 0, kc.len(), key, 0, key.len()) {
                assert(kc@.subrange(0, kc@.len() as int) == kc@);
                assert(key@.subrange(0, key@.len() as int) == key@);
                return Some(i);
            }
            assert(kc@.subrange(0, kc@.len() as int) == kc@);
            assert(key@.subrange(0, key@.len() as int) == key@);
            i = i + 1;
        }
        None
    }

    /// The value for `key`, if any.
    pub fn get(&self, key: &str) -> (r: Option<&V>)
        ensures
            r matches Some(v) ==> self.view().contains_key(key@) && self.view()[key@] == *v,
            r is None ==> !self.view().contains_key(key@),
    {
        self.lemma_view();
        let kc = chars_of(key);
        match self.position(&kc) {
            Some(i) => Some(&self.entries[i].1),
            None => None,
        }
    }

    pub fn contains_key(&self, key: &str) -> (b: bool)
        ensures
            b == self.view().contains_key(key@),
    {
        self.lemma_view();
        let kc = chars_of(key);
        self.position(&kc).is_some()
    }

    /// Sets the value for `key`: an existing entry keeps its place, a new key
    /// goes last.
    pub fn insert(&mut self, key: String, value: V)
        ensures
            final(self).view() == old(self).view().insert(key@, value),
            old(self).view().contains_key(key@) ==> final(self).entries_seq().len()
                == old(self).entries_seq().len(),
            !old(self).view().contains_key(key@) ==> final(self).entries_seq() == old(
                self,
            ).entries_seq().push((key, value)),
    {
        self.lemma_view();
        let kc = chars_of(key.as_str());
        let ghost e0 = self.entries@;
        match self.position(&kc) {
            Some(i) => {
                let ghost old_map = entries_map(e0);
                let mut e: Vec<(String, V)> = Vec::new();
                std::mem::swap(&mut e, &mut self.entries);
                e.set(i, (key, value));
                let ghost e1 = e@;
                proof {
                    assert(distinct_keys(e1)) by {
                        assert forall|a: int, b: int|
                            0 <= a < e1.len() && 0 <= b < e1.len() && a != b implies #[trigger] e1[a].0@
                            != #[trigger] e1[b].0@ by {
                            if a != i && b != i {
                                assert(e1[a] == e0[a] && e1[b] == e0[b]);
                            } else if a == i {
                                assert(e1[b] == e0[b]);
                                assert(e0[a as int].0@ == kc@);
                            } else {
                                assert(e1[a] == e0[a]);
                                assert(e0[b as int].0@ == kc@);
                            }
                        }
                    }
                    lemma_entries_map(e1);
                    lemma_entries_map(e0);
                    assert(entries_map(e1) =~= old_map.insert(key@, value)) by {
                        assert forall|k: Seq<char>| #[trigger] entries_map(e1).contains_key(k)
                            <==> old_map.insert(key@, value).contains_key(k) by {
                            if entries_map(e1).contains_key(k) {
                                let j = choose|j: int| 0 <= j < e1.len() && e1[j].0@ == k;
                                if j != i {
                                    assert(e1[j] == e0[j]);
                                }
                            }
                            if old_map.contains_key(k) && k != key@ {
                                let j = choose|j: int| 0 <= j < e0.len() && e0[j].0@ == k;
                                assert(j != i);
                                assert(e1[j] == e0[j]);
                            }
                            if k == key@ {
                                assert(e1[i as int].0@ == k);
                            }
                        }
                        assert forall|k: Seq<char>| #[trigger] entries_map(e1).contains_key(k)
                            implies entries_map(e1)[k] == old_map.insert(key@, value)[k] by {
                            let j = choose|j: int| 0 <= j < e1.len() && e1[j].0@ == k;
                            if j != i {
                                assert(e1[j] == e0[j]);
                            }
                        }
                    }
                }
                self.entries = e;
            },
            None => {
                let mut e: Vec<(String, V)> = Vec::new();
                std::mem::swap(&mut e, &mut self.entries);
                e.push((key, value));
                let ghost e1 = e@;
                proof {
                    assert(distinct_keys(e1)) by {
                        assert forall|a: int, b: int|
                            0 <= a < e1.len() && 0 <= b < e1.len() && a != b implies #[trigger] e1[a].0@
                            != #[trigger] e1[b].0@ by {
                            if a < e0.len() && b < e0.len() {
                                assert(e1[a] == e0[a] && e1[b] == e0[b]);
                            } else if a < e0.len() {
                                assert(e1[a] == e0[a]);
                            } else {
                                assert(e1[b] == e0[b]);
                            }
                        }
                    }
                    assert(e1.drop_last() == e0);
                }
                self.entries = e;
            },
        }
    }

    /// The keys of `self` that `other` holds too, in entry order; no key
    /// twice.
    pub fn common_keys<W>(&self, other: &NameMap<W>) -> (r: Vec<String>)
        ensures
            no_duplicates(texts(r@)),
            forall|k: Seq<char>|
                texts(r@).contains(k) <==> self.view().contains_key(k) && other.view().contains_key(k),
    {
        self.lemma_view();
        let ghost e = self.entries_seq();
        let mut r: Vec<String> = Vec::new();
        let mut i: usize = 0;
        while i < self.entries.len()
            invariant
                0 <= i <= e.len(),
                e == self.entries@,
                distinct_keys(e),
                no_duplicates(texts(r@)),
                forall|k: Seq<char>|
                    texts(r@).contains(k) <==> (exists|j: int| 0 <= j < i && (#[trigger] e[j]).0@ == k) && other.view().contains_key(k),
            decreases e.len() - i,
        {
            let name = &self.entries[i].0;
            let ghost k = name@;
            if other.contains_key(name.as_str()) {
                let ghost r0 = texts(r@);
                assert(!r0.contains(k)) by {
                    if r0.contains(k) {
                        let j = choose|j: int| 0 <= j < i && (#[trigger] e[j]).0@ == k;
                        assert(e[j].0@ == e[i as int].0@);
                    }
                }
                r.push(name.clone());
                assert(texts(r@) =~= r0.push(k));
                assert forall|x: Seq<char>|
                    texts(r@).contains(x) <==> (exists|j: int| 0 <= j < i + 1 && (#[trigger] e[j]).0@ == x) && other.view().contains_key(x) by {
                    if texts(r@).contains(x) && x != k {
                        let a = choose|a: int| 0 <= a < texts(r@).len() && texts(r@)[a] == x;
                        assert(r0[a] == x);
                        assert(r0.contains(x));
                    }
                    if x == k {
                        assert(texts(r@)[r0.len() as int] == x);
                        assert(e[i as int].0@ == x);
                    }
                    if (exists|j: int| 0 <= j < i + 1 && (#[trigger] e[j]).0@ == x) && other.view().contains_key(x) && x != k {
                        let j = choose|j: int| 0 <= j < i + 1 && (#[trigger] e[j]).0@ == x;
                        assert(j < i);
                        assert(r0.contains(x));
                        let a = choose|a: int| 0 <= a < r0.len() && r0[a] == x;
                        assert(texts(r@)[a] == x);
                    }
                }
            } else {
                assert forall|x: Seq<char>|
                    texts(r@).contains(x) <==> (exists|j: int| 0 <= j < i + 1 && (#[trigger] e[j]).0@ == x) && other.view().contains_key(x) by {
                    if (exists|j: int| 0 <= j < i + 1 && (#[trigger] e[j]).0@ == x) && other.view().contains_key(x) {
                        let j = choose|j: int| 0 <= j < i + 1 && (#[trigger] e[j]).0@ == x;
                        assert(j < i);
                    }
                }
            }
            i = i + 1;
        }
        r
    }
}

impl NameMap<String> {
    /// A copy of the map.
    pub fn copied(&self) -> (r: NameMap<String>)
        ensures
            r.view() == self.view(),
    {
        self.lemma_view();
        let ghost e = self.entries_seq();
        let mut r: NameMap<String> = NameMap::new();
        let mut i: usize = 0;
        while i < self.entries.len()
            invariant
                0 <= i <= e.len(),
                e == self.entries@,
                distinct_keys(e),
                forall|j: int| 0 <= j < e.len() ==> #[trigger] self.view()[e[j].0@] == e[j].1,
                forall|k: Seq<char>| #[trigger] self.view().contains_key(k) <==> exists|j: int| 0 <= j < e.len() && e[j].0@ == k,
                forall|k: Seq<char>| #[trigger] r.view().contains_key(k) <==> exists|j: int| 0 <= j < i && e[j].0@ == k,
                forall|k: Seq<char>| #[trigger] r.view().contains_key(k) ==> r.view()[k] == self.view()[k],
            decreases e.len() - i,
        {
            let ghost k = self.entries@[i as int].0@;
            let key = self.entries[i].0.clone();
            let value = self.entries[i].1.clone();
            r.insert(key, value);
            assert(self.view()[k] == e[i as int].1);
            assert forall|x: Seq<char>| #[trigger] r.view().contains_key(x) <==> exists|j: int| 0 <= j < i + 1 && e[j].0@ == x by {
                if exists|j: int| 0 <= j < i + 1 && e[j].0@ == x {
                    let j = choose|j: int| 0 <= j < i + 1 && e[j].0@ == x;
                    if j < i {
                        assert(exists|j: int| 0 <= j < i && e[j].0@ == x);
                    }
                }
                if r.view().contains_key(x) && x != k {
                    assert(exists|j: int| 0 <= j < i && e[j].0@ == x);
                    let j = choose|j: int| 0 <= j < i && e[j].0@ == x;
                    assert(0 <= j < i + 1 && e[j].0@ == x);
                }
                if x == k {
                    assert(0 <= i < i + 1 && e[i as int].0@ == x);
                }
            }
            i = i + 1;
        }
        assert(r.view() =~= self.view());
        r
    }
}

} // verus!

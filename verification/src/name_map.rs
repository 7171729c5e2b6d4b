//! A map from names to values that keeps its names in text order, as a
//! `BTreeMap<String, V>` does.
use vstd::prelude::*;
use crate::text::{chars_of, text_eq, text_less, text_lt, lemma_text_lt_total};

verus! {

/// Whether each name sorts strictly before the next.
pub open spec fn names_ascending(names: Seq<Seq<char>>) -> bool {
    forall|i: int| 0 <= i < names.len() - 1 ==> text_lt(#[trigger] names[i], names[i + 1])
}

/// Names and their values, one entry per name, in ascending name order.
#[derive(Clone, Debug)]
pub struct NameMap<V> {
    entries: Vec<(String, V)>,
}

impl<V> NameMap<V> {
    /// The names, in the map's order.
    pub closed spec fn names(&self) -> Seq<Seq<char>> {
        Seq::new(self.entries@.len(), |i: int| self.entries@[i].0@)
    }

    /// The values, in the map's order (the value of `names()[i]` is `vals()[i]`).
    pub closed spec fn vals(&self) -> Seq<V> {
        Seq::new(self.entries@.len(), |i: int| self.entries@[i].1)
    }

    /// The map's invariant: ascending names, hence no name twice.
    pub closed spec fn wf(&self) -> bool {
        &&& names_ascending(self.names())
        &&& self.names().no_duplicates()
    }

    /// What the map holds, as a mathematical map.
    pub closed spec fn as_map(&self) -> Map<Seq<char>, V> {
        Map::new(
            |k: Seq<char>| self.names().contains(k),
            |k: Seq<char>| self.vals()[self.names().index_of(k)],
        )
    }

    /// The view ties names, values and the mathematical map together.
    pub proof fn lemma_view(&self)
        requires
            self.wf(),
        ensures
            self.names().len() == self.vals().len(),
            names_ascending(self.names()),
            self.names().no_duplicates(),
            forall|k: Seq<char>| self@.contains_key(k) <==> self.names().contains(k),
            forall|i: int| 0 <= i < self.names().len() ==> #[trigger] self@[self.names()[i]] == self.vals()[i],
            self@.dom().finite(),
            self@.len() == self.names().len(),
    {
        assert forall|i: int| 0 <= i < self.names().len() implies #[trigger] self@[self.names()[i]] == self.vals()[i] by {
            let k = self.names()[i];
            assert(self.names().contains(k));
            let j = self.names().index_of(k);
            assert(self.names()[j] == k);
        }
        self.lemma_dom();
    }

    proof fn lemma_dom(&self)
        requires
            self.wf(),
        ensures
            self@.dom() == self.names().to_set(),
            self@.dom().finite(),
            self@.len() == self.names().len(),
    {
        assert(self@.dom() =~= self.names().to_set());
        self.names().unique_seq_to_set();
    }

    /// An empty map.
    pub fn new() -> (m: Self)
        ensures
            m.wf(),
            m@ == Map::<Seq<char>, V>::empty(),
            m.names() == Seq::<Seq<char>>::empty(),
    {
        let m = NameMap { entries: Vec::new() };
        assert(m.names() =~= Seq::<Seq<char>>::empty());
        assert(m@ =~= Map::<Seq<char>, V>::empty());
        m
    }

    /// The number of entries.
    pub fn len(&self) -> (n: usize)
        ensures
            n == self.names().len(),
    {
        self.entries.len()
    }

    /// The name and value of the `i`-th entry in name order.
    pub fn entry(&self, i: usize) -> (e: (&String, &V))
        requires
            i < self.names().len(),
        ensures
            e.0@ == self.names()[i as int],
            *e.1 == self.vals()[i as int],
    {
        let e = &self.entries[i];
        (&e.0, &e.1)
    }

    /// The position of `name`, if the map holds it.
    fn position(&self, name: &str) -> (p: Option<usize>)
        ensures
            p matches Some(i) ==> i < self.names().len() && self.names()[i as int] == name@,
            p is None ==> !self.names().contains(name@),
    {
        let mut i: usize = 0;
        while i < self.entries.len()
            invariant
                i <= self.entries.len(),
                forall|j: int| 0 <= j < i ==> self.names()[j] != name@,
            decreases self.entries.len() - i,
        {
            if text_eq(self.entries[i].0.as_str(), name) {
                return Some(i);
            }
            i += 1;
        }
        None
    }

    /// The value held for `name`.
    pub fn get(&self, name: &str) -> (r: Option<&V>)
        requires
            self.wf(),
        ensures
            r is Some <==> self@.contains_key(name@),
            r matches Some(v) ==> *v == self@[name@],
    {
        proof { self.lemma_view(); }
        match self.position(name) {
            Some(i) => Some(&self.entries[i].1),
            None => None,
        }
    }

    /// Whether the map holds `name`.
    pub fn contains(&self, name: &str) -> (r: bool)
        requires
            self.wf(),
        ensures
            r == self@.contains_key(name@),
    {
        proof { self.lemma_view(); }
        self.position(name).is_some()
    }

    /// Sets the value of `name`, replacing an earlier one (`BTreeMap::insert`).
    pub fn insert(&mut self, name: String, value: V)
        requires
            old(self).wf(),
        ensures
            final(self).wf(),
            final(self)@ == old(self)@.insert(name@, value),
            old(self).names().contains(name@) ==> final(self).names() == old(self).names(),
    {
        let ghost old_names = self.names();
        let ghost old_vals = self.vals();
        proof { self.lemma_view(); }
        match self.position(name.as_str()) {
            Some(i) => {
                let ghost k = name@;
                self.entries.set(i, (name, value));
                assert(self.names() =~= old_names);
                assert(self.vals() =~= old_vals.update(i as int, value));
                proof {
                    self.lemma_view();
                    assert forall|q: Seq<char>| #[trigger] self@.contains_key(q)
                        implies self@[q] == old(self)@.insert(k, value)[q] by {
                        let j = old_names.index_of(q);
                        assert(old_names[j] == q);
                        assert(self@[self.names()[j]] == self.vals()[j]);
                    }
                    assert(self@ =~= old(self)@.insert(k, value));
                }
            }
            None => {
                let ghost k = name@;
                let key = chars_of(name.as_str());
                let mut p: usize = 0;
                while p < self.entries.len() && !text_less(&key, &chars_of(self.entries[p].0.as_str()))
                    invariant
                        p <= self.entries.len(),
                        self.names() == old_names,
                        key@ == k,
                        forall|j: int| 0 <= j < p ==> !text_lt(k, #[trigger] old_names[j]),
                    decreases self.entries.len() - p,
                {
                    p += 1;
                }
                self.entries.insert(p, (name, value));
                proof {
                    let nn = self.names();
                    assert(nn =~= old_names.insert(p as int, k));
                    assert(self.vals() =~= old_vals.insert(p as int, value));
                    if p > 0 {
                        lemma_text_lt_total(old_names[p - 1], k);
                    }
                    if p < old_names.len() {
                        assert(text_lt(k, old_names[p as int]));
                    }
                    assert forall|i: int| 0 <= i < nn.len() - 1 implies text_lt(#[trigger] nn[i], nn[i + 1]) by {
                        if i < p - 1 {
                            assert(nn[i] == old_names[i] && nn[i + 1] == old_names[i + 1]);
                        } else if i == p - 1 {
                        } else if i == p {
                        } else {
                            assert(nn[i] == old_names[i - 1] && nn[i + 1] == old_names[i]);
                        }
                    }
                    assert(nn.no_duplicates());
                    self.lemma_view();
                    assert forall|q: Seq<char>| #[trigger] self@.contains_key(q)
                        implies self@[q] == old(self)@.insert(k, value)[q] by {
                        let j = nn.index_of(q);
                        assert(nn[j] == q);
                        if q != k {
                            if j < p {
                                assert(old_names[j] == q);
                                assert(old(self)@[old_names[j]] == old_vals[j]);
                            } else {
                                assert(old_names[j - 1] == q);
                                assert(old(self)@[old_names[j - 1]] == old_vals[j - 1]);
                            }
                        }
                    }
                    assert forall|q: Seq<char>| #[trigger] old(self)@.insert(k, value).contains_key(q)
                        implies self@.contains_key(q) by {
                        if q != k {
                            let j = old_names.index_of(q);
                            if j < p {
                                assert(nn[j] == q);
                            } else {
                                assert(nn[j + 1] == q);
                            }
                        } else {
                            assert(nn[p as int] == k);
                        }
                    }
                    assert(self@ =~= old(self)@.insert(k, value));
                }
            }
        }
    }
}

/// What a read gives back of a write: after `insert(name, value)`, `get(name)`
/// gives `value`, and every other name reads as before.
pub proof fn lemma_read_after_write<V>(m: Map<Seq<char>, V>, name: Seq<char>, value: V, other: Seq<char>)
    ensures
        m.insert(name, value).contains_key(name),
        m.insert(name, value)[name] == value,
        other != name ==> (m.insert(name, value).contains_key(other) == m.contains_key(other)),
        other != name && m.contains_key(other) ==> m.insert(name, value)[other] == m[other],
{
}

impl<V> View for NameMap<V> {
    type V = Map<Seq<char>, V>;

    closed spec fn view(&self) -> Map<Seq<char>, V> {
        self.as_map()
    }
}

} // verus!

//! A small table keyed by strings, the shape of a `HashMap<String, V>` whose
//! logic needs no hashing: each key once, looked up by its characters.
use crate::text::str_eq;
use vstd::prelude::*;

verus! {

/// The entries as a map from key to value.
pub open spec fn table_map<V>(entries: Seq<(String, V)>) -> Map<Seq<char>, V>
    decreases entries.len(),
{
    if entries.len() == 0 {
        Map::empty()
    } else {
        table_map(entries.drop_last()).insert(entries.last().0@, entries.last().1)
    }
}

pub open spec fn keys_distinct<V>(entries: Seq<(String, V)>) -> bool {
    forall|a: int, b: int| 0 <= a < b < entries.len() ==> #[trigger] entries[a].0@ != #[trigger] entries[b].0@
}

pub proof fn lemma_table_map_index<V>(entries: Seq<(String, V)>)
    requires
        keys_distinct(entries),
    ensures
        forall|k: Seq<char>| #[trigger]
            table_map(entries).dom().contains(k) <==> exists|i: int| 0 <= i < entries.len() && entries[i].0@ == k,
        forall|i: int| 0 <= i < entries.len() ==> #[trigger] table_map(entries)[entries[i].0@] == entries[i].1,
    decreases entries.len(),
{
    if entries.len() > 0 {
        let init = entries.drop_last();
        lemma_table_map_index(init);
        let n = entries.len() - 1;
        assert(table_map(entries) == table_map(init).insert(entries.last().0@, entries.last().1));
        assert(keys_distinct(init)) by {
            assert forall|a: int, b: int| 0 <= a < b < init.len() implies #[trigger] init[a].0@
                != #[trigger] init[b].0@ by {
                assert(init[a] == entries[a] && init[b] == entries[b]);
            }
        }
        assert forall|k: Seq<char>| #[trigger]
            table_map(entries).dom().contains(k) <==> exists|i: int| 0 <= i < entries.len() && entries[i].0@ == k by {
            if table_map(entries).dom().contains(k) && k != entries.last().0@ {
                let i = choose|i: int| 0 <= i < init.len() && init[i].0@ == k;
                assert(entries[i] == init[i]);
            }
            if exists|i: int| 0 <= i < entries.len() && entries[i].0@ == k {
                let i = choose|i: int| 0 <= i < entries.len() && entries[i].0@ == k;
                if i < n {
                    assert(init[i] == entries[i]);
                }
            }
        }
        assert forall|i: int| 0 <= i < entries.len() implies #[trigger] table_map(entries)[entries[i].0@]
            == entries[i].1 by {
            if i < n {
                assert(init[i] == entries[i]);
                assert(entries[i].0@ != entries[n].0@);
            }
        }
    }
}

proof fn lemma_table_map_equal<V>(a: Seq<(String, V)>, m: Map<Seq<char>, V>)
    requires
        keys_distinct(a),
        forall|k: Seq<char>| #[trigger] m.dom().contains(k) <==> exists|i: int| 0 <= i < a.len() && a[i].0@ == k,
        forall|i: int| 0 <= i < a.len() ==> #[trigger] m[a[i].0@] == a[i].1,
    ensures
        table_map(a) == m,
{
    lemma_table_map_index(a);
    assert forall|k: Seq<char>| #[trigger] table_map(a).dom().contains(k) implies table_map(a)[k] == m[k] by {
        let i = choose|i: int| 0 <= i < a.len() && a[i].0@ == k;
    }
    assert(table_map(a) =~= m);
}

pub struct KeyedTable<V> {
    entries: Vec<(String, V)>,
}

impl<V> KeyedTable<V> {
    pub closed spec fn view(&self) -> Map<Seq<char>, V> {
        table_map(self.entries@)
    }

    pub closed spec fn wf(&self) -> bool {
        keys_distinct(self.entries@)
    }

    /// The entries in the order they were first inserted.
    pub closed spec fn entry_seq(&self) -> Seq<(String, V)> {
        self.entries@
    }

    /// The view is the map of the entries, whose keys are distinct.
    pub proof fn lemma_entries(&self)
        requires
            self.wf(),
        ensures
            self.view() == table_map(self.entry_seq()),
            keys_distinct(self.entry_seq()),
    {
    }

    pub fn new() -> (r: Self)
        ensures
            r.wf(),
            r.view() == Map::<Seq<char>, V>::empty(),
            r.entry_seq().len() == 0,
    {
        KeyedTable { entries: Vec::new() }
    }

    pub fn entries(&self) -> (r: &Vec<(String, V)>)
        ensures
            r@ == self.entry_seq(),
    {
        &self.entries
    }

    fn find(&self, key: &str) -> (r: Option<usize>)
        ensures
            match r {
                Some(i) => i < self.entries@.len() && self.entries@[i as int].0@ == key@,
                None => forall|j: int| 0 <= j < self.entries@.len() ==> #[trigger] self.entries@[j].0@ != key@,
            },
    {
        let mut i: usize = 0;
        while i < self.entries.len()
            invariant
                i <= self.entries@.len(),
                forall|j: int| 0 <= j < i ==> #[trigger] self.entries@[j].0@ != key@,
            decreases self.entries@.len() - i,
        {
            if str_eq(self.entries[i].0.as_str(), key) {
                return Some(i);
            }
            i = i + 1;
        }
        None
    }

    /// The value under `key`.
    pub fn get(&self, key: &str) -> (r: Option<&V>)
        requires
            self.wf(),
        ensures
            match r {
                Some(v) => self.view().dom().contains(key@) && self.view()[key@] == *v,
                None => !self.view().dom().contains(key@),
            },
    {
        proof {
            lemma_table_map_index(self.entries@);
        }
        match self.find(key) {
            Some(i) => Some(&self.entries[i].1),
            None => None,
        }
    }

    /// Stores `value` under `key`, replacing an earlier value.
    pub fn insert(&mut self, key: String, value: V)
        requires
            old(self).wf(),
        ensures
            final(self).wf(),
            final(self).view() == old(self).view().insert(key@, value),
    {
        let ghost old_es = self.entries@;
        let ghost kv = key@;
        let ghost val = value;
        proof {
            lemma_table_map_index(old_es);
        }
        match self.find(key.as_str()) {
            Some(i) => {
                self.entries.set(i, (key, value));
                proof {
                    let es = self.entries@;
                    assert forall|a: int, b: int| 0 <= a < b < es.len() implies #[trigger] es[a].0@
                        != #[trigger] es[b].0@ by {
                        if a != i && b != i {
                            assert(es[a] == old_es[a] && es[b] == old_es[b]);
                        } else if a == i {
                            assert(es[b] == old_es[b]);
                            assert(old_es[i as int].0@ != old_es[b].0@);
                        } else {
                            assert(es[a] == old_es[a]);
                            assert(old_es[a].0@ != old_es[i as int].0@);
                        }
                    }
                    let m = table_map(old_es).insert(kv, val);
                    assert forall|k: Seq<char>| #[trigger] m.dom().contains(k) <==> exists|j: int|
                        0 <= j < es.len() && es[j].0@ == k by {
                        if m.dom().contains(k) && k != kv {
                            let j = choose|j: int| 0 <= j < old_es.len() && old_es[j].0@ == k;
                            assert(es[j] == old_es[j]);
                        }
                        if m.dom().contains(k) && k == kv {
                            assert(es[i as int].0@ == k);
                        }
                        if exists|j: int| 0 <= j < es.len() && es[j].0@ == k {
                            let j = choose|j: int| 0 <= j < es.len() && es[j].0@ == k;
                            if j != i {
                                assert(old_es[j] == es[j]);
                            }
                        }
                    }
                    assert forall|j: int| 0 <= j < es.len() implies #[trigger] m[es[j].0@] == es[j].1 by {
                        if j != i {
                            assert(old_es[j] == es[j]);
                            assert(old_es[j].0@ != old_es[i as int].0@);
                        }
                    }
                    lemma_table_map_equal(es, m);
                }
            },
            None => {
                self.entries.push((key, value));
                proof {
                    let es = self.entries@;
                    assert(es.drop_last() =~= old_es);
                    assert forall|a: int, b: int| 0 <= a < b < es.len() implies #[trigger] es[a].0@
                        != #[trigger] es[b].0@ by {
                        assert(es[a] == old_es[a]);
                        if b < old_es.len() {
                            assert(es[b] == old_es[b]);
                        }
                    }
                }
            },
        }
    }

    /// Removes the entry of `key`, if any.
    pub fn remove(&mut self, key: &str)
        requires
            old(self).wf(),
        ensures
            final(self).wf(),
            final(self).view() == old(self).view().remove(key@),
    {
        let ghost old_es = self.entries@;
        proof {
            lemma_table_map_index(old_es);
        }
        match self.find(key) {
            Some(i) => {
                self.entries.remove(i);
                proof {
                    let es = self.entries@;
                    assert(es =~= old_es.remove(i as int));
                    assert forall|a: int, b: int| 0 <= a < b < es.len() implies #[trigger] es[a].0@
                        != #[trigger] es[b].0@ by {
                        let a2 = if a < i { a } else { a + 1 };
                        let b2 = if b < i { b } else { b + 1 };
                        assert(es[a] == old_es[a2] && es[b] == old_es[b2]);
                    }
                    let m = table_map(old_es).remove(key@);
                    assert forall|k: Seq<char>| #[trigger] m.dom().contains(k) <==> exists|j: int|
                        0 <= j < es.len() && es[j].0@ == k by {
                        if m.dom().contains(k) {
                            let j = choose|j: int| 0 <= j < old_es.len() && old_es[j].0@ == k;
                            assert(j != i);
                            if j < i {
                                assert(es[j] == old_es[j]);
                            } else {
                                assert(es[j - 1] == old_es[j]);
                            }
                        }
                        if exists|j: int| 0 <= j < es.len() && es[j].0@ == k {
                            let j = choose|j: int| 0 <= j < es.len() && es[j].0@ == k;
                            let j2 = if j < i { j } else { j + 1 };
                            assert(es[j] == old_es[j2]);
                            assert(old_es[j2].0@ != old_es[i as int].0@);
                        }
                    }
                    assert forall|j: int| 0 <= j < es.len() implies #[trigger] m[es[j].0@] == es[j].1 by {
                        let j2 = if j < i { j } else { j + 1 };
                        assert(es[j] == old_es[j2]);
                        assert(old_es[j2].0@ != old_es[i as int].0@);
                    }
                    lemma_table_map_equal(es, m);
                }
            },
            None => {
                proof {
                    assert(!table_map(old_es).dom().contains(key@));
                    assert(table_map(old_es).remove(key@) =~= table_map(old_es));
                }
            },
        }
    }
}

} // verus!

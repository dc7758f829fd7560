//! Tables keyed by server name: the framing learned for each server, the cached tool
//! lists, the pooled processes.
use vstd::prelude::*;

verus! {

/// A table from server names to values; a name occurs at most once.
pub struct NameMap<V> {
    entries: Vec<(String, V)>,
}

/// Whether no two entries have the same name.
pub open spec fn names_distinct<V>(e: Seq<(String, V)>) -> bool {
    forall|i: int, j: int| 0 <= i < j < e.len() ==> (#[trigger] e[i]).0@ != (#[trigger] e[j]).0@
}

/// Whether some entry has the name `k`.
pub open spec fn has_name<V>(e: Seq<(String, V)>, k: Seq<char>) -> bool {
    exists|i: int| 0 <= i < e.len() && (#[trigger] e[i]).0@ == k
}

/// The position of an entry named `k`.
pub open spec fn name_index<V>(e: Seq<(String, V)>, k: Seq<char>) -> int {
    choose|i: int| 0 <= i < e.len() && (#[trigger] e[i]).0@ == k
}

/// The table that a list of entries with distinct names stands for.
pub open spec fn entries_map<V>(e: Seq<(String, V)>) -> Map<Seq<char>, V> {
    Map::new(|k: Seq<char>| has_name(e, k), |k: Seq<char>| e[name_index(e, k)].1)
}

proof fn lemma_name_index_unique<V>(e: Seq<(String, V)>, j: int)
    requires
        names_distinct(e),
        0 <= j < e.len(),
    ensures
        has_name(e, e[j].0@),
        name_index(e, e[j].0@) == j,
{
    let k = e[j].0@;
    assert(has_name(e, k));
    let c = name_index(e, k);
    if c != j {
        if c < j {
            assert(e[c].0@ != e[j].0@);
        } else {
            assert(e[j].0@ != e[c].0@);
        }
    }
}

/// The values of a table at the names `ks`, in that order.
pub open spec fn values_at<V>(m: Map<Seq<char>, V>, ks: Seq<Seq<char>>) -> Seq<V> {
    ks.map_values(|k: Seq<char>| m[k])
}

proof fn lemma_reversed_values<V>(e: Seq<(String, V)>, vs: Seq<V>)
    requires
        names_distinct(e),
        vs.len() == e.len(),
        forall|j: int| 0 <= j < vs.len() ==> vs[j] == e[e.len() - 1 - j].1,
    ensures
        exists|ks: Seq<Seq<char>>|
            ks.no_duplicates() && ks.to_set() == entries_map(e).dom() && vs == #[trigger] values_at(
                entries_map(e),
                ks,
            ),
{
    let n = e.len();
    let ks = Seq::new(n, |j: int| e[n - 1 - j].0@);
    assert(ks.no_duplicates()) by {
        assert forall|i: int, j: int| 0 <= i < ks.len() && 0 <= j < ks.len() && i != j implies ks[i] != ks[j] by {
            let a = n - 1 - i;
            let b = n - 1 - j;
            if a < b {
                assert(e[a].0@ != e[b].0@);
            } else {
                assert(e[b].0@ != e[a].0@);
            }
        }
    }
    assert forall|k: Seq<char>| #[trigger] ks.to_set().contains(k) == entries_map(e).dom().contains(k) by {
        if ks.to_set().contains(k) {
            assert(ks.contains(k));
            let i = choose|i: int| 0 <= i < ks.len() && ks[i] == k;
            assert(e[n - 1 - i].0@ == k);
            assert(has_name(e, k));
        }
        if entries_map(e).dom().contains(k) {
            let i = name_index(e, k);
            assert(ks[n - 1 - i] == k);
            assert(ks.contains(k));
        }
    }
    assert(ks.to_set() =~= entries_map(e).dom());
    assert forall|j: int| 0 <= j < n implies vs[j] == #[trigger] values_at(entries_map(e), ks)[j] by {
        lemma_name_index_unique(e, n - 1 - j);
    }
    assert(vs =~= values_at(entries_map(e), ks));
}

/// The names of a list of entries, in order.
pub open spec fn entry_names<V>(e: Seq<(String, V)>) -> Seq<Seq<char>> {
    e.map_values(|p: (String, V)| p.0@)
}

proof fn lemma_dom_len<V>(e: Seq<(String, V)>)
    requires
        names_distinct(e),
    ensures
        entries_map(e).dom().finite(),
        entries_map(e).dom().len() == e.len(),
{
    let names = entry_names(e);
    assert(names.no_duplicates()) by {
        assert forall|i: int, j: int| 0 <= i < names.len() && 0 <= j < names.len() && i != j implies names[i] != names[j] by {
            if i < j {
                assert(e[i].0@ != e[j].0@);
            } else {
                assert(e[j].0@ != e[i].0@);
            }
        }
    }
    assert forall|k: Seq<char>| #[trigger] names.to_set().contains(k) == entries_map(e).dom().contains(k) by {
        if names.to_set().contains(k) {
            assert(names.contains(k));
            let i = choose|i: int| 0 <= i < names.len() && names[i] == k;
            assert(e[i].0@ == k);
        }
        if entries_map(e).dom().contains(k) {
            let i = name_index(e, k);
            assert(names[i] == k);
            assert(names.contains(k));
        }
    }
    assert(names.to_set() =~= entries_map(e).dom());
    names.unique_seq_to_set();
}

impl<V> View for NameMap<V> {
    type V = Map<Seq<char>, V>;

    closed spec fn view(&self) -> Map<Seq<char>, V> {
        entries_map(self.entries@)
    }
}

impl<V> NameMap<V> {
    #[verifier::type_invariant]
    spec fn distinct(self) -> bool {
        names_distinct(self.entries@)
    }

    /// An empty table.
    pub fn new() -> (m: Self)
        ensures
            m@ == Map::<Seq<char>, V>::empty(),
    {
        let m = NameMap { entries: Vec::new() };
        assert(m@ =~= Map::<Seq<char>, V>::empty());
        m
    }

    fn position(&self, key: &str) -> (r: Option<usize>)
        ensures
            match r {
                Some(j) => j < self.entries@.len() && self.entries@[j as int].0@ == key@,
                None => !has_name(self.entries@, key@),
            },
    {
        let mut j: usize = 0;
        while j < self.entries.len()
            invariant
                j <= self.entries@.len(),
                forall|i: int| 0 <= i < j ==> self.entries@[i].0@ != key@,
            decreases self.entries@.len() - j,
        {
            if crate::text::str_equal(self.entries[j].0.as_str(), key) {
                return Some(j);
            }
            j += 1;
        }
        None
    }

    /// Whether the table has an entry named `key`.
    pub fn contains_key(&self, key: &str) -> (b: bool)
        ensures
            b == self@.contains_key(key@),
    {
        self.position(key).is_some()
    }

    /// The value named `key`, if any.
    pub fn get(&self, key: &str) -> (r: Option<&V>)
        ensures
            match r {
                Some(v) => self@.contains_key(key@) && *v == self@[key@],
                None => !self@.contains_key(key@),
            },
    {
        proof {
            use_type_invariant(self);
        }
        match self.position(key) {
            Some(j) => {
                proof {
                    lemma_name_index_unique(self.entries@, j as int);
                }
                Some(&self.entries[j].1)
            },
            None => None,
        }
    }

    /// Sets the value named `key`, and returns the value it replaced, if any.
    pub fn insert(&mut self, key: String, value: V) -> (r: Option<V>)
        ensures
            final(self)@ == old(self)@.insert(key@, value),
            match r {
                Some(v) => old(self)@.contains_key(key@) && v == old(self)@[key@],
                None => !old(self)@.contains_key(key@),
            },
    {
        proof {
            use_type_invariant(&*self);
        }
        let ghost before = self.entries@;
        let ghost k = key@;
        let pos = self.position(key.as_str());
        let mut entries: Vec<(String, V)> = Vec::new();
        std::mem::swap(&mut entries, &mut self.entries);
        match pos {
            Some(j) => {
                proof {
                    lemma_name_index_unique(before, j as int);
                }
                let mut entry = (key, value);
                std::mem::swap(&mut entry, &mut entries[j]);
                let ghost after = entries@;
                assert(after == before.update(j as int, (after[j as int].0, value)));
                assert(names_distinct(after)) by {
                    assert forall|a: int, b: int| 0 <= a < b < after.len() implies (
                    #[trigger] after[a]).0@ != (#[trigger] after[b]).0@ by {
                        assert(after[a].0@ == before[a].0@);
                        assert(after[b].0@ == before[b].0@);
                    }
                }
                assert forall|x: Seq<char>| #[trigger] has_name(after, x) == has_name(before, x) by {
                    if has_name(before, x) {
                        let i = name_index(before, x);
                        assert(after[i].0@ == x);
                    }
                    if has_name(after, x) {
                        let i = name_index(after, x);
                        assert(before[i].0@ == x);
                    }
                }
                assert forall|x: Seq<char>| has_name(after, x) && x != k implies #[trigger] after[name_index(after, x)].1
                    == before[name_index(before, x)].1 by {
                    let i = name_index(after, x);
                    lemma_name_index_unique(after, i);
                    lemma_name_index_unique(before, i);
                }
                proof {
                    lemma_name_index_unique(after, j as int);
                }
                assert(entries_map(after) =~= entries_map(before).insert(k, value));
                self.entries = entries;
                Some(entry.1)
            },
            None => {
                entries.push((key, value));
                let ghost after = entries@;
                assert(names_distinct(after)) by {
                    assert forall|a: int, b: int| 0 <= a < b < after.len() implies (
                    #[trigger] after[a]).0@ != (#[trigger] after[b]).0@ by {
                        assert(after[a] == before[a]);
                        if b < before.len() {
                            assert(after[b] == before[b]);
                        } else {
                            assert(before[a].0@ != k);
                        }
                    }
                }
                assert forall|x: Seq<char>| has_name(after, x) && x != k implies #[trigger] after[name_index(after, x)].1
                    == before[name_index(before, x)].1 by {
                    let i = name_index(after, x);
                    lemma_name_index_unique(after, i);
                    if i == before.len() {
                        assert(after[i].0@ == k);
                    } else {
                        assert(after[i] == before[i]);
                        lemma_name_index_unique(before, i);
                    }
                }
                assert forall|x: Seq<char>| #[trigger] has_name(after, x) == (has_name(before, x) || x == k) by {
                    if has_name(before, x) {
                        let i = name_index(before, x);
                        assert(after[i] == before[i]);
                    }
                    if x == k {
                        assert(after[before.len() as int].0@ == k);
                    }
                    if has_name(after, x) && x != k {
                        let i = name_index(after, x);
                        assert(i < before.len());
                        assert(after[i] == before[i]);
                    }
                }
                proof {
                    lemma_name_index_unique(after, before.len() as int);
                }
                assert(entries_map(after) =~= entries_map(before).insert(k, value));
                self.entries = entries;
                None
            },
        }
    }

    /// Removes the value named `key`, and returns it, if any.
    pub fn remove(&mut self, key: &str) -> (r: Option<V>)
        ensures
            final(self)@ == old(self)@.remove(key@),
            match r {
                Some(v) => old(self)@.contains_key(key@) && v == old(self)@[key@],
                None => !old(self)@.contains_key(key@),
            },
    {
        proof {
            use_type_invariant(&*self);
        }
        let ghost before = self.entries@;
        match self.position(key) {
            Some(j) => {
                proof {
                    lemma_name_index_unique(before, j as int);
                }
                let mut entries: Vec<(String, V)> = Vec::new();
                std::mem::swap(&mut entries, &mut self.entries);
                let entry = entries.remove(j);
                let ghost after = entries@;
                assert(after == before.remove(j as int));
                assert(names_distinct(after)) by {
                    assert forall|a: int, b: int| 0 <= a < b < after.len() implies (
                    #[trigger] after[a]).0@ != (#[trigger] after[b]).0@ by {
                        let a0 = if a < j { a } else { a + 1 };
                        let b0 = if b < j { b } else { b + 1 };
                        assert(after[a] == before[a0]);
                        assert(after[b] == before[b0]);
                    }
                }
                assert forall|x: Seq<char>| #[trigger] has_name(after, x) == (has_name(before, x) && x != key@) by {
                    if has_name(before, x) && x != key@ {
                        let i = name_index(before, x);
                        if i < j {
                            assert(after[i] == before[i]);
                        } else {
                            assert(i != j);
                            assert(after[i - 1] == before[i]);
                        }
                    }
                    if has_name(after, x) {
                        let i = name_index(after, x);
                        let i0 = if i < j { i } else { i + 1 };
                        assert(after[i] == before[i0]);
                        if x == key@ {
                            lemma_name_index_unique(before, i0);
                        }
                    }
                }
                assert forall|x: Seq<char>| has_name(after, x) implies #[trigger] after[name_index(after, x)].1
                    == before[name_index(before, x)].1 by {
                    let i = name_index(after, x);
                    let i0 = if i < j { i } else { i + 1 };
                    assert(after[i] == before[i0]);
                    lemma_name_index_unique(after, i);
                    lemma_name_index_unique(before, i0);
                }
                assert(entries_map(after) =~= entries_map(before).remove(key@));
                self.entries = entries;
                Some(entry.1)
            },
            None => {
                assert(entries_map(before) =~= entries_map(before).remove(key@));
                None
            },
        }
    }

    /// How many entries the table has.
    pub fn len(&self) -> (n: usize)
        ensures
            self@.dom().finite(),
            n == self@.dom().len(),
    {
        proof {
            use_type_invariant(self);
            lemma_dom_len(self.entries@);
        }
        self.entries.len()
    }

    /// Removes every entry, and returns its values: one for each name, in some order
    /// of the names.
    pub fn drain_values(&mut self) -> (r: Vec<V>)
        ensures
            final(self)@ == Map::<Seq<char>, V>::empty(),
            exists|ks: Seq<Seq<char>>|
                ks.no_duplicates() && ks.to_set() == old(self)@.dom() && r@ == #[trigger] values_at(
                    old(self)@,
                    ks,
                ),
    {
        proof {
            use_type_invariant(&*self);
        }
        let ghost before = self.entries@;
        let ghost n = before.len();
        let mut old_entries: Vec<(String, V)> = Vec::new();
        std::mem::swap(&mut old_entries, &mut self.entries);
        assert(entries_map(self.entries@) =~= Map::<Seq<char>, V>::empty());
        let mut values: Vec<V> = Vec::new();
        while old_entries.len() > 0
            invariant
                n == before.len(),
                values@.len() + old_entries@.len() == n,
                forall|i: int| 0 <= i < old_entries@.len() ==> old_entries@[i] == before[i],
                forall|j: int| 0 <= j < values@.len() ==> values@[j] == before[n - 1 - j].1,
            decreases old_entries@.len(),
        {
            let (_, v) = old_entries.pop().unwrap();
            values.push(v);
        }
        proof {
            lemma_reversed_values(before, values@);
            assert(old(self)@ == entries_map(before));
        }
        values
    }

    /// Removes every entry.
    pub fn clear(&mut self)
        ensures
            final(self)@ == Map::<Seq<char>, V>::empty(),
    {
        self.entries = Vec::new();
        assert(entries_map(self.entries@) =~= Map::<Seq<char>, V>::empty());
    }

    /// The names of the table, in the table's order, each once.
    pub fn names(&self) -> (r: Vec<String>)
        ensures
            r@.len() == self@.dom().len(),
            forall|i: int, j: int| 0 <= i < j < r@.len() ==> (#[trigger] r@[i])@ != (#[trigger] r@[j])@,
            forall|k: Seq<char>| #[trigger] self@.contains_key(k) <==> exists|i: int| 0 <= i < r@.len() && (#[trigger] r@[i])@ == k,
    {
        proof {
            use_type_invariant(self);
            lemma_dom_len(self.entries@);
        }
        let mut r: Vec<String> = Vec::new();
        let mut j: usize = 0;
        while j < self.entries.len()
            invariant
                j <= self.entries@.len(),
                r@.len() == j,
                forall|i: int| 0 <= i < j ==> (#[trigger] r@[i])@ == self.entries@[i].0@,
            decreases self.entries@.len() - j,
        {
            r.push(self.entries[j].0.clone());
            j += 1;
        }
        assert forall|a: int, b: int| 0 <= a < b < r@.len() implies (#[trigger] r@[a])@ != (#[trigger] r@[b])@ by {
            assert(self.entries@[a].0@ != self.entries@[b].0@);
        }
        assert forall|k: Seq<char>| #[trigger] self@.contains_key(k) <==> exists|i: int| 0 <= i < r@.len() && (#[trigger] r@[i])@ == k by {
            if self@.contains_key(k) {
                let i = name_index(self.entries@, k);
                assert(r@[i]@ == k);
            }
            if exists|i: int| 0 <= i < r@.len() && (#[trigger] r@[i])@ == k {
                let i = choose|i: int| 0 <= i < r@.len() && (#[trigger] r@[i])@ == k;
                assert(self.entries@[i].0@ == k);
            }
        }
        r
    }
}

/// What is read back after a write: the value just set under a name, and under every
/// other name the value that was there before.
pub proof fn lemma_read_after_insert<V>(m: Map<Seq<char>, V>, k: Seq<char>, v: V, other: Seq<char>)
    requires
        other != k,
    ensures
        m.insert(k, v).contains_key(k),
        m.insert(k, v)[k] == v,
        m.insert(k, v).contains_key(other) == m.contains_key(other),
        m.contains_key(other) ==> m.insert(k, v)[other] == m[other],
{
}

/// What is read back after a removal: nothing under the removed name, and under
/// every other name the value that was there before.
pub proof fn lemma_read_after_remove<V>(m: Map<Seq<char>, V>, k: Seq<char>, other: Seq<char>)
    requires
        other != k,
    ensures
        !m.remove(k).contains_key(k),
        m.remove(k).contains_key(other) == m.contains_key(other),
        m.contains_key(other) ==> m.remove(k)[other] == m[other],
{
}

} // verus!

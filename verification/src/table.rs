use vstd::prelude::*;

verus! {

/// One row of a [`Table`]: a key and what is filed under it.
pub struct Entry<V> {
    pub key: u64,
    pub value: V,
}

/// No key stands in two rows.
pub open spec fn unique_keys<V>(s: Seq<Entry<V>>) -> bool {
    forall|i: int, j: int|
        0 <= i < s.len() && 0 <= j < s.len() && i != j ==> (#[trigger] s[i]).key != (#[trigger] s[j]).key
}

/// Some row carries the key `k`.
pub open spec fn has_key<V>(s: Seq<Entry<V>>, k: u64) -> bool {
    exists|i: int| 0 <= i < s.len() && (#[trigger] s[i]).key == k
}

/// The row that carries the key `k`, where there is one.
pub open spec fn slot_of<V>(s: Seq<Entry<V>>, k: u64) -> int {
    choose|i: int| 0 <= i < s.len() && (#[trigger] s[i]).key == k
}

/// The rows read as a finite map from key to value.
#[verifier::opaque]
pub open spec fn as_map<V>(s: Seq<Entry<V>>) -> Map<u64, V> {
    Map::new(|k: u64| has_key(s, k), |k: u64| s[slot_of(s, k)].value)
}

/// With unique keys, row `i` is the row of its key.
pub proof fn lemma_row<V>(s: Seq<Entry<V>>, i: int)
    requires
        unique_keys(s),
        0 <= i < s.len(),
    ensures
        has_key(s, s[i].key),
        slot_of(s, s[i].key) == i,
        as_map(s).contains_key(s[i].key),
        as_map(s)[s[i].key] == s[i].value,
{
    reveal(as_map);
    let k = s[i].key;
    let j = slot_of(s, k);
    assert(0 <= j < s.len() && s[j].key == k);
}

/// A key of the map has a row, and that row holds the map's value.
pub proof fn lemma_key_row<V>(s: Seq<Entry<V>>, k: u64)
    requires
        as_map(s).contains_key(k),
    ensures
        0 <= slot_of(s, k) < s.len(),
        s[slot_of(s, k)].key == k,
        as_map(s)[k] == s[slot_of(s, k)].value,
{
    reveal(as_map);
    assert(has_key(s, k));
}

/// The keys of the map are the keys of the rows.
pub proof fn lemma_keys<V>(s: Seq<Entry<V>>)
    ensures
        forall|k: u64| #[trigger] as_map(s).contains_key(k) <==> has_key(s, k),
{
    reveal(as_map);
}

/// Without rows the map is empty.
pub proof fn lemma_no_rows<V>(s: Seq<Entry<V>>)
    requires
        s.len() == 0,
    ensures
        as_map(s) == Map::<u64, V>::empty(),
{
    reveal(as_map);
    assert(as_map(s) =~= Map::<u64, V>::empty());
}

/// Appending a row with a new key inserts it into the map.
pub proof fn lemma_push<V>(s: Seq<Entry<V>>, e: Entry<V>)
    requires
        unique_keys(s),
        !has_key(s, e.key),
    ensures
        unique_keys(s.push(e)),
        as_map(s.push(e)) == as_map(s).insert(e.key, e.value),
{
    reveal(as_map);
    let t = s.push(e);
    assert forall|i: int, j: int| 0 <= i < t.len() && 0 <= j < t.len() && i != j
    implies (#[trigger] t[i]).key != (#[trigger] t[j]).key by {
        if i < s.len() {
            assert(t[i] == s[i]);
        }
        if j < s.len() {
            assert(t[j] == s[j]);
        }
    }
    assert forall|k: u64| has_key(t, k) <==> (has_key(s, k) || k == e.key) by {
        if has_key(t, k) {
            let i = slot_of(t, k);
            if i < s.len() {
                assert(s[i].key == k);
            }
        }
        if has_key(s, k) {
            let i = slot_of(s, k);
            assert(t[i].key == k);
        }
        if k == e.key {
            assert(t[s.len() as int].key == k);
        }
    }
    assert forall|k: u64| has_key(t, k)
    implies #[trigger] as_map(t)[k] == as_map(s).insert(e.key, e.value)[k] by {
        let i = slot_of(t, k);
        lemma_row(t, i);
        if i < s.len() {
            assert(s[i] == t[i]);
            lemma_row(s, i);
        }
    }
    assert(as_map(t) =~= as_map(s).insert(e.key, e.value));
}

/// Taking row `i` out removes its key from the map.
pub proof fn lemma_remove<V>(s: Seq<Entry<V>>, i: int)
    requires
        unique_keys(s),
        0 <= i < s.len(),
    ensures
        unique_keys(s.remove(i)),
        as_map(s.remove(i)) == as_map(s).remove(s[i].key),
{
    reveal(as_map);
    let t = s.remove(i);
    assert forall|a: int| 0 <= a < t.len() implies #[trigger] t[a] == s[if a < i { a } else { a + 1 }] by {}
    assert forall|a: int, b: int| 0 <= a < t.len() && 0 <= b < t.len() && a != b
    implies (#[trigger] t[a]).key != (#[trigger] t[b]).key by {
        let a2 = if a < i { a } else { a + 1 };
        let b2 = if b < i { b } else { b + 1 };
        assert(t[a] == s[a2]);
        assert(t[b] == s[b2]);
    }
    assert forall|k: u64| has_key(t, k) <==> (has_key(s, k) && k != s[i].key) by {
        if has_key(t, k) {
            let a = slot_of(t, k);
            let a2 = if a < i { a } else { a + 1 };
            assert(t[a] == s[a2]);
            assert(s[a2].key == k);
        }
        if has_key(s, k) && k != s[i].key {
            let a = slot_of(s, k);
            let a2 = if a < i { a } else { a - 1 };
            assert(t[a2] == s[a]);
            assert(t[a2].key == k);
        }
    }
    assert forall|k: u64| has_key(t, k) implies #[trigger] as_map(t)[k] == as_map(s).remove(s[i].key)[k] by {
        let a = slot_of(t, k);
        lemma_row(t, a);
        let a2 = if a < i { a } else { a + 1 };
        assert(t[a] == s[a2]);
        lemma_row(s, a2);
    }
    assert(as_map(t) =~= as_map(s).remove(s[i].key));
}

/// Replacing the value of row `i` replaces it in the map.
pub proof fn lemma_update<V>(s: Seq<Entry<V>>, t: Seq<Entry<V>>, i: int)
    requires
        unique_keys(s),
        0 <= i < s.len(),
        t.len() == s.len(),
        t[i].key == s[i].key,
        forall|j: int| 0 <= j < s.len() && j != i ==> t[j] == s[j],
    ensures
        unique_keys(t),
        as_map(t) == as_map(s).insert(s[i].key, t[i].value),
{
    reveal(as_map);
    assert forall|a: int| 0 <= a < t.len() implies (#[trigger] t[a]).key == s[a].key by {}
    assert forall|a: int, b: int| 0 <= a < t.len() && 0 <= b < t.len() && a != b
    implies (#[trigger] t[a]).key != (#[trigger] t[b]).key by {
        assert(t[a].key == s[a].key);
        assert(t[b].key == s[b].key);
    }
    assert forall|k: u64| has_key(t, k) <==> has_key(s, k) by {
        if has_key(t, k) {
            let a = slot_of(t, k);
            assert(s[a].key == k);
        }
        if has_key(s, k) {
            let a = slot_of(s, k);
            assert(t[a].key == k);
        }
    }
    lemma_row(s, i);
    assert forall|k: u64| has_key(t, k)
    implies #[trigger] as_map(t)[k] == as_map(s).insert(s[i].key, t[i].value)[k] by {
        let a = slot_of(t, k);
        lemma_row(t, a);
        assert(s[a].key == k);
        lemma_row(s, a);
    }
    assert(as_map(t) =~= as_map(s).insert(s[i].key, t[i].value));
}

/// A small keyed store: rows in the order in which they were filed, no key
/// twice. Its model is the finite map [`Table::map`].
pub struct Table<V> {
    pub entries: Vec<Entry<V>>,
}

impl<V> Table<V> {
    /// No key stands in two rows.
    pub open spec fn wf(&self) -> bool {
        unique_keys(self.entries@)
    }

    /// The table as a map from key to value.
    pub open spec fn map(&self) -> Map<u64, V> {
        as_map(self.entries@)
    }

    /// An empty table.
    pub fn new() -> (t: Self)
        ensures
            t.wf(),
            t.map() == Map::<u64, V>::empty(),
            t.entries@.len() == 0,
    {
        let t = Table { entries: Vec::new() };
        proof {
            lemma_no_rows(t.entries@);
        }
        t
    }

    /// The number of rows.
    pub fn len(&self) -> (n: usize)
        ensures
            n == self.entries@.len(),
    {
        self.entries.len()
    }

    /// The row that holds `key`, if any.
    pub fn find(&self, key: u64) -> (r: Option<usize>)
        requires
            self.wf(),
        ensures
            match r {
                Some(i) => {
                    &&& i < self.entries@.len()
                    &&& self.entries@[i as int].key == key
                    &&& self.map().contains_key(key)
                    &&& self.map()[key] == self.entries@[i as int].value
                    &&& slot_of(self.entries@, key) == i
                },
                None => !self.map().contains_key(key),
            },
    {
        let mut i: usize = 0;
        while i < self.entries.len()
            invariant
                self.wf(),
                i <= self.entries@.len(),
                forall|j: int| 0 <= j < i ==> (#[trigger] self.entries@[j]).key != key,
            decreases self.entries@.len() - i,
        {
            if self.entries[i].key == key {
                proof {
                    lemma_row(self.entries@, i as int);
                }
                return Some(i);
            }
            i += 1;
        }
        proof {
            lemma_keys(self.entries@);
        }
        None
    }

    /// Whether some row holds `key`.
    pub fn contains(&self, key: u64) -> (b: bool)
        requires
            self.wf(),
        ensures
            b == self.map().contains_key(key),
    {
        self.find(key).is_some()
    }

    /// Files `value` under a key that the table does not hold yet, as the
    /// last row.
    pub fn insert_new(&mut self, key: u64, value: V)
        requires
            old(self).wf(),
            !old(self).map().contains_key(key),
        ensures
            final(self).wf(),
            final(self).map() == old(self).map().insert(key, value),
            final(self).entries@ == old(self).entries@.push(Entry { key, value }),
    {
        proof {
            lemma_keys(self.entries@);
            lemma_push(self.entries@, Entry { key, value });
        }
        self.entries.push(Entry { key, value });
    }

    /// Takes row `i` out and hands back its value; the rows behind it move
    /// up by one.
    pub fn remove_at(&mut self, i: usize) -> (v: V)
        requires
            old(self).wf(),
            i < old(self).entries@.len(),
        ensures
            final(self).wf(),
            v == old(self).entries@[i as int].value,
            final(self).map() == old(self).map().remove(old(self).entries@[i as int].key),
            final(self).entries@ == old(self).entries@.remove(i as int),
    {
        proof {
            lemma_remove(self.entries@, i as int);
        }
        let e = self.entries.remove(i);
        e.value
    }
}

} // verus!

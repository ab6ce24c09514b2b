use vstd::prelude::*;

verus! {

/// The table that a list of identifier and value pairs makes when each pair
/// is put in turn, a later pair replacing an earlier one with the same
/// identifier.
pub open spec fn table_of<T>(entries: Seq<(Seq<char>, T)>) -> Map<Seq<char>, T>
    decreases entries.len(),
{
    if entries.len() == 0 {
        Map::empty()
    } else {
        table_of(entries.drop_last()).insert(entries.last().0, entries.last().1)
    }
}

/// Looking up an identifier in such a table finds a value exactly when some
/// pair has that identifier, and the value found is that of the last such
/// pair.
pub proof fn lemma_table_of_holds_last<T>(entries: Seq<(Seq<char>, T)>, id: Seq<char>)
    ensures
        table_of(entries).contains_key(id) <==> exists|i: int|
            0 <= i < entries.len() && #[trigger] entries[i].0 == id,
        table_of(entries).contains_key(id) ==> exists|i: int|
            0 <= i < entries.len() && #[trigger] entries[i].0 == id && table_of(entries)[id]
                == entries[i].1 && forall|j: int| i < j < entries.len() ==> #[trigger] entries[j].0 != id,
    decreases entries.len(),
{
    if entries.len() > 0 {
        let rest = entries.drop_last();
        let n = entries.len() - 1;
        lemma_table_of_holds_last(rest, id);
        if entries.last().0 == id {
            assert(entries[n].0 == id);
        } else {
            if table_of(entries).contains_key(id) {
                let i = choose|i: int|
                    0 <= i < rest.len() && #[trigger] rest[i].0 == id && table_of(rest)[id] == rest[i].1
                        && forall|j: int| i < j < rest.len() ==> #[trigger] rest[j].0 != id;
                assert(entries[i] == rest[i]);
                assert forall|j: int| i < j < entries.len() implies #[trigger] entries[j].0 != id by {
                    if j < n {
                        assert(entries[j] == rest[j]);
                    }
                }
            }
            if exists|i: int| 0 <= i < entries.len() && #[trigger] entries[i].0 == id {
                let i = choose|i: int| 0 <= i < entries.len() && #[trigger] entries[i].0 == id;
                assert(rest[i].0 == id);
            }
        }
    }
}

/// In such a table, the identifier of a pair that no later pair repeats
/// holds that pair's value.
pub proof fn lemma_table_of_holds_value<T>(entries: Seq<(Seq<char>, T)>, i: int)
    requires
        0 <= i < entries.len(),
        forall|j: int| i < j < entries.len() ==> #[trigger] entries[j].0 != entries[i].0,
    ensures
        table_of(entries).contains_key(entries[i].0),
        table_of(entries)[entries[i].0] == entries[i].1,
{
    let id = entries[i].0;
    lemma_table_of_holds_last(entries, id);
    let k = choose|k: int|
        0 <= k < entries.len() && #[trigger] entries[k].0 == id && table_of(entries)[id] == entries[k].1
            && forall|j: int| k < j < entries.len() ==> #[trigger] entries[j].0 != id;
    if k < i {
        assert(entries[i].0 != id);
    } else if k > i {
        assert(entries[k].0 != entries[i].0);
    }
}

/// A list's table made of one more pair: the table of the shorter list with
/// that pair put in.
pub proof fn lemma_table_of_extend<T>(entries: Seq<(Seq<char>, T)>, i: int)
    requires
        0 <= i < entries.len(),
    ensures
        table_of(entries.take(i + 1)) == table_of(entries.take(i)).insert(entries[i].0, entries[i].1),
{
    let prefix = entries.take(i + 1);
    assert(prefix.drop_last() =~= entries.take(i));
}

/// No two entries of `entries` have the same identifier.
spec fn distinct_keys<V>(entries: Seq<(String, V)>) -> bool {
    forall|i: int, j: int|
        0 <= i < entries.len() && 0 <= j < entries.len() && i != j ==> #[trigger] entries[i].0@
            != #[trigger] entries[j].0@
}

/// A table from identifiers to values.  Putting a value under an identifier
/// that is already there replaces the value that was there; so a table built
/// from a list holds, for each identifier, the last value given for it.
pub struct IdMap<V> {
    entries: Vec<(String, V)>,
}

impl<V> IdMap<V> {
    /// The identifier of the `i`-th entry.
    pub closed spec fn key_at(&self, i: int) -> Seq<char> {
        self.entries@[i].0@
    }

    /// Whether some entry has identifier `k`.
    pub closed spec fn has_key(&self, k: Seq<char>) -> bool {
        exists|i: int| 0 <= i < self.entries@.len() && #[trigger] self.key_at(i) == k
    }

    /// The index of the entry with identifier `k`.
    closed spec fn index_of(&self, k: Seq<char>) -> int {
        choose|i: int| 0 <= i < self.entries@.len() && #[trigger] self.key_at(i) == k
    }

    /// No identifier occurs twice among the entries.
    #[verifier::type_invariant]
    closed spec fn keys_distinct(&self) -> bool {
        distinct_keys(self.entries@)
    }

    proof fn lemma_entry_is_indexed(&self, i: int)
        requires
            self.keys_distinct(),
            0 <= i < self.entries@.len(),
        ensures
            self.has_key(self.key_at(i)),
            self.index_of(self.key_at(i)) == i,
    {
        let k = self.key_at(i);
        assert(self.has_key(k));
        let j = self.index_of(k);
        assert(self.key_at(j) == k);
    }
}

impl<V> View for IdMap<V> {
    type V = Map<Seq<char>, V>;

    closed spec fn view(&self) -> Map<Seq<char>, V> {
        Map::new(|k: Seq<char>| self.has_key(k), |k: Seq<char>| self.entries@[self.index_of(k)].1)
    }
}

impl<V> IdMap<V> {
    /// An empty table.
    pub fn new() -> (r: Self)
        ensures
            r@ == Map::<Seq<char>, V>::empty(),
    {
        let r = IdMap { entries: Vec::new() };
        assert(r@ =~= Map::<Seq<char>, V>::empty());
        r
    }

    /// The number of identifiers in the table.
    pub fn len(&self) -> (r: usize)
        ensures
            r == self@.len(),
    {
        proof {
            use_type_invariant(self);
            self.lemma_len();
        }
        self.entries.len()
    }

    proof fn lemma_len(&self)
        requires
            self.keys_distinct(),
        ensures
            self@.dom().finite(),
            self@.len() == self.entries@.len(),
        decreases self.entries@.len(),
    {
        let keys = Seq::new(self.entries@.len(), |i: int| self.key_at(i));
        assert(keys.no_duplicates());
        assert(self@.dom() =~= keys.to_set()) by {
            assert forall|k: Seq<char>| self@.dom().contains(k) implies keys.to_set().contains(k) by {
                let i = self.index_of(k);
                assert(keys[i] == k);
            }
            assert forall|k: Seq<char>| keys.to_set().contains(k) implies self@.dom().contains(k) by {
                let i = choose|i: int| 0 <= i < keys.len() && keys[i] == k;
                assert(self.key_at(i) == k);
            }
        }
        keys.unique_seq_to_set();
    }

    /// Finds the position of the entry with identifier `id`, if any.
    fn position(&self, id: &String) -> (r: Option<usize>)
        ensures
            match r {
                Some(i) => i < self.entries@.len() && self.key_at(i as int) == id@,
                None => !self.has_key(id@),
            },
    {
        let mut i: usize = 0;
        while i < self.entries.len()
            invariant
                i <= self.entries@.len(),
                forall|j: int| 0 <= j < i ==> self.key_at(j) != id@,
            decreases self.entries@.len() - i,
        {
            if self.entries[i].0 == *id {
                return Some(i);
            }
            i = i + 1;
        }
        None
    }

    /// The value under `id`, if there is one.
    pub fn get(&self, id: &String) -> (r: Option<&V>)
        ensures
            match r {
                Some(v) => self@.contains_key(id@) && *v == self@[id@],
                None => !self@.contains_key(id@),
            },
    {
        proof {
            use_type_invariant(self);
        }
        match self.position(id) {
            Some(i) => {
                proof {
                    self.lemma_entry_is_indexed(i as int);
                }
                Some(&self.entries[i].1)
            },
            None => None,
        }
    }

    /// Puts `value` under `id`, replacing what was there.
    pub fn insert(&mut self, id: String, value: V)
        ensures
            final(self)@ == old(self)@.insert(id@, value),
    {
        proof {
            use_type_invariant(&*self);
        }
        let ghost before = *self;
        let ghost k = id@;
        match self.position(&id) {
            Some(i) => {
                proof {
                    before.lemma_entry_is_indexed(i as int);
                }
                let mut entries: Vec<(String, V)> = Vec::new();
                std::mem::swap(&mut entries, &mut self.entries);
                entries.set(i, (id, value));
                assert(distinct_keys(entries@)) by {
                    assert(forall|j: int| 0 <= j < entries@.len() ==> #[trigger] entries@[j].0@ == before.key_at(j));
                }
                self.entries = entries;
                proof {
                    let after = *self;
                    assert(forall|j: int| 0 <= j < after.entries@.len() ==> #[trigger] after.key_at(j) == before.key_at(j));
                    assert forall|c: Seq<char>| after.has_key(c) == before.has_key(c) by {
                        if before.has_key(c) {
                            let j = before.index_of(c);
                            assert(after.key_at(j) == c);
                        }
                        if after.has_key(c) {
                            let j = after.index_of(c);
                            assert(before.key_at(j) == c);
                        }
                    }
                    assert forall|c: Seq<char>| #[trigger] after.has_key(c) implies after.entries@[after.index_of(c)].1 == before@.insert(k, value)[c] by {
                        let j = after.index_of(c);
                        after.lemma_entry_is_indexed(j);
                        if c != k {
                            before.lemma_entry_is_indexed(j);
                        }
                    }
                    assert(after@ =~= before@.insert(k, value));
                }
            },
            None => {
                let mut entries: Vec<(String, V)> = Vec::new();
                std::mem::swap(&mut entries, &mut self.entries);
                entries.push((id, value));
                assert(distinct_keys(entries@)) by {
                    assert(forall|j: int| 0 <= j < before.entries@.len() ==> #[trigger] entries@[j].0@ == before.key_at(j));
                    assert(forall|j: int| 0 <= j < before.entries@.len() ==> before.key_at(j) != k);
                }
                self.entries = entries;
                proof {
                    let after = *self;
                    let n = before.entries@.len() as int;
                    assert(after.key_at(n) == k);
                    assert(forall|j: int| 0 <= j < n ==> #[trigger] after.key_at(j) == before.key_at(j));
                    assert forall|c: Seq<char>| after.has_key(c) == (before.has_key(c) || c == k) by {
                        if before.has_key(c) {
                            let j = before.index_of(c);
                            assert(after.key_at(j) == c);
                        }
                        if after.has_key(c) && c != k {
                            let j = after.index_of(c);
                            assert(before.key_at(j) == c);
                        }
                    }
                    assert forall|c: Seq<char>| #[trigger] after.has_key(c) implies after.entries@[after.index_of(c)].1 == before@.insert(k, value)[c] by {
                        let j = after.index_of(c);
                        after.lemma_entry_is_indexed(j);
                        if c != k {
                            before.lemma_entry_is_indexed(j);
                        }
                    }
                    assert(after@ =~= before@.insert(k, value));
                }
            },
        }
    }
}

} // verus!

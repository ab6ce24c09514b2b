use vstd::prelude::*;

verus! {

/// The order of `String`: `a` comes before `b` when, at the first position
/// where they differ, `a` has the smaller character, or when `a` is a proper
/// prefix of `b`.  Comparing the UTF-8 bytes, as `String` does, gives the
/// same order, since UTF-8 keeps the order of code points.
pub open spec fn text_less(a: Seq<char>, b: Seq<char>) -> bool
    decreases a.len(),
{
    if a.len() == 0 {
        b.len() > 0
    } else if b.len() == 0 {
        false
    } else if a[0] < b[0] {
        true
    } else if a[0] > b[0] {
        false
    } else {
        text_less(a.drop_first(), b.drop_first())
    }
}

/// No text comes before itself.
pub proof fn lemma_text_less_irreflexive(a: Seq<char>)
    ensures
        !text_less(a, a),
    decreases a.len(),
{
    if a.len() > 0 {
        lemma_text_less_irreflexive(a.drop_first());
    }
}

/// Of two different texts, one comes before the other, and never both.
pub proof fn lemma_text_less_total(a: Seq<char>, b: Seq<char>)
    ensures
        a != b ==> text_less(a, b) || text_less(b, a),
        !(text_less(a, b) && text_less(b, a)),
    decreases a.len(),
{
    if a.len() > 0 && b.len() > 0 {
        lemma_text_less_total(a.drop_first(), b.drop_first());
        if a[0] == b[0] && a.drop_first() == b.drop_first() {
            assert(a =~= seq![a[0]] + a.drop_first());
            assert(b =~= seq![b[0]] + b.drop_first());
        }
    } else if a.len() == 0 && b.len() == 0 {
        assert(a =~= b);
    }
}

/// The order of texts is transitive.
pub proof fn lemma_text_less_transitive(a: Seq<char>, b: Seq<char>, c: Seq<char>)
    requires
        text_less(a, b),
        text_less(b, c),
    ensures
        text_less(a, c),
    decreases a.len(),
{
    if a.len() > 0 && b.len() > 0 && c.len() > 0 {
        if a[0] == b[0] && b[0] == c[0] {
            lemma_text_less_transitive(a.drop_first(), b.drop_first(), c.drop_first());
        }
    }
}

proof fn lemma_text_less_skip(a: Seq<char>, b: Seq<char>, i: int)
    requires
        0 <= i <= a.len(),
        i <= b.len(),
        a.take(i) == b.take(i),
    ensures
        text_less(a, b) == text_less(a.skip(i), b.skip(i)),
    decreases i,
{
    if i > 0 {
        assert(a.take(i - 1) =~= a.take(i).take(i - 1));
        assert(b.take(i - 1) =~= b.take(i).take(i - 1));
        lemma_text_less_skip(a, b, i - 1);
        assert(a.take(i)[i - 1] == b.take(i)[i - 1]);
        assert(a.take(i)[i - 1] == a[i - 1]);
        assert(b.take(i)[i - 1] == b[i - 1]);
        assert(a.skip(i - 1)[0] == a[i - 1]);
        assert(b.skip(i - 1)[0] == b[i - 1]);
        assert(a.skip(i - 1)[0] == b.skip(i - 1)[0]);
        assert(a.skip(i - 1).drop_first() =~= a.skip(i));
        assert(b.skip(i - 1).drop_first() =~= b.skip(i));
    } else {
        assert(a.skip(0) =~= a);
        assert(b.skip(0) =~= b);
    }
}

/// How two texts are placed in the order of texts.
pub enum TextOrder {
    Less,
    Equal,
    Greater,
}

/// Compares two texts in the order of `String`.
pub fn text_order(a: &str, b: &str) -> (r: TextOrder)
    ensures
        (r is Less) == text_less(a@, b@),
        (r is Equal) == (a@ == b@),
        (r is Greater) == text_less(b@, a@),
{
    let a_len = a.unicode_len();
    let b_len = b.unicode_len();
    let mut i: usize = 0;
    proof {
        lemma_text_less_total(a@, b@);
        lemma_text_less_irreflexive(a@);
    }
    while i < a_len && i < b_len
        invariant
            a_len == a@.len(),
            b_len == b@.len(),
            i <= a_len,
            i <= b_len,
            a@.take(i as int) == b@.take(i as int),
        decreases a_len - i,
    {
        let x = a.get_char(i);
        let y = b.get_char(i);
        if x < y {
            proof {
                lemma_text_less_skip(a@, b@, i as int);
                lemma_text_less_skip(b@, a@, i as int);
                assert(a@.skip(i as int)[0] == x);
                assert(b@.skip(i as int)[0] == y);
            }
            return TextOrder::Less;
        }
        if x > y {
            proof {
                lemma_text_less_skip(a@, b@, i as int);
                lemma_text_less_skip(b@, a@, i as int);
                assert(a@.skip(i as int)[0] == x);
                assert(b@.skip(i as int)[0] == y);
            }
            return TextOrder::Greater;
        }
        proof {
            assert(a@.take(i + 1) =~= a@.take(i as int).push(x));
            assert(b@.take(i + 1) =~= b@.take(i as int).push(y));
        }
        i = i + 1;
    }
    proof {
        lemma_text_less_skip(a@, b@, i as int);
        lemma_text_less_skip(b@, a@, i as int);
    }
    if a_len == b_len {
        proof {
            assert(a@ =~= a@.take(i as int));
            assert(b@ =~= b@.take(i as int));
        }
        TextOrder::Equal
    } else if a_len < b_len {
        TextOrder::Less
    } else {
        TextOrder::Greater
    }
}

/// The keys of `entries` strictly increase in the order of texts.
pub open spec fn keys_increasing(entries: Seq<(String, String)>) -> bool {
    forall|i: int, j: int|
        0 <= i < j < entries.len() ==> text_less(#[trigger] entries[i].0@, #[trigger] entries[j].0@)
}

/// A table from texts to texts that keeps its entries in the order of their
/// keys, each key once; putting a value under a key that is there replaces
/// its value.
pub struct SortedMap {
    entries: Vec<(String, String)>,
}

impl SortedMap {
    /// The key of the `i`-th entry.
    pub closed spec fn key_at(&self, i: int) -> Seq<char> {
        self.entries@[i].0@
    }

    /// Whether some entry has key `k`.
    pub closed spec fn has_key(&self, k: Seq<char>) -> bool {
        exists|i: int| 0 <= i < self.entries@.len() && #[trigger] self.key_at(i) == k
    }

    closed spec fn index_of(&self, k: Seq<char>) -> int {
        choose|i: int| 0 <= i < self.entries@.len() && #[trigger] self.key_at(i) == k
    }

    /// The entries are kept in increasing order of their keys.
    #[verifier::type_invariant]
    closed spec fn ordered(&self) -> bool {
        keys_increasing(self.entries@)
    }

    proof fn lemma_entry_is_indexed(&self, i: int)
        requires
            self.ordered(),
            0 <= i < self.entries@.len(),
        ensures
            self.has_key(self.key_at(i)),
            self.index_of(self.key_at(i)) == i,
    {
        let k = self.key_at(i);
        assert(self.has_key(k));
        let j = self.index_of(k);
        assert(self.key_at(j) == k);
        if j < i {
            assert(text_less(self.key_at(j), self.key_at(i)));
            lemma_text_less_irreflexive(k);
        } else if i < j {
            assert(text_less(self.key_at(i), self.key_at(j)));
            lemma_text_less_irreflexive(k);
        }
    }
}

impl View for SortedMap {
    type V = Map<Seq<char>, Seq<char>>;

    closed spec fn view(&self) -> Map<Seq<char>, Seq<char>> {
        Map::new(|k: Seq<char>| self.has_key(k), |k: Seq<char>| self.entries@[self.index_of(k)].1@)
    }
}

impl SortedMap {
    /// An empty table.
    pub fn new() -> (r: Self)
        ensures
            r@ == Map::<Seq<char>, Seq<char>>::empty(),
    {
        let r = SortedMap { entries: Vec::new() };
        assert(r@ =~= Map::<Seq<char>, Seq<char>>::empty());
        r
    }

    /// The entries, in increasing order of their keys.
    pub fn entries(&self) -> (r: &Vec<(String, String)>)
        ensures
            keys_increasing(r@),
            forall|k: Seq<char>|
                #[trigger] self@.contains_key(k) <==> exists|i: int|
                    0 <= i < r@.len() && #[trigger] r@[i].0@ == k,
            forall|i: int| 0 <= i < r@.len() ==> #[trigger] self@[r@[i].0@] == r@[i].1@,
    {
        proof {
            use_type_invariant(self);
            assert forall|k: Seq<char>| #[trigger] self@.contains_key(k) implies exists|i: int|
                0 <= i < self.entries@.len() && #[trigger] self.entries@[i].0@ == k by {
                let i = self.index_of(k);
                assert(self.key_at(i) == k);
            }
            assert forall|i: int| 0 <= i < self.entries@.len() implies #[trigger] self@[self.entries@[i].0@]
                == self.entries@[i].1@ by {
                self.lemma_entry_is_indexed(i);
            }
            assert forall|k: Seq<char>| (exists|i: int|
                0 <= i < self.entries@.len() && #[trigger] self.entries@[i].0@ == k) implies #[trigger] self@.contains_key(k) by {
                let i = choose|i: int| 0 <= i < self.entries@.len() && #[trigger] self.entries@[i].0@ == k;
                assert(self.key_at(i) == k);
            }
        }
        &self.entries
    }

    /// The value under `key`, if there is one.
    pub fn get(&self, key: &String) -> (r: Option<&String>)
        ensures
            match r {
                Some(v) => self@.contains_key(key@) && v@ == self@[key@],
                None => !self@.contains_key(key@),
            },
    {
        proof {
            use_type_invariant(self);
        }
        let mut i: usize = 0;
        while i < self.entries.len()
            invariant
                i <= self.entries@.len(),
                self.ordered(),
                forall|j: int| 0 <= j < i ==> self.key_at(j) != key@,
            decreases self.entries@.len() - i,
        {
            if self.entries[i].0 == *key {
                proof {
                    self.lemma_entry_is_indexed(i as int);
                }
                return Some(&self.entries[i].1);
            }
            i = i + 1;
        }
        None
    }

    /// Puts `value` under `key`, replacing what was there, and keeps the
    /// entries in order.
    pub fn insert(&mut self, key: String, value: String)
        ensures
            final(self)@ == old(self)@.insert(key@, value@),
    {
        proof {
            use_type_invariant(&*self);
        }
        let ghost before = *self;
        let ghost k = key@;
        let ghost n = before.entries@.len() as int;
        let mut i: usize = 0;
        let mut found = false;
        while i < self.entries.len()
            invariant
                *self == before,
                k == key@,
                i <= self.entries@.len(),
                forall|j: int| 0 <= j < i ==> text_less(#[trigger] self.key_at(j), k),
                found ==> i < self.entries@.len() && self.key_at(i as int) == k,
            ensures
                found ==> i < self.entries@.len() && self.key_at(i as int) == k,
                !found ==> i == self.entries@.len() || text_less(k, self.key_at(i as int)),
                forall|j: int| 0 <= j < i ==> text_less(#[trigger] self.key_at(j), k),
            decreases self.entries@.len() - i + if found { 0int } else { 1 },
        {
            match text_order(self.entries[i].0.as_str(), key.as_str()) {
                TextOrder::Less => {
                    i = i + 1;
                },
                TextOrder::Equal => {
                    found = true;
                    break;
                },
                TextOrder::Greater => {
                    break;
                },
            }
        }
        let mut entries: Vec<(String, String)> = Vec::new();
        std::mem::swap(&mut entries, &mut self.entries);
        if found {
            proof {
                before.lemma_entry_is_indexed(i as int);
            }
            let ghost pos = i as int;
            let ghost v = value@;
            entries.set(i, (key, value));
            assert(entries@[pos].1@ == v);
            assert(keys_increasing(entries@)) by {
                assert(forall|j: int| 0 <= j < n ==> #[trigger] entries@[j].0@ == before.key_at(j));
            }
            self.entries = entries;
            proof {
                let after = *self;
                assert(forall|j: int| 0 <= j < n ==> #[trigger] after.key_at(j) == before.key_at(j));
                assert forall|c: Seq<char>| after.has_key(c) == before.has_key(c) by {
                    if before.has_key(c) {
                        let j = before.index_of(c);
                        assert(after.key_at(j) == c);
                    }
                    if after.has_key(c) {
                        let j = after.index_of(c);
                        assert(before.key_at(j) == c);
                    }
                }
                assert forall|c: Seq<char>| #[trigger] after.has_key(c) implies after.entries@[after.index_of(c)].1@
                    == before@.insert(k, v)[c] by {
                    let j = after.index_of(c);
                    after.lemma_entry_is_indexed(j);
                    if c != k {
                        before.lemma_entry_is_indexed(j);
                        assert(j != pos);
                        assert(after.entries@[j] == before.entries@[j]);
                    } else {
                        assert(after.key_at(pos) == k);
                        after.lemma_entry_is_indexed(pos);
                    }
                }
                assert(after@ =~= before@.insert(k, v));
            }
        } else {
            let ghost pos = i as int;
            let ghost v = value@;
            entries.insert(i, (key, value));
            assert(keys_increasing(entries@)) by {
                assert(forall|j: int| 0 <= j < pos ==> #[trigger] entries@[j].0@ == before.key_at(j));
                assert(entries@[pos].0@ == k);
                assert(forall|j: int| pos < j <= n ==> #[trigger] entries@[j].0@ == before.key_at(j - 1));
                assert forall|j: int| pos < j <= n implies text_less(k, #[trigger] entries@[j].0@) by {
                    if j - 1 > pos {
                        assert(text_less(before.key_at(pos), before.key_at(j - 1)));
                        lemma_text_less_transitive(k, before.key_at(pos), before.key_at(j - 1));
                    }
                }
                assert forall|a: int, b: int| 0 <= a < b < entries@.len() implies text_less(
                    #[trigger] entries@[a].0@,
                    #[trigger] entries@[b].0@,
                ) by {
                    if a < pos && b == pos {
                    } else if a < pos && b > pos {
                        lemma_text_less_transitive(entries@[a].0@, k, entries@[b].0@);
                    } else if a == pos {
                    } else if a < pos && b < pos {
                        assert(text_less(before.key_at(a), before.key_at(b)));
                    } else {
                        assert(text_less(before.key_at(a - 1), before.key_at(b - 1)));
                    }
                }
            }
            self.entries = entries;
            proof {
                let after = *self;
                assert(after.key_at(pos) == k);
                assert(forall|j: int| 0 <= j < pos ==> #[trigger] after.key_at(j) == before.key_at(j));
                assert(forall|j: int| pos < j <= n ==> #[trigger] after.key_at(j) == before.key_at(j - 1));
                assert(forall|j: int| 0 <= j < pos ==> after.entries@[j] == before.entries@[j]);
                assert(forall|j: int| pos < j <= n ==> after.entries@[j] == before.entries@[j - 1]);
                assert(!before.has_key(k)) by {
                    if before.has_key(k) {
                        let j = before.index_of(k);
                        if j < pos {
                            assert(text_less(before.key_at(j), k));
                            lemma_text_less_irreflexive(k);
                        } else {
                            if j > pos {
                                assert(text_less(before.key_at(pos), before.key_at(j)));
                                lemma_text_less_transitive(k, before.key_at(pos), before.key_at(j));
                            }
                            lemma_text_less_irreflexive(k);
                        }
                    }
                }
                assert forall|c: Seq<char>| after.has_key(c) == (before.has_key(c) || c == k) by {
                    if before.has_key(c) {
                        let j = before.index_of(c);
                        if j < pos {
                            assert(after.key_at(j) == c);
                        } else {
                            assert(after.key_at(j + 1) == c);
                        }
                    }
                    if after.has_key(c) && c != k {
                        let j = after.index_of(c);
                        if j < pos {
                            assert(before.key_at(j) == c);
                        } else {
                            assert(before.key_at(j - 1) == c);
                        }
                    }
                    if c == k {
                        assert(after.key_at(pos) == c);
                    }
                }
                assert forall|c: Seq<char>| #[trigger] after.has_key(c) implies after.entries@[after.index_of(c)].1@
                    == before@.insert(k, v)[c] by {
                    let j = after.index_of(c);
                    after.lemma_entry_is_indexed(j);
                    if c != k {
                        if j < pos {
                            before.lemma_entry_is_indexed(j);
                        } else {
                            before.lemma_entry_is_indexed(j - 1);
                        }
                    }
                }
                assert(after@ =~= before@.insert(k, v));
            }
        }
    }
}

} // verus!

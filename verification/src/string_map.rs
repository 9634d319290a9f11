//! A map from strings to values that keeps its entries in order: in the order
//! in which keys were inserted, or sorted by key where only `insert_sorted`
//! adds keys.
use vstd::prelude::*;
use crate::text_order::{text_less, text_less_exec, lemma_text_less_total, lemma_text_less_transitive};

verus! {

/// Compares two string slices for equality (std's `str == str`).
#[verifier::external_body]
pub(crate) fn str_eq(a: &str, b: &str) -> (r: bool)
    ensures
        r == (a@ == b@),
{
    a == b
}

/// A map keyed by strings whose entries keep their order: `insert` appends a
/// new key, `insert_sorted` places it among sorted keys. Replacing the value
/// of a present key keeps its position; removing a key keeps the order of the
/// others.
#[verifier::reject_recursive_types(V)]
pub struct StringMap<V> {
    entries: Vec<(String, V)>,
}

impl<V> StringMap<V> {
    /// No key occurs twice.
    pub open spec fn unique_keys(entries: Seq<(String, V)>) -> bool {
        forall|i: int, j: int|
            0 <= i < entries.len() && 0 <= j < entries.len() && i != j ==> #[trigger] entries[i].0@
                != #[trigger] entries[j].0@
    }

    #[verifier::type_invariant]
    closed spec fn inv(self) -> bool {
        Self::unique_keys(self.entries@)
    }

    /// The number of entries.
    pub closed spec fn spec_len(self) -> nat {
        self.entries@.len()
    }

    /// The key of the `i`-th entry.
    pub closed spec fn spec_key(self, i: int) -> Seq<char> {
        self.entries@[i].0@
    }

    /// The value of the `i`-th entry.
    pub closed spec fn spec_value(self, i: int) -> V {
        self.entries@[i].1
    }

    /// The keys in the order of the entries.
    pub open spec fn key_seq(self) -> Seq<Seq<char>> {
        Seq::new(self.spec_len(), |i: int| self.spec_key(i))
    }

    /// The values in the order of the entries.
    pub open spec fn value_seq(self) -> Seq<V> {
        Seq::new(self.spec_len(), |i: int| self.spec_value(i))
    }

    /// The entries stand in ascending order of their keys, as in a map
    /// sorted by its keys.
    pub open spec fn keys_sorted(self) -> bool {
        forall|i: int, j: int|
            0 <= i < j < self.spec_len() ==> text_less(#[trigger] self.spec_key(i), #[trigger] self.spec_key(j))
    }

    closed spec fn index_of_key(self, k: Seq<char>) -> int {
        choose|i: int| 0 <= i < self.entries@.len() && self.entries@[i].0@ == k
    }

    /// The entries as a mathematical map.
    pub closed spec fn as_map(self) -> Map<Seq<char>, V> {
        Map::new(
            |k: Seq<char>| exists|i: int| 0 <= i < self.entries@.len() && self.entries@[i].0@ == k,
            |k: Seq<char>| self.entries@[self.index_of_key(k)].1,
        )
    }

    /// The entries of a well-formed map agree with its view.
    proof fn lemma_entries(self)
        requires
            self.inv(),
        ensures
            forall|i: int|
                0 <= i < self.entries@.len() ==> #[trigger] self.as_map().contains_key(
                    self.entries@[i].0@,
                ) && self.as_map()[self.entries@[i].0@] == self.entries@[i].1,
            forall|k: Seq<char>|
                #[trigger] self.as_map().contains_key(k) ==> exists|i: int|
                    0 <= i < self.entries@.len() && self.entries@[i].0@ == k,
    {
        assert forall|i: int| 0 <= i < self.entries@.len() implies #[trigger] self.as_map().contains_key(
            self.entries@[i].0@,
        ) && self.as_map()[self.entries@[i].0@] == self.entries@[i].1 by {
            let k = self.entries@[i].0@;
            assert(self.as_map().dom().contains(k));
            let j = self.index_of_key(k);
            assert(0 <= j < self.entries@.len() && self.entries@[j].0@ == k);
            assert(i == j);
        }
    }

    /// Returns an empty map.
    pub fn new() -> (m: Self)
        ensures
            m@ == Map::<Seq<char>, V>::empty(),
            m.spec_len() == 0,
            m.keys_sorted(),
    {
        let m = StringMap { entries: Vec::new() };
        assert(m.as_map() =~= Map::<Seq<char>, V>::empty());
        m
    }

    /// Returns the number of entries.
    pub fn len(&self) -> (n: usize)
        ensures
            n == self.spec_len(),
    {
        self.entries.len()
    }

    /// Returns true if the map has no entries.
    pub fn is_empty(&self) -> (b: bool)
        ensures
            b == (self@ == Map::<Seq<char>, V>::empty()),
            b == (self.spec_len() == 0),
    {
        proof {
            use_type_invariant(self);
            self.lemma_entries();
        }
        let b = self.entries.len() == 0;
        if b {
            assert(self.as_map() =~= Map::<Seq<char>, V>::empty());
        } else {
            assert(self.as_map().contains_key(self.entries@[0].0@));
        }
        b
    }

    /// The position of a key, if it is present.
    pub fn position(&self, key: &str) -> (r: Option<usize>)
        ensures
            r is None <==> !self@.contains_key(key@),
            r matches Some(i) ==> i < self.spec_len() && self.spec_key(i as int) == key@
                && self@[key@] == self.spec_value(i as int),
    {
        proof {
            use_type_invariant(self);
            self.lemma_entries();
        }
        let mut i: usize = 0;
        while i < self.entries.len()
            invariant
                i <= self.entries@.len(),
                self.inv(),
                forall|j: int| 0 <= j < i ==> self.entries@[j].0@ != key@,
            decreases self.entries@.len() - i,
        {
            if str_eq(self.entries[i].0.as_str(), key) {
                proof {
                    self.lemma_entries();
                }
                return Some(i);
            }
            i = i + 1;
        }
        None
    }

    /// Returns true if the key is present.
    pub fn contains_key(&self, key: &str) -> (b: bool)
        ensures
            b == self@.contains_key(key@),
    {
        self.position(key).is_some()
    }

    /// Returns the value stored under a key, if any.
    pub fn get(&self, key: &str) -> (r: Option<&V>)
        ensures
            r is None <==> !self@.contains_key(key@),
            r matches Some(v) ==> *v == self@[key@],
    {
        match self.position(key) {
            Some(i) => Some(&self.entries[i].1),
            None => None,
        }
    }

    /// The key of the `i`-th entry.
    pub fn key_at(&self, i: usize) -> (k: &String)
        requires
            i < self.spec_len(),
        ensures
            k@ == self.spec_key(i as int),
            self@.contains_key(k@),
            self@[k@] == self.spec_value(i as int),
    {
        proof {
            use_type_invariant(self);
            self.lemma_entries();
        }
        &self.entries[i].0
    }

    /// The value of the `i`-th entry.
    pub fn value_at(&self, i: usize) -> (v: &V)
        requires
            i < self.spec_len(),
        ensures
            *v == self.spec_value(i as int),
            self@.contains_key(self.spec_key(i as int)),
            self@[self.spec_key(i as int)] == *v,
    {
        proof {
            use_type_invariant(self);
            self.lemma_entries();
        }
        &self.entries[i].1
    }

    /// Facts about the entries of the map, for callers that walk it by position.
    pub fn entries_agree(&self)
        ensures
            forall|i: int|
                0 <= i < self.spec_len() ==> #[trigger] self@.contains_key(self.spec_key(i))
                    && self@[self.spec_key(i)] == self.spec_value(i),
            forall|k: Seq<char>|
                #[trigger] self@.contains_key(k) ==> exists|i: int|
                    0 <= i < self.spec_len() && self.spec_key(i) == k,
            forall|i: int, j: int|
                0 <= i < self.spec_len() && 0 <= j < self.spec_len() && i != j ==> self.spec_key(i)
                    != self.spec_key(j),
    {
        proof {
            use_type_invariant(self);
            self.lemma_entries();
            assert forall|i: int, j: int|
                0 <= i < self.spec_len() && 0 <= j < self.spec_len() && i != j implies self.spec_key(
                i,
            ) != self.spec_key(j) by {
                assert(self.entries@[i].0@ != self.entries@[j].0@);
            }
            assert forall|k: Seq<char>| #[trigger] self@.contains_key(k) implies exists|i: int|
                0 <= i < self.spec_len() && self.spec_key(i) == k by {
                let i = choose|i: int| 0 <= i < self.entries@.len() && self.entries@[i].0@ == k;
                assert(self.spec_key(i) == k);
            }
        }
    }

    /// Replacing the value at one position changes the view by one insert.
    proof fn lemma_update_at(old_m: Self, new_m: Self, i: int, value: V)
        requires
            old_m.inv(),
            new_m.inv(),
            0 <= i < old_m.entries@.len(),
            new_m.entries@.len() == old_m.entries@.len(),
            new_m.entries@[i].0@ == old_m.entries@[i].0@,
            new_m.entries@[i].1 == value,
            forall|j: int| 0 <= j < old_m.entries@.len() && j != i ==> #[trigger] new_m.entries@[j] == old_m.entries@[j],
        ensures
            new_m.as_map() =~= old_m.as_map().insert(old_m.entries@[i].0@, value),
    {
        old_m.lemma_entries();
        new_m.lemma_entries();
        let key = old_m.entries@[i].0@;
        assert forall|k: Seq<char>| #[trigger] new_m.as_map().contains_key(k) <==> old_m.as_map().insert(key, value).contains_key(k) by {
            if k != key && old_m.as_map().contains_key(k) {
                let j = choose|j: int| 0 <= j < old_m.entries@.len() && old_m.entries@[j].0@ == k;
                assert(new_m.entries@[j] == old_m.entries@[j]);
                assert(new_m.as_map().contains_key(new_m.entries@[j].0@));
            }
            if k == key {
                assert(new_m.as_map().contains_key(new_m.entries@[i].0@));
            }
            if new_m.as_map().contains_key(k) {
                let j = choose|j: int| 0 <= j < new_m.entries@.len() && new_m.entries@[j].0@ == k;
                if j != i {
                    assert(new_m.entries@[j] == old_m.entries@[j]);
                    assert(old_m.as_map().contains_key(old_m.entries@[j].0@));
                }
            }
        }
        assert forall|k: Seq<char>| #[trigger] new_m.as_map().contains_key(k) implies new_m.as_map()[k] == old_m.as_map().insert(key, value)[k] by {
            let j = choose|j: int| 0 <= j < new_m.entries@.len() && new_m.entries@[j].0@ == k;
            if j != i {
                assert(new_m.entries@[j] == old_m.entries@[j]);
                assert(old_m.as_map().contains_key(old_m.entries@[j].0@));
            }
        }
    }

    /// Appending an entry with a fresh key changes the view by one insert.
    proof fn lemma_push(old_m: Self, new_m: Self, key: Seq<char>, value: V)
        requires
            old_m.inv(),
            new_m.inv(),
            !old_m.as_map().contains_key(key),
            new_m.entries@.len() == old_m.entries@.len() + 1,
            new_m.entries@.last().0@ == key,
            new_m.entries@.last().1 == value,
            forall|j: int| 0 <= j < old_m.entries@.len() ==> #[trigger] new_m.entries@[j] == old_m.entries@[j],
        ensures
            new_m.as_map() =~= old_m.as_map().insert(key, value),
    {
        old_m.lemma_entries();
        new_m.lemma_entries();
        let i = old_m.entries@.len() as int;
        assert forall|k: Seq<char>| #[trigger] new_m.as_map().contains_key(k) <==> old_m.as_map().insert(key, value).contains_key(k) by {
            if k != key && old_m.as_map().contains_key(k) {
                let j = choose|j: int| 0 <= j < old_m.entries@.len() && old_m.entries@[j].0@ == k;
                assert(new_m.entries@[j] == old_m.entries@[j]);
                assert(new_m.as_map().contains_key(new_m.entries@[j].0@));
            }
            if k == key {
                assert(new_m.as_map().contains_key(new_m.entries@[i].0@));
            }
            if new_m.as_map().contains_key(k) {
                let j = choose|j: int| 0 <= j < new_m.entries@.len() && new_m.entries@[j].0@ == k;
                if j != i {
                    assert(new_m.entries@[j] == old_m.entries@[j]);
                    assert(old_m.as_map().contains_key(old_m.entries@[j].0@));
                }
            }
        }
        assert forall|k: Seq<char>| #[trigger] new_m.as_map().contains_key(k) implies new_m.as_map()[k] == old_m.as_map().insert(key, value)[k] by {
            let j = choose|j: int| 0 <= j < new_m.entries@.len() && new_m.entries@[j].0@ == k;
            if j != i {
                assert(new_m.entries@[j] == old_m.entries@[j]);
                assert(old_m.as_map().contains_key(old_m.entries@[j].0@));
            }
        }
    }

    /// Inserts a value under a key. A present key keeps its position and has its
    /// value replaced; the old value is returned. A new key is appended.
    pub fn insert(&mut self, key: String, value: V) -> (old_v: Option<V>)
        ensures
            final(self)@ == old(self)@.insert(key@, value),
            old_v is None <==> !old(self)@.contains_key(key@),
            old_v matches Some(v) ==> v == old(self)@[key@],
            old_v is None ==> final(self).key_seq() == old(self).key_seq().push(key@),
            old_v is Some ==> final(self).key_seq() == old(self).key_seq(),
    {
        proof {
            use_type_invariant(&*self);
            self.lemma_entries();
        }
        let ghost old_map = self.as_map();
        let ghost old_entries = self.entries@;
        let pos = self.position(key.as_str());
        let mut entries: Vec<(String, V)> = Vec::new();
        std::mem::swap(&mut entries, &mut self.entries);
        match pos {
            Some(i) => {
                let (k, old_value) = entries.remove(i);
                entries.insert(i, (k, value));
                let ghost new_entries = entries@;
                assert(new_entries == old_entries.update(i as int, (new_entries[i as int].0, value)));
                assert(Self::unique_keys(new_entries)) by {
                    assert forall|a: int, b: int|
                        0 <= a < new_entries.len() && 0 <= b < new_entries.len() && a != b implies #[trigger] new_entries[a].0@
                        != #[trigger] new_entries[b].0@ by {
                        assert(old_entries[a].0@ != old_entries[b].0@);
                    }
                }
                self.entries = entries;
                proof {
                    Self::lemma_update_at(*old(self), *self, i as int, value);
                    assert(self.key_seq() =~= old(self).key_seq());
                }
                Some(old_value)
            },
            None => {
                entries.push((key, value));
                let ghost new_entries = entries@;
                assert(Self::unique_keys(new_entries)) by {
                    assert forall|a: int, b: int|
                        0 <= a < new_entries.len() && 0 <= b < new_entries.len() && a != b implies #[trigger] new_entries[a].0@
                        != #[trigger] new_entries[b].0@ by {
                        if a < old_entries.len() && b < old_entries.len() {
                            assert(old_entries[a].0@ != old_entries[b].0@);
                        } else if a < old_entries.len() {
                            assert(old_map.contains_key(old_entries[a].0@));
                        } else {
                            assert(old_map.contains_key(old_entries[b].0@));
                        }
                    }
                }
                self.entries = entries;
                proof {
                    Self::lemma_push(*old(self), *self, key@, value);
                    assert(self.key_seq() =~= old(self).key_seq().push(key@));
                }
                None
            },
        }
    }

    /// Placing a new key at position `p` of the entries gives the old map
    /// with that key added.
    proof fn lemma_insert_at(old_m: Self, new_m: Self, p: int, key: Seq<char>, value: V)
        requires
            old_m.inv(),
            new_m.inv(),
            !old_m.as_map().contains_key(key),
            0 <= p <= old_m.entries@.len(),
            new_m.entries@.len() == old_m.entries@.len() + 1,
            new_m.entries@[p].0@ == key,
            new_m.entries@[p].1 == value,
            forall|j: int| 0 <= j < p ==> #[trigger] new_m.entries@[j] == old_m.entries@[j],
            forall|j: int| p < j < new_m.entries@.len() ==> #[trigger] new_m.entries@[j] == old_m.entries@[j - 1],
        ensures
            new_m.as_map() =~= old_m.as_map().insert(key, value),
    {
        old_m.lemma_entries();
        new_m.lemma_entries();
        assert forall|k: Seq<char>| #[trigger] new_m.as_map().contains_key(k) <==> old_m.as_map().insert(key, value).contains_key(k) by {
            if k != key && old_m.as_map().contains_key(k) {
                let j = choose|j: int| 0 <= j < old_m.entries@.len() && old_m.entries@[j].0@ == k;
                let nj = if j < p { j } else { j + 1 };
                assert(new_m.entries@[nj] == old_m.entries@[j]);
                assert(new_m.as_map().contains_key(new_m.entries@[nj].0@));
            }
            if k == key {
                assert(new_m.as_map().contains_key(new_m.entries@[p].0@));
            }
            if new_m.as_map().contains_key(k) {
                let j = choose|j: int| 0 <= j < new_m.entries@.len() && new_m.entries@[j].0@ == k;
                if j != p {
                    let oj = if j < p { j } else { j - 1 };
                    assert(new_m.entries@[j] == old_m.entries@[oj]);
                    assert(old_m.as_map().contains_key(old_m.entries@[oj].0@));
                }
            }
        }
        assert forall|k: Seq<char>| #[trigger] new_m.as_map().contains_key(k) implies new_m.as_map()[k] == old_m.as_map().insert(key, value)[k] by {
            let j = choose|j: int| 0 <= j < new_m.entries@.len() && new_m.entries@[j].0@ == k;
            if j != p {
                let oj = if j < p { j } else { j - 1 };
                assert(new_m.entries@[j] == old_m.entries@[oj]);
                assert(old_m.as_map().contains_key(old_m.entries@[oj].0@));
            }
        }
    }

    /// Inserts a value under a key, as a map sorted by its keys does: a
    /// present key keeps its position and has its value replaced (the old
    /// value is returned); a new key goes before the first key that comes
    /// after it, so that sorted entries stay sorted.
    pub fn insert_sorted(&mut self, key: String, value: V) -> (old_v: Option<V>)
        ensures
            final(self)@ == old(self)@.insert(key@, value),
            old_v is None <==> !old(self)@.contains_key(key@),
            old_v matches Some(v) ==> v == old(self)@[key@],
            old_v is Some ==> final(self).key_seq() == old(self).key_seq(),
            old(self).keys_sorted() ==> final(self).keys_sorted(),
    {
        if self.contains_key(key.as_str()) {
            let r = self.insert(key, value);
            proof {
                assert(r is Some);
                assert(self.key_seq() == old(self).key_seq());
                assert(self.spec_len() == old(self).spec_len()) by {
                    assert(self.key_seq().len() == old(self).key_seq().len());
                }
                if old(self).keys_sorted() {
                    assert forall|a: int, b: int| 0 <= a < b < self.spec_len() implies text_less(
                        #[trigger] self.spec_key(a),
                        #[trigger] self.spec_key(b),
                    ) by {
                        assert(self.key_seq()[a] == old(self).key_seq()[a]);
                        assert(self.key_seq()[b] == old(self).key_seq()[b]);
                        assert(text_less(old(self).spec_key(a), old(self).spec_key(b)));
                    }
                }
            }
            return r;
        }
        proof {
            use_type_invariant(&*self);
            self.lemma_entries();
        }
        let ghost old_entries = self.entries@;
        let n = self.entries.len();
        let mut p: usize = 0;
        while p < n
            invariant
                n == self.entries@.len(),
                self.entries@ == old_entries,
                p <= n,
                forall|q: int| 0 <= q < p ==> !text_less(key@, #[trigger] old_entries[q].0@),
            ensures
                p <= n,
                p < n ==> text_less(key@, old_entries[p as int].0@),
                forall|q: int| 0 <= q < p ==> !text_less(key@, #[trigger] old_entries[q].0@),
            decreases n - p,
        {
            if text_less_exec(key.as_str(), self.entries[p].0.as_str()) {
                break;
            }
            p = p + 1;
        }
        let mut entries: Vec<(String, V)> = Vec::new();
        std::mem::swap(&mut entries, &mut self.entries);
        entries.insert(p, (key, value));
        let ghost new_entries = entries@;
        assert(new_entries == old_entries.insert(p as int, new_entries[p as int]));
        assert(Self::unique_keys(new_entries)) by {
            assert forall|a: int, b: int|
                0 <= a < new_entries.len() && 0 <= b < new_entries.len() && a != b implies #[trigger] new_entries[a].0@
                != #[trigger] new_entries[b].0@ by {
                if a != p && b != p {
                    let oa = if a < p { a } else { a - 1 };
                    let ob = if b < p { b } else { b - 1 };
                    assert(new_entries[a] == old_entries[oa]);
                    assert(new_entries[b] == old_entries[ob]);
                    assert(old_entries[oa].0@ != old_entries[ob].0@);
                } else if a == p {
                    let ob = if b < p { b } else { b - 1 };
                    assert(new_entries[b] == old_entries[ob]);
                    assert(old(self)@.contains_key(old_entries[ob].0@));
                } else {
                    let oa = if a < p { a } else { a - 1 };
                    assert(new_entries[a] == old_entries[oa]);
                    assert(old(self)@.contains_key(old_entries[oa].0@));
                }
            }
        }
        self.entries = entries;
        proof {
            Self::lemma_insert_at(*old(self), *self, p as int, new_entries[p as int].0@, new_entries[p as int].1);
            if old(self).keys_sorted() {
                assert forall|q: int| 0 <= q < p implies text_less(#[trigger] old(self).spec_key(q), key@) by {
                    assert(old(self)@.contains_key(old_entries[q].0@));
                    lemma_text_less_total(old_entries[q].0@, key@);
                }
                assert forall|a: int, b: int| 0 <= a < b < self.spec_len() implies text_less(
                    #[trigger] self.spec_key(a),
                    #[trigger] self.spec_key(b),
                ) by {
                    if b < p {
                        assert(new_entries[a] == old_entries[a] && new_entries[b] == old_entries[b]);
                        assert(text_less(old(self).spec_key(a), old(self).spec_key(b)));
                    } else if b == p {
                        assert(new_entries[a] == old_entries[a]);
                        assert(text_less(old(self).spec_key(a), key@));
                    } else if a < p {
                        assert(new_entries[a] == old_entries[a] && new_entries[b] == old_entries[b - 1]);
                        assert(text_less(old(self).spec_key(a), key@));
                        assert(text_less(key@, old(self).spec_key(p as int)));
                        if b - 1 > p {
                            assert(text_less(old(self).spec_key(p as int), old(self).spec_key(b - 1)));
                            lemma_text_less_transitive(key@, old(self).spec_key(p as int), old(self).spec_key(b - 1));
                        }
                        lemma_text_less_transitive(old(self).spec_key(a), key@, old(self).spec_key(b - 1));
                    } else if a == p {
                        assert(new_entries[b] == old_entries[b - 1]);
                        assert(text_less(key@, old(self).spec_key(p as int)));
                        if b - 1 > p {
                            assert(text_less(old(self).spec_key(p as int), old(self).spec_key(b - 1)));
                            lemma_text_less_transitive(key@, old(self).spec_key(p as int), old(self).spec_key(b - 1));
                        }
                    } else {
                        assert(new_entries[a] == old_entries[a - 1] && new_entries[b] == old_entries[b - 1]);
                        assert(text_less(old(self).spec_key(a - 1), old(self).spec_key(b - 1)));
                    }
                }
            }
        }
        None
    }

    /// Removes a key, returning its value if it was present. The other entries
    /// keep their order.
    pub fn remove(&mut self, key: &str) -> (old_v: Option<V>)
        ensures
            final(self)@ == old(self)@.remove(key@),
            old_v is None <==> !old(self)@.contains_key(key@),
            old_v matches Some(v) ==> v == old(self)@[key@],
            old_v is None ==> final(self).key_seq() == old(self).key_seq(),
            old(self).keys_sorted() ==> final(self).keys_sorted(),
    {
        proof {
            use_type_invariant(&*self);
            self.lemma_entries();
        }
        let ghost old_map = self.as_map();
        let ghost old_entries = self.entries@;
        let pos = self.position(key);
        match pos {
            Some(i) => {
                let mut entries: Vec<(String, V)> = Vec::new();
                std::mem::swap(&mut entries, &mut self.entries);
                let (_k, old_value) = entries.remove(i);
                let ghost new_entries = entries@;
                assert(new_entries == old_entries.remove(i as int));
                assert(Self::unique_keys(new_entries)) by {
                    assert forall|a: int, b: int|
                        0 <= a < new_entries.len() && 0 <= b < new_entries.len() && a != b implies #[trigger] new_entries[a].0@
                        != #[trigger] new_entries[b].0@ by {
                        let oa = if a < i { a } else { a + 1 };
                        let ob = if b < i { b } else { b + 1 };
                        assert(new_entries[a] == old_entries[oa]);
                        assert(new_entries[b] == old_entries[ob]);
                        assert(old_entries[oa].0@ != old_entries[ob].0@);
                    }
                }
                self.entries = entries;
                proof {
                    self.lemma_entries();
                    assert forall|k: Seq<char>| #[trigger] self.as_map().contains_key(k) == old_map.remove(key@).contains_key(k) by {
                        if old_map.remove(key@).contains_key(k) {
                            let j = choose|j: int| 0 <= j < old_entries.len() && old_entries[j].0@ == k;
                            assert(j != i);
                            let nj = if j < i { j } else { j - 1 };
                            assert(new_entries[nj] == old_entries[j]);
                        }
                        if self.as_map().contains_key(k) {
                            let j = choose|j: int| 0 <= j < new_entries.len() && new_entries[j].0@ == k;
                            let oj = if j < i { j } else { j + 1 };
                            assert(new_entries[j] == old_entries[oj]);
                            assert(oj != i);
                        }
                    }
                    assert forall|k: Seq<char>| #[trigger] self.as_map().contains_key(k) implies self.as_map()[k] == old_map[k] by {
                        let j = choose|j: int| 0 <= j < new_entries.len() && new_entries[j].0@ == k;
                        let oj = if j < i { j } else { j + 1 };
                        assert(new_entries[j] == old_entries[oj]);
                    }
                    assert(self.as_map() =~= old_map.remove(key@));
                    if old(self).keys_sorted() {
                        assert forall|a: int, b: int| 0 <= a < b < self.spec_len() implies text_less(
                            #[trigger] self.spec_key(a),
                            #[trigger] self.spec_key(b),
                        ) by {
                            let oa = if a < i { a } else { a + 1 };
                            let ob = if b < i { b } else { b + 1 };
                            assert(new_entries[a] == old_entries[oa]);
                            assert(new_entries[b] == old_entries[ob]);
                            assert(text_less(old(self).spec_key(oa), old(self).spec_key(ob)));
                        }
                    }
                }
                Some(old_value)
            },
            None => {
                proof {
                    assert(old_map.remove(key@) =~= old_map);
                }
                None
            },
        }
    }

    /// Removes every entry, returning them in the order of the entries.
    pub fn drain(&mut self) -> (drained: Vec<(String, V)>)
        ensures
            final(self)@ == Map::<Seq<char>, V>::empty(),
            final(self).spec_len() == 0,
            drained@.len() == old(self).spec_len(),
            forall|i: int|
                0 <= i < drained@.len() ==> #[trigger] drained@[i].0@ == old(self).spec_key(i)
                    && drained@[i].1 == old(self).spec_value(i),
    {
        let mut entries: Vec<(String, V)> = Vec::new();
        std::mem::swap(&mut entries, &mut self.entries);
        proof {
            assert(self.as_map() =~= Map::<Seq<char>, V>::empty());
        }
        entries
    }

    /// The positions `order` list entries in ascending order of their keys.
    pub open spec fn sorted_by_key(self, order: Seq<usize>) -> bool {
        forall|i: int, j: int|
            #![trigger order[i], order[j]]
            0 <= i < j < order.len() ==> text_less(self.spec_key(order[i] as int), self.spec_key(order[j] as int))
    }

    /// The positions of all entries, ordered by key, smallest first: the
    /// order in which a map sorted by its keys walks them.
    pub fn sorted_order(&self) -> (order: Vec<usize>)
        ensures
            order@.len() == self.spec_len(),
            forall|i: int| 0 <= i < order@.len() ==> #[trigger] order@[i] < self.spec_len(),
            forall|x: usize| x < self.spec_len() ==> #[trigger] order@.contains(x),
            self.sorted_by_key(order@),
    {
        proof {
            use_type_invariant(self);
        }
        let n = self.entries.len();
        let mut order: Vec<usize> = Vec::new();
        let mut k: usize = 0;
        while k < n
            invariant
                n == self.entries@.len(),
                self.inv(),
                k <= n,
                order@.len() == k,
                forall|i: int| 0 <= i < order@.len() ==> #[trigger] order@[i] < k,
                forall|x: usize| x < k ==> #[trigger] order@.contains(x),
                self.sorted_by_key(order@),
            decreases n - k,
        {
            let mut p: usize = 0;
            while p < order.len()
                invariant
                    n == self.entries@.len(),
                    self.inv(),
                    k < n,
                    order@.len() == k,
                    p <= order@.len(),
                    forall|i: int| 0 <= i < order@.len() ==> #[trigger] order@[i] < k,
                    forall|q: int| 0 <= q < p ==> !text_less(self.spec_key(k as int), #[trigger] self.spec_key(order@[q] as int)),
                ensures
                    p <= order@.len(),
                    forall|q: int| 0 <= q < p ==> !text_less(self.spec_key(k as int), #[trigger] self.spec_key(order@[q] as int)),
                    p < order@.len() ==> text_less(self.spec_key(k as int), self.spec_key(order@[p as int] as int)),
                decreases order@.len() - p,
            {
                let at = order[p];
                if text_less_exec(self.entries[k].0.as_str(), self.entries[at].0.as_str()) {
                    break;
                }
                p = p + 1;
            }
            let ghost before = order@;
            proof {
                assert forall|q: int| p <= q < before.len() implies text_less(self.spec_key(k as int), #[trigger] self.spec_key(before[q] as int)) by {
                    assert(text_less(self.spec_key(k as int), self.spec_key(before[p as int] as int)));
                    if q > p {
                        assert(text_less(self.spec_key(before[p as int] as int), self.spec_key(before[q] as int)));
                        lemma_text_less_transitive(self.spec_key(k as int), self.spec_key(before[p as int] as int), self.spec_key(before[q] as int));
                    }
                }
                assert forall|q: int| 0 <= q < p implies text_less(#[trigger] self.spec_key(before[q] as int), self.spec_key(k as int)) by {
                    assert(before[q] < k);
                    assert(self.entries@[before[q] as int].0@ != self.entries@[k as int].0@);
                    lemma_text_less_total(self.spec_key(before[q] as int), self.spec_key(k as int));
                }
            }
            order.insert(p, k);
            proof {
                let after = order@;
                assert(after =~= before.insert(p as int, k));
                assert forall|i: int, j: int|
                    #![trigger after[i], after[j]]
                    0 <= i < j < after.len() implies text_less(self.spec_key(after[i] as int), self.spec_key(after[j] as int)) by {
                    if j < p {
                        assert(after[i] == before[i] && after[j] == before[j]);
                    } else if j == p {
                        assert(after[i] == before[i]);
                    } else if i < p {
                        assert(after[i] == before[i] && after[j] == before[j - 1]);
                        lemma_text_less_transitive(self.spec_key(before[i] as int), self.spec_key(k as int), self.spec_key(before[j - 1] as int));
                    } else if i == p {
                        assert(after[j] == before[j - 1]);
                    } else {
                        assert(after[i] == before[i - 1] && after[j] == before[j - 1]);
                    }
                }
                assert forall|x: usize| x < k + 1 implies #[trigger] after.contains(x) by {
                    if x == k {
                        assert(after[p as int] == x);
                    } else {
                        assert(before.contains(x));
                        let i = choose|i: int| 0 <= i < before.len() && before[i] == x;
                        if i < p {
                            assert(after[i] == x);
                        } else {
                            assert(after[i + 1] == x);
                        }
                    }
                }
                assert forall|i: int| 0 <= i < after.len() implies #[trigger] after[i] < k + 1 by {
                    if i < p {
                        assert(after[i] == before[i]);
                    } else if i > p {
                        assert(after[i] == before[i - 1]);
                    }
                }
            }
            k = k + 1;
        }
        order
    }

    /// Replaces the value at position `i`, keeping its key and position.
    pub fn set_value_at(&mut self, i: usize, value: V) -> (old_v: V)
        requires
            i < old(self).spec_len(),
        ensures
            final(self)@ == old(self)@.insert(old(self).spec_key(i as int), value),
            final(self).key_seq() == old(self).key_seq(),
            final(self).spec_len() == old(self).spec_len(),
            forall|j: int| 0 <= j < old(self).spec_len() ==> final(self).spec_key(j) == old(self).spec_key(j),
            final(self).spec_value(i as int) == value,
            forall|j: int|
                0 <= j < old(self).spec_len() && j != i ==> final(self).spec_value(j)
                    == old(self).spec_value(j),
            old_v == old(self).spec_value(i as int),
            old(self).keys_sorted() ==> final(self).keys_sorted(),
    {
        proof {
            use_type_invariant(&*self);
            self.lemma_entries();
        }
        let ghost old_map = self.as_map();
        let ghost old_entries = self.entries@;
        let mut entries: Vec<(String, V)> = Vec::new();
        std::mem::swap(&mut entries, &mut self.entries);
        let (k, old_value) = entries.remove(i);
        entries.insert(i, (k, value));
        let ghost new_entries = entries@;
        assert(new_entries == old_entries.update(i as int, (new_entries[i as int].0, value)));
        assert(Self::unique_keys(new_entries)) by {
            assert forall|a: int, b: int|
                0 <= a < new_entries.len() && 0 <= b < new_entries.len() && a != b implies #[trigger] new_entries[a].0@
                != #[trigger] new_entries[b].0@ by {
                assert(old_entries[a].0@ != old_entries[b].0@);
            }
        }
        self.entries = entries;
        proof {
            Self::lemma_update_at(*old(self), *self, i as int, value);
            assert(self.key_seq() =~= old(self).key_seq());
            if old(self).keys_sorted() {
                assert forall|a: int, b: int| 0 <= a < b < self.spec_len() implies text_less(
                    #[trigger] self.spec_key(a),
                    #[trigger] self.spec_key(b),
                ) by {
                    assert(new_entries[a].0 == old_entries[a].0);
                    assert(new_entries[b].0 == old_entries[b].0);
                    assert(text_less(old(self).spec_key(a), old(self).spec_key(b)));
                }
            }
        }
        old_value
    }
}

/// Compares two maps entry by entry, where `eq` decides whether two values
/// are equal under the abstraction `f`.
#[verifier::spinoff_prover]
pub fn map_eq_by<V, W, F: Fn(&V, &V) -> bool>(
    a: &StringMap<V>,
    b: &StringMap<V>,
    eq: F,
    Ghost(f): Ghost<spec_fn(V) -> W>,
) -> (r: bool)
    requires
        forall|x: &V, y: &V| #[trigger] eq.requires((x, y)),
        forall|x: &V, y: &V, r: bool| #[trigger] eq.ensures((x, y), r) ==> r == (f(*x) == f(*y)),
    ensures
        r == (a@.map_values(f) == b@.map_values(f)),
{
    a.entries_agree();
    b.entries_agree();
    let n = a.len();
    let mut i: usize = 0;
    while i < n
        invariant
            n == a.spec_len(),
            i <= n,
            forall|x: &V, y: &V| #[trigger] eq.requires((x, y)),
            forall|x: &V, y: &V, r: bool| #[trigger] eq.ensures((x, y), r) ==> r == (f(*x) == f(*y)),
            forall|j: int| 0 <= j < i ==> #[trigger] b@.contains_key(a.spec_key(j)) && f(b@[a.spec_key(j)]) == f(a.spec_value(j)),
            forall|j: int|
                0 <= j < a.spec_len() ==> #[trigger] a@.contains_key(a.spec_key(j))
                    && a@[a.spec_key(j)] == a.spec_value(j),
        decreases n - i,
    {
        let k = a.key_at(i);
        match b.get(k.as_str()) {
            None => {
                proof {
                    assert(a@.map_values(f).contains_key(k@));
                    assert(!b@.map_values(f).contains_key(k@));
                }
                return false;
            },
            Some(bv) => {
                let av = a.value_at(i);
                let same = eq(av, bv);
                if !same {
                    proof {
                        assert(a@.map_values(f)[k@] != b@.map_values(f)[k@]);
                    }
                    return false;
                }
                proof {
                    assert(k@ == a.spec_key(i as int));
                    assert(*av == a.spec_value(i as int));
                    assert(b@.contains_key(a.spec_key(i as int)));
                    assert(f(b@[a.spec_key(i as int)]) == f(a.spec_value(i as int)));
                }
            },
        }
        proof {
            assert forall|j: int| 0 <= j < i + 1 implies #[trigger] b@.contains_key(a.spec_key(j)) && f(
                b@[a.spec_key(j)],
            ) == f(a.spec_value(j)) by {
                if j == i {
                    assert(b@.contains_key(a.spec_key(i as int)));
                }
            }
        }
        i = i + 1;
    }
    let m = b.len();
    let mut j: usize = 0;
    while j < m
        invariant
            m == b.spec_len(),
            j <= m,
            forall|l: int| 0 <= l < j ==> #[trigger] a@.contains_key(b.spec_key(l)),
            forall|l: int|
                0 <= l < b.spec_len() ==> #[trigger] b@.contains_key(b.spec_key(l))
                    && b@[b.spec_key(l)] == b.spec_value(l),
        decreases m - j,
    {
        let k = b.key_at(j);
        if !a.contains_key(k.as_str()) {
            proof {
                assert(b@.map_values(f).contains_key(k@));
                assert(!a@.map_values(f).contains_key(k@));
            }
            return false;
        }
        j = j + 1;
    }
    proof {
        assert forall|k: Seq<char>| #[trigger] a@.map_values(f).contains_key(k) <==> b@.map_values(f).contains_key(k) by {
            if a@.contains_key(k) {
                let l = choose|l: int| 0 <= l < a.spec_len() && a.spec_key(l) == k;
                assert(b@.contains_key(a.spec_key(l)));
            }
            if b@.contains_key(k) {
                let l = choose|l: int| 0 <= l < b.spec_len() && b.spec_key(l) == k;
                assert(a@.contains_key(b.spec_key(l)));
            }
        }
        assert forall|k: Seq<char>| #[trigger] a@.map_values(f).contains_key(k) implies a@.map_values(f)[k] == b@.map_values(f)[k] by {
            let l = choose|l: int| 0 <= l < a.spec_len() && a.spec_key(l) == k;
            assert(b@.contains_key(a.spec_key(l)));
        }
        assert(a@.map_values(f) =~= b@.map_values(f));
    }
    true
}

impl<V> View for StringMap<V> {
    type V = Map<Seq<char>, V>;

    open spec fn view(&self) -> Map<Seq<char>, V> {
        self.as_map()
    }
}

} // verus!

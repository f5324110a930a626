//! A map keyed by text that keeps its entries in the order of their keys.

use vstd::prelude::*;
use vstd::string::*;
use vstd::utf8::encode_utf8;

verus! {

/// Lexicographic order on byte strings.
pub open spec fn bytes_precede(a: Seq<u8>, b: Seq<u8>) -> bool
    decreases a.len(),
{
    b.len() > 0 && (a.len() == 0 || a[0] < b[0] || (a[0] == b[0] && bytes_precede(
        a.drop_first(),
        b.drop_first(),
    )))
}

/// The order of texts: lexicographic on their UTF-8 bytes.
pub open spec fn precedes(a: Seq<char>, b: Seq<char>) -> bool {
    bytes_precede(encode_utf8(a), encode_utf8(b))
}

proof fn lemma_bytes_irreflexive(a: Seq<u8>)
    ensures
        !bytes_precede(a, a),
    decreases a.len(),
{
    if a.len() > 0 {
        lemma_bytes_irreflexive(a.drop_first());
    }
}

proof fn lemma_bytes_transitive(a: Seq<u8>, b: Seq<u8>, c: Seq<u8>)
    requires
        bytes_precede(a, b),
        bytes_precede(b, c),
    ensures
        bytes_precede(a, c),
    decreases a.len(),
{
    if a.len() > 0 && a[0] == b[0] && b[0] == c[0] {
        lemma_bytes_transitive(a.drop_first(), b.drop_first(), c.drop_first());
    }
}

proof fn lemma_bytes_total(a: Seq<u8>, b: Seq<u8>)
    ensures
        a == b || bytes_precede(a, b) || bytes_precede(b, a),
    decreases a.len(),
{
    if a.len() > 0 && b.len() > 0 && a[0] == b[0] {
        lemma_bytes_total(a.drop_first(), b.drop_first());
        if a.drop_first() == b.drop_first() {
            assert(a =~= seq![a[0]] + a.drop_first());
            assert(b =~= seq![b[0]] + b.drop_first());
        }
    } else if a.len() == 0 && b.len() == 0 {
        assert(a =~= b);
    }
}

/// No text precedes itself.
pub proof fn precedes_is_irreflexive(a: Seq<char>)
    ensures
        !precedes(a, a),
{
    lemma_bytes_irreflexive(encode_utf8(a));
}

/// The order of texts is transitive.
pub proof fn precedes_is_transitive(a: Seq<char>, b: Seq<char>, c: Seq<char>)
    requires
        precedes(a, b),
        precedes(b, c),
    ensures
        precedes(a, c),
{
    lemma_bytes_transitive(encode_utf8(a), encode_utf8(b), encode_utf8(c));
}

/// Of two different texts one precedes the other.
pub proof fn precedes_is_total(a: Seq<char>, b: Seq<char>)
    ensures
        a == b || precedes(a, b) || precedes(b, a),
{
    lemma_bytes_total(encode_utf8(a), encode_utf8(b));
    vstd::utf8::encode_utf8_decode_utf8(a);
    vstd::utf8::encode_utf8_decode_utf8(b);
}

/// How one text stands to another.
#[derive(Debug, Clone, Copy, PartialEq, Eq, Structural)]
pub enum Placement {
    Before,
    Same,
    After,
}

proof fn lemma_common_prefix(a: Seq<u8>, b: Seq<u8>, n: int)
    requires
        0 <= n <= a.len(),
        n <= b.len(),
        forall|i: int| 0 <= i < n ==> a[i] == b[i],
    ensures
        bytes_precede(a, b) == bytes_precede(a.skip(n), b.skip(n)),
    decreases n,
{
    if n == 0 {
        assert(a.skip(0) =~= a);
        assert(b.skip(0) =~= b);
    } else {
        lemma_common_prefix(a.drop_first(), b.drop_first(), n - 1);
        assert(a.drop_first().skip(n - 1) =~= a.skip(n));
        assert(b.drop_first().skip(n - 1) =~= b.skip(n));
    }
}

/// Places `a` against `b` in the order of texts.
pub fn place(a: &str, b: &str) -> (r: Placement)
    ensures
        r == Placement::Before <==> precedes(a@, b@),
        r == Placement::Same <==> a@ == b@,
        r == Placement::After <==> precedes(b@, a@),
{
    let x = a.as_bytes();
    let y = b.as_bytes();
    proof {
        vstd::utf8::encode_utf8_decode_utf8(a@);
        vstd::utf8::encode_utf8_decode_utf8(b@);
        lemma_bytes_irreflexive(x@);
        if precedes(a@, b@) && precedes(b@, a@) {
            precedes_is_transitive(a@, b@, a@);
        }
    }
    let mut i: usize = 0;
    while i < x.len() && i < y.len()
        invariant
            i <= x@.len(),
            i <= y@.len(),
            x@ == encode_utf8(a@),
            y@ == encode_utf8(b@),
            precedes(a@, b@) ==> !precedes(b@, a@),
            forall|k: int| 0 <= k < i ==> x@[k] == y@[k],
        decreases x@.len() - i,
    {
        proof {
            lemma_common_prefix(x@, y@, i as int);
            lemma_common_prefix(y@, x@, i as int);
        }
        if x[i] < y[i] {
            return Placement::Before;
        }
        if y[i] < x[i] {
            return Placement::After;
        }
        i += 1;
    }
    proof {
        lemma_common_prefix(x@, y@, i as int);
        lemma_common_prefix(y@, x@, i as int);
    }
    if i < y.len() {
        Placement::Before
    } else if i < x.len() {
        Placement::After
    } else {
        assert(x@ =~= y@);
        Placement::Same
    }
}

/// A map from text to `V`. The entries stand in the order of their keys, so
/// whoever walks them by index meets the keys in that order.
#[derive(Debug)]
pub struct TextMap<V> {
    pub entries: Vec<(String, V)>,
}

impl<V: Copy> TextMap<V> {
    /// The key of the entry at `i`.
    pub open spec fn key(self, i: int) -> Seq<char> {
        self.entries@[i].0@
    }

    /// The entries stand in strictly ascending order of their keys.
    pub open spec fn wf(self) -> bool {
        forall|i: int, j: int|
            0 <= i < j < self.entries@.len() ==> #[trigger] precedes(self.key(i), self.key(j))
    }

    /// Whether some entry has the key `k`.
    pub open spec fn has(self, k: Seq<char>) -> bool {
        exists|i: int| 0 <= i < self.entries@.len() && #[trigger] self.key(i) == k
    }

    /// Where the entry with the key `k` stands.
    pub open spec fn place_of(self, k: Seq<char>) -> int {
        choose|i: int| 0 <= i < self.entries@.len() && #[trigger] self.key(i) == k
    }

    /// The entries as a map.
    pub open spec fn view(&self) -> Map<Seq<char>, V> {
        Map::new(|k: Seq<char>| self.has(k), |k: Seq<char>| self.entries@[self.place_of(k)].1)
    }

    /// Different entries have different keys.
    proof fn lemma_distinct(self, i: int, j: int)
        requires
            self.wf(),
            0 <= i < self.entries@.len(),
            0 <= j < self.entries@.len(),
            self.key(i) == self.key(j),
        ensures
            i == j,
    {
        precedes_is_irreflexive(self.key(i));
        if i < j {
            assert(precedes(self.key(i), self.key(j)));
        } else if j < i {
            assert(precedes(self.key(j), self.key(i)));
        }
    }

    /// The map holds each entry's value under its key.
    pub proof fn lemma_entry(self, i: int)
        requires
            self.wf(),
            0 <= i < self.entries@.len(),
        ensures
            self@.contains_key(self.key(i)),
            self@[self.key(i)] == self.entries@[i].1,
    {
        let k = self.key(i);
        assert(self.has(k));
        self.lemma_distinct(i, self.place_of(k));
    }

    /// A map holds as many keys as it has entries.
    pub proof fn lemma_size(self)
        requires
            self.wf(),
        ensures
            self@.dom().finite(),
            self@.dom().len() == self.entries@.len(),
    {
        let keys = Seq::new(self.entries@.len(), |i: int| self.key(i));
        assert forall|i: int, j: int|
            0 <= i < keys.len() && 0 <= j < keys.len() && i != j implies keys[i] != keys[j] by {
            if keys[i] == keys[j] {
                self.lemma_distinct(i, j);
            }
        }
        keys.unique_seq_to_set();
        assert forall|k: Seq<char>| self@.dom().contains(k) == #[trigger] keys.to_set().contains(k) by {
            if self.has(k) {
                assert(keys[self.place_of(k)] == k);
            }
            if keys.contains(k) {
                let i = keys.index_of(k);
                assert(self.key(i) == k);
            }
        }
        assert(self@.dom() =~= keys.to_set());
    }

    /// The map without entries.
    pub fn new() -> (r: Self)
        ensures
            r.wf(),
            r@ == Map::<Seq<char>, V>::empty(),
    {
        let r = TextMap { entries: Vec::new() };
        assert(r@ =~= Map::<Seq<char>, V>::empty());
        r
    }

    /// The number of entries whose keys precede `key`, and whether the entry
    /// after them has the key itself.
    fn find(&self, key: &str) -> (r: (usize, bool))
        requires
            self.wf(),
        ensures
            r.0 <= self.entries@.len(),
            forall|i: int| 0 <= i < r.0 ==> #[trigger] precedes(self.key(i), key@),
            r.1 ==> r.0 < self.entries@.len() && self.key(r.0 as int) == key@,
            !r.1 ==> forall|i: int|
                r.0 <= i < self.entries@.len() ==> #[trigger] precedes(key@, self.key(i)),
    {
        let mut i: usize = 0;
        while i < self.entries.len()
            invariant
                self.wf(),
                i <= self.entries@.len(),
                forall|j: int| 0 <= j < i ==> #[trigger] precedes(self.key(j), key@),
            decreases self.entries@.len() - i,
        {
            match place(self.entries[i].0.as_str(), key) {
                Placement::Before => {},
                Placement::Same => {
                    return (i, true);
                },
                Placement::After => {
                    proof {
                        assert forall|j: int| i <= j < self.entries@.len() implies #[trigger] precedes(
                            key@,
                            self.key(j),
                        ) by {
                            assert(precedes(key@, self.key(i as int)));
                            if i < j {
                                assert(precedes(self.key(i as int), self.key(j)));
                                precedes_is_transitive(key@, self.key(i as int), self.key(j));
                            }
                        }
                    }
                    return (i, false);
                },
            }
            i += 1;
        }
        (i, false)
    }

    /// The value under `key`.
    pub fn get(&self, key: &str) -> (r: Option<V>)
        requires
            self.wf(),
        ensures
            r == if self@.contains_key(key@) {
                Some(self@[key@])
            } else {
                None
            },
    {
        let (i, found) = self.find(key);
        if found {
            proof {
                self.lemma_entry(i as int);
            }
            Some(self.entries[i].1)
        } else {
            proof {
                assert forall|j: int| 0 <= j < self.entries@.len() implies self.key(j) != key@ by {
                    precedes_is_irreflexive(key@);
                    assert(precedes(self.key(j), key@) || precedes(key@, self.key(j)));
                }
            }
            None
        }
    }

    /// Puts `value` under `key`, in place of what stood there.
    pub fn insert(&mut self, key: String, value: V)
        requires
            old(self).wf(),
        ensures
            final(self).wf(),
            final(self)@ == old(self)@.insert(key@, value),
    {
        let (i, found) = self.find(key.as_str());
        let ghost before = *self;
        let ghost k = key@;
        if found {
            self.entries[i] = (key, value);
            proof {
                assert forall|a: int, b: int| 0 <= a < b < self.entries@.len() implies #[trigger] precedes(
                    self.key(a),
                    self.key(b),
                ) by {
                    assert(precedes(before.key(a), before.key(b)));
                }
            }
        } else {
            self.entries.insert(i, (key, value));
            proof {
                assert(self.entries@ == before.entries@.insert(i as int, (key, value)));
                assert forall|a: int, b: int| 0 <= a < b < self.entries@.len() implies #[trigger] precedes(
                    self.key(a),
                    self.key(b),
                ) by {
                    let pa = if a < i { a } else { a - 1 };
                    let pb = if b < i { b } else { b - 1 };
                    if a == i {
                        assert(precedes(k, before.key(pb)));
                    } else if b == i {
                        assert(precedes(before.key(pa), k));
                    } else {
                        assert(precedes(before.key(pa), before.key(pb)));
                    }
                }
            }
        }
        proof {
            let after = *self;
            assert(after.key(i as int) == k);
            after.lemma_entry(i as int);
            assert forall|q: Seq<char>| q != k implies after.has(q) == before.has(q) && (after.has(q)
                ==> after@[q] == before@[q]) by {
                if before.has(q) {
                    let j = before.place_of(q);
                    let n = if found || j < i { j } else { j + 1 };
                    assert(after.key(n) == q);
                    after.lemma_entry(n);
                    before.lemma_entry(j);
                }
                if after.has(q) {
                    let n = after.place_of(q);
                    let j = if found || n < i { n } else { n - 1 };
                    assert(before.key(j) == q);
                }
            }
            assert(after@ =~= before@.insert(k, value));
        }
    }

    /// Takes the entry at `i` out.
    pub fn remove_at(&mut self, i: usize)
        requires
            old(self).wf(),
            i < old(self).entries@.len(),
        ensures
            final(self).wf(),
            final(self)@ == old(self)@.remove(old(self).key(i as int)),
    {
        let ghost before = *self;
        self.entries.remove(i);
        proof {
            let after = *self;
            let k = before.key(i as int);
            assert(after.entries@ == before.entries@.remove(i as int));
            assert forall|a: int, b: int| 0 <= a < b < after.entries@.len() implies #[trigger] precedes(
                after.key(a),
                after.key(b),
            ) by {
                let pa = if a < i { a } else { a + 1 };
                let pb = if b < i { b } else { b + 1 };
                assert(precedes(before.key(pa), before.key(pb)));
            }
            assert forall|q: Seq<char>| after.has(q) == (before.has(q) && q != k) && (after.has(q)
                ==> after@[q] == before@[q]) by {
                if before.has(q) && q != k {
                    let j = before.place_of(q);
                    let n = if j < i { j } else { j - 1 };
                    assert(after.key(n) == q);
                    after.lemma_entry(n);
                    before.lemma_entry(j);
                }
                if after.has(q) {
                    let n = after.place_of(q);
                    let j = if n < i { n } else { n + 1 };
                    assert(before.key(j) == q);
                    if q == k {
                        before.lemma_distinct(i as int, j);
                    }
                }
            }
            assert(after@ =~= before@.remove(k));
        }
    }
}

/// One text precedes another exactly where, at the first byte in which they
/// differ, its own byte is smaller or it ends there.
pub proof fn the_first_difference_decides(a: Seq<char>, b: Seq<char>, k: int)
    requires
        0 <= k <= encode_utf8(a).len(),
        k <= encode_utf8(b).len(),
        forall|i: int| 0 <= i < k ==> encode_utf8(a)[i] == encode_utf8(b)[i],
    ensures
        k < encode_utf8(a).len() && k < encode_utf8(b).len() && encode_utf8(a)[k]
            != encode_utf8(b)[k] ==> (precedes(a, b) <==> encode_utf8(a)[k] < encode_utf8(b)[k]),
        k == encode_utf8(a).len() ==> (precedes(a, b) <==> k < encode_utf8(b).len()),
        k == encode_utf8(b).len() ==> !precedes(a, b),
{
    lemma_common_prefix(encode_utf8(a), encode_utf8(b), k);
}

/// A map holds a key exactly where an entry has it, and under it the value of
/// that entry; its entries stand in the order of their keys.
pub proof fn a_map_holds_its_entries<V: Copy>(map: TextMap<V>, key: Seq<char>, i: int, j: int)
    requires
        map.wf(),
    ensures
        map@.contains_key(key) <==> exists|e: int|
            0 <= e < map.entries@.len() && (#[trigger] map.entries@[e]).0@ == key,
        0 <= i < map.entries@.len() ==> map@.contains_key(map.entries@[i].0@)
            && map@[map.entries@[i].0@] == map.entries@[i].1,
        0 <= i < j < map.entries@.len() ==> precedes(map.entries@[i].0@, map.entries@[j].0@),
{
    if exists|e: int| 0 <= e < map.entries@.len() && (#[trigger] map.entries@[e]).0@ == key {
        let e = choose|e: int| 0 <= e < map.entries@.len() && (#[trigger] map.entries@[e]).0@ == key;
        map.lemma_entry(e);
    }
    if map@.contains_key(key) {
        let e = map.place_of(key);
        assert(map.entries@[e].0@ == key);
    }
    if 0 <= i < map.entries@.len() {
        map.lemma_entry(i);
    }
    if 0 <= i < j < map.entries@.len() {
        assert(precedes(map.key(i), map.key(j)));
    }
}

} // verus!

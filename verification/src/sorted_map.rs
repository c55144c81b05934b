//! A map from names to values that keeps its entries in the order of the
//! names' bytes, so that walking it always visits them in one order.
use crate::utils::{str_bytes, text_bytes};
use vstd::prelude::*;
use vstd::slice::slice_to_vec;

verus! {

/// Whether `a` comes before `b` in the order of byte strings: at the first
/// place where they differ `a` has the lesser byte, or `a` ends there and
/// `b` goes on.
pub open spec fn bytes_less(a: Seq<u8>, b: Seq<u8>) -> bool
    decreases a.len(),
{
    if b.len() == 0 {
        false
    } else if a.len() == 0 {
        true
    } else if a[0] != b[0] {
        a[0] < b[0]
    } else {
        bytes_less(a.drop_first(), b.drop_first())
    }
}

/// Whether each name of `keys` comes before the next.
pub open spec fn strictly_sorted(keys: Seq<Seq<u8>>) -> bool {
    forall|i: int, j: int| 0 <= i < j < keys.len() ==> bytes_less(#[trigger] keys[i], #[trigger] keys[j])
}

/// No byte string comes before itself.
pub proof fn lemma_bytes_less_irreflexive(a: Seq<u8>)
    ensures
        !bytes_less(a, a),
    decreases a.len(),
{
    if a.len() > 0 {
        lemma_bytes_less_irreflexive(a.drop_first());
    }
}

/// The order of byte strings is transitive.
pub proof fn lemma_bytes_less_transitive(a: Seq<u8>, b: Seq<u8>, c: Seq<u8>)
    requires
        bytes_less(a, b),
        bytes_less(b, c),
    ensures
        bytes_less(a, c),
    decreases a.len(),
{
    if a.len() > 0 && b.len() > 0 && c.len() > 0 && a[0] == b[0] && b[0] == c[0] {
        lemma_bytes_less_transitive(a.drop_first(), b.drop_first(), c.drop_first());
    }
}

/// Of two different byte strings one comes before the other.
pub proof fn lemma_bytes_less_total(a: Seq<u8>, b: Seq<u8>)
    ensures
        bytes_less(a, b) || bytes_less(b, a) || a == b,
    decreases a.len(),
{
    if a.len() > 0 && b.len() > 0 && a[0] == b[0] {
        lemma_bytes_less_total(a.drop_first(), b.drop_first());
        if a.drop_first() == b.drop_first() {
            assert(a =~= seq![a[0]] + a.drop_first());
            assert(b =~= seq![b[0]] + b.drop_first());
        }
    } else if a.len() == 0 && b.len() == 0 {
        assert(a =~= b);
    }
}

/// Two byte strings that agree on their first `n` bytes are ordered as
/// what follows those bytes.
pub proof fn lemma_bytes_less_after_prefix(a: Seq<u8>, b: Seq<u8>, n: int)
    requires
        0 <= n <= a.len(),
        n <= b.len(),
        a.take(n) == b.take(n),
    ensures
        bytes_less(a, b) == bytes_less(a.skip(n), b.skip(n)),
    decreases n,
{
    if n == 0 {
        assert(a.skip(0) =~= a);
        assert(b.skip(0) =~= b);
    } else {
        assert(a[0] == a.take(n)[0]);
        assert(b[0] == b.take(n)[0]);
        assert(a.drop_first().take(n - 1) =~= a.take(n).drop_first());
        assert(b.drop_first().take(n - 1) =~= b.take(n).drop_first());
        lemma_bytes_less_after_prefix(a.drop_first(), b.drop_first(), n - 1);
        assert(a.drop_first().skip(n - 1) =~= a.skip(n));
        assert(b.drop_first().skip(n - 1) =~= b.skip(n));
    }
}

/// How two byte strings stand to each other.
pub enum Standing {
    Before,
    Same,
    After,
}

/// How `a` stands to `b` in the order of byte strings.
pub fn bytes_standing(a: &[u8], b: &[u8]) -> (standing: Standing)
    ensures
        standing is Before <==> bytes_less(a@, b@),
        standing is Same <==> a@ == b@,
        standing is After <==> bytes_less(b@, a@),
{
    let mut i: usize = 0;
    proof {
        lemma_bytes_less_irreflexive(a@);
        lemma_bytes_less_total(a@, b@);
        if bytes_less(a@, b@) && bytes_less(b@, a@) {
            lemma_bytes_less_transitive(a@, b@, a@);
        }
    }
    while i < a.len() && i < b.len()
        invariant
            i <= a@.len(),
            i <= b@.len(),
            a@.take(i as int) == b@.take(i as int),
        decreases a@.len() - i,
    {
        if a[i] != b[i] {
            proof {
                lemma_bytes_less_after_prefix(a@, b@, i as int);
                lemma_bytes_less_after_prefix(b@, a@, i as int);
                assert(a@.skip(i as int)[0] == a@[i as int]);
                assert(b@.skip(i as int)[0] == b@[i as int]);
                if a@ == b@ {
                    assert(a@[i as int] == b@[i as int]);
                }
            }
            if a[i] < b[i] {
                return Standing::Before;
            } else {
                return Standing::After;
            }
        }
        proof {
            assert(a@.take(i + 1) =~= a@.take(i as int).push(a@[i as int]));
            assert(b@.take(i + 1) =~= b@.take(i as int).push(b@[i as int]));
        }
        i = i + 1;
    }
    proof {
        lemma_bytes_less_after_prefix(a@, b@, i as int);
        lemma_bytes_less_after_prefix(b@, a@, i as int);
        if a@.len() == b@.len() {
            assert(a@ =~= a@.take(i as int));
            assert(b@ =~= b@.take(i as int));
        }
    }
    if a.len() < b.len() {
        Standing::Before
    } else if a.len() > b.len() {
        Standing::After
    } else {
        Standing::Same
    }
}

/// A map from names to values, its entries in the order of the names.
#[derive(Clone, Debug)]
pub struct SortedMap<V> {
    pub keys: Vec<Vec<u8>>,
    pub values: Vec<V>,
}

impl<V> SortedMap<V> {
    /// The names of the entries, in order.
    pub open spec fn key_seq(&self) -> Seq<Seq<u8>> {
        Seq::new(self.keys@.len(), |i: int| self.keys@[i]@)
    }

    /// Whether the map is one: a value for every name, the names in
    /// strictly rising order.
    pub open spec fn wf(&self) -> bool {
        &&& self.keys@.len() == self.values@.len()
        &&& strictly_sorted(self.key_seq())
    }

    /// Whether the map has an entry for `key`.
    pub open spec fn contains_key(&self, key: Seq<u8>) -> bool {
        exists|i: int| 0 <= i < self.keys@.len() && #[trigger] self.key_seq()[i] == key
    }

    /// The place of the entry for `key`.
    pub open spec fn index_of(&self, key: Seq<u8>) -> int {
        choose|i: int| 0 <= i < self.keys@.len() && #[trigger] self.key_seq()[i] == key
    }

    /// The value for `key`.
    pub open spec fn spec_get(&self, key: Seq<u8>) -> V {
        self.values@[self.index_of(key)]
    }

    /// The place that an entry for `key` takes: the number of names before
    /// it.
    pub open spec fn rank(&self, key: Seq<u8>) -> int
        decreases self.keys@.len(),
    {
        rank_in(self.key_seq(), key)
    }

    /// In a map, a name has one place only.
    pub proof fn lemma_unique(&self, i: int, j: int)
        requires
            self.wf(),
            0 <= i < self.keys@.len(),
            0 <= j < self.keys@.len(),
            self.key_seq()[i] == self.key_seq()[j],
        ensures
            i == j,
    {
        lemma_bytes_less_irreflexive(self.key_seq()[i]);
    }

    /// Whether the map is one.
    pub fn is_well_formed(&self) -> (well_formed: bool)
        ensures
            well_formed == self.wf(),
    {
        if self.keys.len() != self.values.len() {
            return false;
        }
        let mut i: usize = 1;
        while i < self.keys.len()
            invariant
                1 <= i,
                self.keys@.len() == self.values@.len(),
                i <= self.keys@.len() || self.keys@.len() == 0,
                forall|a: int, b: int|
                    0 <= a < b < i && b < self.keys@.len() ==> bytes_less(
                        #[trigger] self.key_seq()[a],
                        #[trigger] self.key_seq()[b],
                    ),
            decreases self.keys@.len() - i,
        {
            match bytes_standing(self.keys[i - 1].as_slice(), self.keys[i].as_slice()) {
                Standing::Before => {},
                _ => {
                    proof {
                        let keys = self.key_seq();
                        assert(keys[i - 1] == self.keys@[i - 1]@);
                        assert(keys[i as int] == self.keys@[i as int]@);
                        assert(!bytes_less(keys[i - 1], keys[i as int]));
                    }
                    return false;
                },
            }
            proof {
                let keys = self.key_seq();
                assert(keys[i - 1] == self.keys@[i - 1]@);
                assert(keys[i as int] == self.keys@[i as int]@);
                assert forall|a: int, b: int| 0 <= a < b < i + 1 && b < self.keys@.len() implies
                    bytes_less(#[trigger] keys[a], #[trigger] keys[b]) by {
                    if b == i && a < i - 1 {
                        lemma_bytes_less_transitive(keys[a], keys[i - 1], keys[b]);
                    }
                }
            }
            i = i + 1;
        }
        true
    }

    /// A map without entries.
    pub fn new() -> (map: SortedMap<V>)
        ensures
            map.wf(),
            map.keys@.len() == 0,
    {
        SortedMap { keys: Vec::new(), values: Vec::new() }
    }

    /// The number of entries.
    pub fn len(&self) -> (len: usize)
        ensures
            len == self.keys@.len(),
    {
        self.keys.len()
    }

    /// Whether the map has no entries.
    pub fn is_empty(&self) -> (empty: bool)
        ensures
            empty == (self.keys@.len() == 0),
    {
        self.keys.len() == 0
    }

    /// The place of the entry for `key`, if there is one.
    pub fn position(&self, key: &[u8]) -> (place: Option<usize>)
        requires
            self.wf(),
        ensures
            match place {
                Some(i) => i < self.keys@.len() && self.key_seq()[i as int] == key@
                    && self.contains_key(key@) && self.index_of(key@) == i,
                None => !self.contains_key(key@),
            },
    {
        let mut i: usize = 0;
        while i < self.keys.len()
            invariant
                self.wf(),
                i <= self.keys@.len(),
                forall|j: int| 0 <= j < i ==> #[trigger] self.key_seq()[j] != key@,
            decreases self.keys@.len() - i,
        {
            match bytes_standing(self.keys[i].as_slice(), key) {
                Standing::Same => {
                    proof {
                        assert(self.key_seq()[i as int] == key@);
                        self.lemma_unique(i as int, self.index_of(key@));
                    }
                    return Some(i);
                },
                _ => {},
            }
            i = i + 1;
        }
        None
    }

    /// The value for `key`, if the map has one.
    pub fn get(&self, key: &str) -> (value: Option<&V>)
        requires
            self.wf(),
        ensures
            match value {
                Some(v) => self.contains_key(text_bytes(key@)) && *v == self.spec_get(
                    text_bytes(key@),
                ),
                None => !self.contains_key(text_bytes(key@)),
            },
    {
        match self.position(str_bytes(key)) {
            Some(i) => Some(&self.values[i]),
            None => None,
        }
    }

    /// Puts `value` under `key`: in place of the value that the map has for
    /// `key`, or else as a new entry at the place that keeps the names in
    /// order.
    pub fn insert_bytes(&mut self, key: &[u8], value: V)
        requires
            old(self).wf(),
        ensures
            final(self).wf(),
            old(self).contains_key(key@) ==> {
                &&& final(self).key_seq() == old(self).key_seq()
                &&& final(self).values@ == old(self).values@.update(
                    old(self).index_of(key@),
                    value,
                )
            },
            !old(self).contains_key(key@) ==> {
                &&& final(self).key_seq() == old(self).key_seq().insert(
                    old(self).rank(key@),
                    key@,
                )
                &&& final(self).values@ == old(self).values@.insert(
                    old(self).rank(key@),
                    value,
                )
            },
            final(self).contains_key(key@),
            0 <= old(self).rank(key@) <= old(self).keys@.len(),
    {
        proof {
            lemma_rank_bounds(self.key_seq(), key@);
        }
        let bytes = key;
        let mut i: usize = 0;
        let mut passed: bool = false;
        while !passed && i < self.keys.len()
            invariant
                self.wf(),
                *self == *old(self),
                bytes@ == key@,
                0 <= old(self).rank(key@) <= old(self).keys@.len(),
                i <= self.keys@.len(),
                forall|j: int| 0 <= j < i ==> bytes_less(#[trigger] self.key_seq()[j], bytes@),
                passed ==> i < self.keys@.len() && bytes_less(bytes@, self.key_seq()[i as int]),
            decreases self.keys@.len() - i + if passed { 0int } else { 1int },
        {
            match bytes_standing(self.keys[i].as_slice(), bytes) {
                Standing::Before => {
                    i = i + 1;
                },
                Standing::Same => {
                    proof {
                        assert(self.key_seq()[i as int] == bytes@);
                        assert(old(self).contains_key(bytes@));
                        self.lemma_unique(i as int, self.index_of(bytes@));
                        assert(old(self).index_of(bytes@) == i);
                    }
                    let ghost before = self.key_seq();
                    self.values[i] = value;
                    proof {
                        assert(self.key_seq() =~= before);
                        assert(self.key_seq()[i as int] == bytes@);
                    }
                    return ;
                },
                Standing::After => {
                    passed = true;
                },
            }
        }
        proof {
            let keys = self.key_seq();
            assert forall|j: int| i <= j < keys.len() implies bytes_less(bytes@, #[trigger] keys[j]) by {
                if j > i {
                    lemma_bytes_less_transitive(bytes@, keys[i as int], keys[j]);
                }
            }
            assert(!self.contains_key(bytes@)) by {
                if self.contains_key(bytes@) {
                    let k = self.index_of(bytes@);
                    lemma_bytes_less_irreflexive(bytes@);
                    assert(keys[k] == bytes@);
                }
            }
            lemma_rank(keys, bytes@, i as int);
        }
        let ghost before = self.key_seq();
        self.keys.insert(i, slice_to_vec(bytes));
        self.values.insert(i, value);
        proof {
            let after = self.key_seq();
            assert(after =~= before.insert(i as int, bytes@));
            assert forall|a: int, b: int| 0 <= a < b < after.len() implies bytes_less(
                #[trigger] after[a],
                #[trigger] after[b],
            ) by {
                if a < i && b > i {
                    lemma_bytes_less_transitive(after[a], bytes@, after[b]);
                } else if a < i && b < i {
                    assert(after[a] == before[a] && after[b] == before[b]);
                } else if a > i {
                    assert(after[a] == before[a - 1] && after[b] == before[b - 1]);
                } else if a == i {
                    assert(after[b] == before[b - 1]);
                } else {
                    assert(after[a] == before[a]);
                }
            }
            assert(after[i as int] == bytes@);
        }
    }

    /// Puts `value` under the name `key`, as `insert_bytes` does under the
    /// bytes of the name.
    pub fn insert(&mut self, key: &str, value: V)
        requires
            old(self).wf(),
        ensures
            final(self).wf(),
            old(self).contains_key(text_bytes(key@)) ==> {
                &&& final(self).key_seq() == old(self).key_seq()
                &&& final(self).values@ == old(self).values@.update(
                    old(self).index_of(text_bytes(key@)),
                    value,
                )
            },
            !old(self).contains_key(text_bytes(key@)) ==> {
                &&& final(self).key_seq() == old(self).key_seq().insert(
                    old(self).rank(text_bytes(key@)),
                    text_bytes(key@),
                )
                &&& final(self).values@ == old(self).values@.insert(
                    old(self).rank(text_bytes(key@)),
                    value,
                )
            },
            final(self).contains_key(text_bytes(key@)),
            0 <= old(self).rank(text_bytes(key@)) <= old(self).keys@.len(),
    {
        self.insert_bytes(str_bytes(key), value);
    }
}

/// The number of names of `keys` that come before `key`.
pub open spec fn rank_in(keys: Seq<Seq<u8>>, key: Seq<u8>) -> int
    decreases keys.len(),
{
    if keys.len() == 0 {
        0
    } else {
        rank_in(keys.drop_last(), key) + if bytes_less(keys.last(), key) {
            1int
        } else {
            0int
        }
    }
}

/// The number of names before `key` is at most the number of names.
pub proof fn lemma_rank_bounds(keys: Seq<Seq<u8>>, key: Seq<u8>)
    ensures
        0 <= rank_in(keys, key) <= keys.len(),
    decreases keys.len(),
{
    if keys.len() > 0 {
        lemma_rank_bounds(keys.drop_last(), key);
    }
}

/// In sorted names, the names before `key` are the first `i` exactly when
/// the first `i` come before it and the rest after it.
pub proof fn lemma_rank(keys: Seq<Seq<u8>>, key: Seq<u8>, i: int)
    requires
        0 <= i <= keys.len(),
        forall|j: int| 0 <= j < i ==> bytes_less(#[trigger] keys[j], key),
        forall|j: int| i <= j < keys.len() ==> bytes_less(key, #[trigger] keys[j]),
    ensures
        rank_in(keys, key) == i,
    decreases keys.len(),
{
    if keys.len() > 0 {
        let rest = keys.drop_last();
        if i == keys.len() {
            assert(bytes_less(keys[keys.len() - 1], key));
            assert forall|j: int| 0 <= j < i - 1 implies bytes_less(#[trigger] rest[j], key) by {
                assert(rest[j] == keys[j]);
            }
            lemma_rank(rest, key, i - 1);
        } else {
            assert(bytes_less(key, keys[keys.len() - 1]));
            if bytes_less(keys.last(), key) {
                lemma_bytes_less_transitive(key, keys.last(), key);
                lemma_bytes_less_irreflexive(key);
            }
            assert forall|j: int| 0 <= j < i implies bytes_less(#[trigger] rest[j], key) by {
                assert(rest[j] == keys[j]);
            }
            assert forall|j: int| i <= j < rest.len() implies bytes_less(key, #[trigger] rest[j]) by {
                assert(rest[j] == keys[j]);
            }
            lemma_rank(rest, key, i);
        }
    }
}

} // verus!

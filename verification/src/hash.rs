//! A fixed-bucket-count hash table whose buckets are ordered chains of
//! entry nodes.
//!
//! Every key hashes to one of [`DEFAULT_MAX_SIZE`] buckets, chosen at
//! construction and never resized.  A bucket holds its entries as an
//! ordered arena: the position of an entry is the position where its
//! key was first inserted, overwriting mutates the entry's value cell
//! in place, and removal rebuilds the bucket without the removed entry
//! while keeping the order of the rest.  Collisions are resolved purely
//! by chaining, never by probing.

use vstd::prelude::*;

use crate::data_access::Da;

verus! {

/// The number of buckets a table is created with.
pub const DEFAULT_MAX_SIZE: u64 = 256;

/// The digest that hashing a string produces; it depends on the
/// string's characters alone.
pub uninterp spec fn string_digest(s: Seq<char>) -> u64;

/// Relies on `std::hash::DefaultHasher` — which std documents to be
/// built identically by every `DefaultHasher::new` call — and on
/// `String`'s `Hash` impl: together they make the digest a function of
/// the string's characters alone.
#[verifier::external_body]
fn hash_string(key: &String) -> (r: u64)
    ensures
        r == string_digest(key@),
{
    let mut hasher = std::hash::DefaultHasher::new();
    std::hash::Hash::hash(key, &mut hasher);
    std::hash::Hasher::finish(&hasher)
}

/// A key type the table can hash and compare.
///
/// A key is judged by its abstract value [`CellKey::abs`]: two keys
/// with the same abstract value are the same key, and the hash is a
/// function of the abstract value, so equal keys always land in the
/// same bucket.
pub trait CellKey: Sized {
    /// The abstract value the table is keyed by.
    type Abs;

    /// The abstract value of this key.
    spec fn abs(&self) -> Self::Abs;

    /// The stable hash of an abstract key value.
    spec fn hash_of_abs(a: Self::Abs) -> u64;

    /// Hashes the key.
    fn bucket_hash(&self) -> (r: u64)
        ensures
            r == Self::hash_of_abs(self.abs()),
    ;

    /// Compares two keys by abstract value.
    fn key_eq(&self, other: &Self) -> (r: bool)
        ensures
            r == (self.abs() == other.abs()),
    ;
}

impl CellKey for String {
    type Abs = Seq<char>;

    open spec fn abs(&self) -> Seq<char> {
        self@
    }

    open spec fn hash_of_abs(a: Seq<char>) -> u64 {
        string_digest(a)
    }

    fn bucket_hash(&self) -> (r: u64)
        ensures
            r == string_digest(self@),
    {
        hash_string(self)
    }

    fn key_eq(&self, other: &Self) -> (r: bool)
        ensures
            r == (self@ == other@),
    {
        *self == *other
    }
}

impl CellKey for u64 {
    type Abs = u64;

    open spec fn abs(&self) -> u64 {
        *self
    }

    open spec fn hash_of_abs(a: u64) -> u64 {
        a
    }

    /// An integer is its own stable hash.
    fn bucket_hash(&self) -> (r: u64)
        ensures
            r == *self,
    {
        *self
    }

    fn key_eq(&self, other: &Self) -> (r: bool)
        ensures
            r == (*self == *other),
    {
        *self == *other
    }
}

/// One node of a bucket's chain: a key and the cell holding its mapped
/// value.  The value cell is mutated in place when the key is written
/// again; snapshots handed out earlier keep the older value.
pub struct CellEntry<Key: CellKey, Value> {
    key: Key,
    value: Da<Value>,
}

impl<Key: CellKey, Value> CellEntry<Key, Value> {
    /// The abstract value of the node's key.
    pub closed spec fn abs_key(&self) -> Key::Abs {
        self.key.abs()
    }

    /// The value the node currently maps its key to.
    pub closed spec fn stored_value(&self) -> Value {
        self.value@
    }

    /// Creates a new node mapping `key` to `value`.
    pub fn new(key: Key, value: Value) -> (r: Self)
        ensures
            r.abs_key() == key.abs(),
            r.stored_value() == value,
    {
        CellEntry { key, value: Da::new(value) }
    }

    /// Probes this node: a snapshot of its value when `key` matches the
    /// node's key, nothing otherwise.
    pub fn get(&self, key: &Key) -> (r: Option<std::sync::Arc<Value>>)
        ensures
            self.abs_key() == key.abs() ==> (r matches Some(a) && *a == self.stored_value()),
            self.abs_key() != key.abs() ==> r is None,
    {
        if self.key.key_eq(key) {
            Some(self.value.get())
        } else {
            None
        }
    }

    /// Offers `entry` to this node: when the keys match, the node's
    /// value cell takes over `entry`'s value and a snapshot of the
    /// overwritten value comes back; otherwise the node is untouched.
    pub fn set(&mut self, entry: Self) -> (r: Option<std::sync::Arc<Value>>)
        ensures
            old(self).abs_key() == entry.abs_key() ==> (r matches Some(p)
                && *p == old(self).stored_value()
                && final(self).abs_key() == old(self).abs_key()
                && final(self).stored_value() == entry.stored_value()),
            old(self).abs_key() != entry.abs_key() ==> (r is None && *final(self) == *old(self)),
    {
        if self.key.key_eq(&entry.key) {
            let previous = self.value.get();
            self.value.replace(entry.value.get());
            Some(previous)
        } else {
            None
        }
    }
}

/// Whether some node of `chain` carries the abstract key `a`.
pub open spec fn chain_has_key<Key: CellKey, Value>(
    chain: Seq<CellEntry<Key, Value>>,
    a: Key::Abs,
) -> bool {
    exists|i: int| 0 <= i < chain.len() && chain[i].abs_key() == a
}

/// The position of the node of `chain` carrying the abstract key `a`.
pub open spec fn chain_index_of<Key: CellKey, Value>(
    chain: Seq<CellEntry<Key, Value>>,
    a: Key::Abs,
) -> int {
    choose|i: int| 0 <= i < chain.len() && chain[i].abs_key() == a
}

/// The value `chain` maps the abstract key `a` to.
pub open spec fn chain_value_of<Key: CellKey, Value>(
    chain: Seq<CellEntry<Key, Value>>,
    a: Key::Abs,
) -> Value {
    chain[chain_index_of(chain, a)].stored_value()
}

/// The bucket the abstract key `a` belongs to.
pub open spec fn bucket_of<Key: CellKey>(a: Key::Abs) -> int {
    (Key::hash_of_abs(a) % DEFAULT_MAX_SIZE) as int
}

/// A sound chain for bucket `b`: every node's key hashes to `b`, and
/// the keys are pairwise distinct.
pub open spec fn chain_wf<Key: CellKey, Value>(chain: Seq<CellEntry<Key, Value>>, b: int) -> bool {
    &&& forall|i: int|
        0 <= i < chain.len() ==> bucket_of::<Key>((#[trigger] chain[i]).abs_key()) == b
    &&& forall|i: int, j: int|
        0 <= i < j < chain.len() ==> (#[trigger] chain[i]).abs_key() != (
        #[trigger] chain[j]).abs_key()
}

/// A fixed-bucket-count table from keys to values, read by snapshot.
pub struct CellHashMap<Key: CellKey, Value> {
    buckets: Vec<Vec<CellEntry<Key, Value>>>,
}

impl<Key: CellKey, Value> View for CellHashMap<Key, Value> {
    type V = Map<Key::Abs, Value>;

    closed spec fn view(&self) -> Map<Key::Abs, Value> {
        Map::new(
            |a: Key::Abs| chain_has_key(self.buckets@[bucket_of::<Key>(a)]@, a),
            |a: Key::Abs| chain_value_of(self.buckets@[bucket_of::<Key>(a)]@, a),
        )
    }
}

impl<Key: CellKey, Value> CellHashMap<Key, Value> {
    /// One bucket's chain, in insertion order.
    pub closed spec fn chain(&self, b: int) -> Seq<CellEntry<Key, Value>> {
        self.buckets@[b]@
    }

    /// The abstract keys of one bucket's chain, in chain order: each
    /// key stands at the position where it was first inserted.
    pub closed spec fn chain_keys(&self, b: int) -> Seq<Key::Abs> {
        self.chain(b).map_values(|e: CellEntry<Key, Value>| e.abs_key())
    }

    /// The table has exactly [`DEFAULT_MAX_SIZE`] buckets and every
    /// chain is sound for its bucket.
    pub closed spec fn well_formed(&self) -> bool {
        &&& self.buckets@.len() == DEFAULT_MAX_SIZE
        &&& forall|b: int| 0 <= b < self.buckets@.len() ==> chain_wf(#[trigger] self.chain(b), b)
    }

    /// Creates an empty table with [`DEFAULT_MAX_SIZE`] buckets.
    pub fn new() -> (r: Self)
        ensures
            r.well_formed(),
            r@ == Map::<Key::Abs, Value>::empty(),
    {
        let mut buckets: Vec<Vec<CellEntry<Key, Value>>> = Vec::new();
        let mut b: usize = 0;
        while b < 256
            invariant
                b <= 256,
                buckets@.len() == b,
                forall|i: int| 0 <= i < b ==> (#[trigger] buckets@[i])@.len() == 0,
            decreases 256 - b,
        {
            buckets.push(Vec::new());
            b += 1;
        }
        let r = CellHashMap { buckets };
        proof {
            assert(r@ =~= Map::<Key::Abs, Value>::empty());
        }
        r
    }

    /// Maps `key` to `value`.  When the key is already present its
    /// node's value cell is overwritten in place and a snapshot of the
    /// previous value comes back; otherwise a new node is appended to
    /// the key's chain and nothing comes back.
    pub fn put(&mut self, key: Key, value: Value) -> (r: Option<std::sync::Arc<Value>>)
        requires
            old(self).well_formed(),
        ensures
            final(self).well_formed(),
            final(self)@ == old(self)@.insert(key.abs(), value),
            old(self)@.contains_key(key.abs()) ==> (r matches Some(p) && *p == old(
                self,
            )@[key.abs()]),
            !old(self)@.contains_key(key.abs()) ==> r is None,
            forall|b: int|
                0 <= b < DEFAULT_MAX_SIZE && b != bucket_of::<Key>(key.abs())
                    ==> final(self).chain_keys(b) == old(self).chain_keys(b),
            old(self)@.contains_key(key.abs()) ==> final(self).chain_keys(
                bucket_of::<Key>(key.abs()),
            ) == old(self).chain_keys(bucket_of::<Key>(key.abs())),
            !old(self)@.contains_key(key.abs()) ==> final(self).chain_keys(
                bucket_of::<Key>(key.abs()),
            ) == old(self).chain_keys(bucket_of::<Key>(key.abs())).push(key.abs()),
    {
        let ghost a = key.abs();
        let hash_val = key.bucket_hash();
        let position = (hash_val % DEFAULT_MAX_SIZE) as usize;
        let ghost old_chain = self.chain(position as int);

        let mut i: usize = 0;
        let chain_len = self.buckets[position].len();
        while i < chain_len
            invariant
                self == old(self),
                old(self).well_formed(),
                position == bucket_of::<Key>(a),
                a == key.abs(),
                old_chain == self.chain(position as int),
                chain_len == old_chain.len(),
                i <= chain_len,
                forall|j: int| 0 <= j < i ==> (#[trigger] old_chain[j]).abs_key() != a,
            decreases chain_len - i,
        {
            if self.buckets[position][i].key.key_eq(&key) {
                let bucket = &mut self.buckets[position];
                let entry = &mut bucket[i];
                let previous = entry.value.get();
                entry.value.set(value);
                proof {
                    let new_self = *final(self);
                    let old_map = old(self)@;
                    let new_chain = new_self.chain(position as int);
                    assert(new_chain =~= old_chain.update(i as int, new_chain[i as int]));
                    assert(chain_wf(old_chain, position as int));
                    assert forall|ii: int| 0 <= ii < new_chain.len() implies (
                    #[trigger] new_chain[ii]).abs_key() == old_chain[ii].abs_key() by {
                        if ii != i {
                            assert(new_chain[ii] == old_chain[ii]);
                        }
                    }
                    assert(chain_wf(new_chain, position as int));
                    lemma_chain_value_unique(old_chain, i as int);
                    lemma_chain_value_unique(new_chain, i as int);
                    assert forall|b: int| 0 <= b < new_self.buckets@.len() implies chain_wf(
                        #[trigger] new_self.chain(b),
                        b,
                    ) by {
                        if b != position {
                            assert(new_self.chain(b) == old(self).chain(b));
                            assert(chain_wf(old(self).chain(b), b));
                        }
                    }
                    assert forall|x: Key::Abs| true implies #[trigger] new_self@.contains_key(x)
                        == old_map.insert(a, value).contains_key(x) && (new_self@.contains_key(x)
                        ==> new_self@[x] == old_map.insert(a, value)[x]) by {
                        if bucket_of::<Key>(x) == position && x != a {
                            chain_update_preserves_others(old_chain, new_chain, i as int, x);
                        }
                    }
                    assert(new_self@ =~= old_map.insert(a, value));
                    assert(new_self.chain_keys(position as int) =~= old(self).chain_keys(
                        position as int,
                    ));
                }
                return Some(previous);
            }
            i += 1;
        }

        let bucket = &mut self.buckets[position];
        bucket.push(CellEntry::new(key, value));
        proof {
            let new_self = *final(self);
            let old_map = old(self)@;
            let new_chain = new_self.chain(position as int);
            assert(new_chain =~= old_chain.push(new_chain.last()));
            assert(!chain_has_key(old_chain, a));
            assert(new_chain.last().abs_key() == a);
            assert(chain_wf(old_chain, position as int));
            assert forall|p: int, q: int| 0 <= p < q < new_chain.len() implies (
            #[trigger] new_chain[p]).abs_key() != (#[trigger] new_chain[q]).abs_key() by {
                if q == old_chain.len() {
                    assert(new_chain[p] == old_chain[p]);
                }
            }
            assert(chain_wf(new_chain, position as int));
            lemma_chain_value_unique(new_chain, old_chain.len() as int);
            assert forall|b: int| 0 <= b < new_self.buckets@.len() implies chain_wf(
                #[trigger] new_self.chain(b),
                b,
            ) by {
                if b != position {
                    assert(new_self.chain(b) == old(self).chain(b));
                    assert(chain_wf(old(self).chain(b), b));
                }
            }
            assert forall|x: Key::Abs| true implies #[trigger] new_self@.contains_key(x)
                == old_map.insert(a, value).contains_key(x) && (new_self@.contains_key(x)
                ==> new_self@[x] == old_map.insert(a, value)[x]) by {
                if bucket_of::<Key>(x) == position && x != a {
                    chain_push_preserves_others(old_chain, new_chain, x);
                }
            }
            assert(new_self@ =~= old_map.insert(a, value));
            assert(new_self.chain_keys(position as int) =~= old(self).chain_keys(
                position as int,
            ).push(a));
        }
        None
    }

    /// Looks `key` up: a snapshot of its mapped value when present,
    /// nothing otherwise.
    pub fn get(&self, key: Key) -> (r: Option<std::sync::Arc<Value>>)
        requires
            self.well_formed(),
        ensures
            self@.contains_key(key.abs()) ==> (r matches Some(v) && *v == self@[key.abs()]),
            !self@.contains_key(key.abs()) ==> r is None,
    {
        let ghost a = key.abs();
        let hash_val = key.bucket_hash();
        let position = (hash_val % DEFAULT_MAX_SIZE) as usize;
        let ghost chain = self.chain(position as int);

        let mut i: usize = 0;
        let chain_len = self.buckets[position].len();
        while i < chain_len
            invariant
                self.well_formed(),
                position == bucket_of::<Key>(a),
                a == key.abs(),
                chain == self.chain(position as int),
                chain_len == chain.len(),
                i <= chain_len,
                forall|j: int| 0 <= j < i ==> (#[trigger] chain[j]).abs_key() != a,
            decreases chain_len - i,
        {
            let found = self.buckets[position][i].get(&key);
            if found.is_some() {
                proof {
                    assert(chain[i as int].abs_key() == a);
                    assert(chain_wf(chain, position as int));
                    lemma_chain_value_unique(chain, i as int);
                }
                return found;
            }
            i += 1;
        }
        proof {
            assert(!chain_has_key(chain, a));
        }
        None
    }

    /// Removes `key`'s node from its bucket, keeping the order of the
    /// remaining nodes; a key that is not present is a silent no-op.
    pub fn remove(&mut self, key: Key)
        requires
            old(self).well_formed(),
        ensures
            final(self).well_formed(),
            final(self)@ == old(self)@.remove(key.abs()),
            !old(self)@.contains_key(key.abs()) ==> *final(self) == *old(self),
            forall|b: int|
                0 <= b < DEFAULT_MAX_SIZE && b != bucket_of::<Key>(key.abs())
                    ==> final(self).chain_keys(b) == old(self).chain_keys(b),
            old(self)@.contains_key(key.abs()) ==> final(self).chain_keys(
                bucket_of::<Key>(key.abs()),
            ) == old(self).chain_keys(bucket_of::<Key>(key.abs())).remove(
                chain_index_of(old(self).chain(bucket_of::<Key>(key.abs())), key.abs()),
            ),
    {
        let ghost a = key.abs();
        let hash_val = key.bucket_hash();
        let position = (hash_val % DEFAULT_MAX_SIZE) as usize;
        let ghost old_chain = self.chain(position as int);

        let mut i: usize = 0;
        let chain_len = self.buckets[position].len();
        while i < chain_len
            invariant
                self == old(self),
                old(self).well_formed(),
                position == bucket_of::<Key>(a),
                a == key.abs(),
                old_chain == self.chain(position as int),
                chain_len == old_chain.len(),
                i <= chain_len,
                forall|j: int| 0 <= j < i ==> (#[trigger] old_chain[j]).abs_key() != a,
            decreases chain_len - i,
        {
            if self.buckets[position][i].key.key_eq(&key) {
                let bucket = &mut self.buckets[position];
                bucket.remove(i);
                proof {
                    let new_self = *final(self);
                    let old_map = old(self)@;
                    let new_chain = new_self.chain(position as int);
                    assert(new_chain == old_chain.remove(i as int));
                    assert(chain_wf(old_chain, position as int));
                    assert(old_chain[i as int].abs_key() == a);
                    lemma_chain_value_unique(old_chain, i as int);
                    chain_remove_rebuilds(old_chain, i as int);
                    assert(chain_wf(new_chain, position as int));
                    assert forall|b: int| 0 <= b < new_self.buckets@.len() implies chain_wf(
                        #[trigger] new_self.chain(b),
                        b,
                    ) by {
                        if b != position {
                            assert(new_self.chain(b) == old(self).chain(b));
                            assert(chain_wf(old(self).chain(b), b));
                        }
                    }
                    assert forall|x: Key::Abs| true implies #[trigger] new_self@.contains_key(x)
                        == old_map.remove(a).contains_key(x) && (new_self@.contains_key(x)
                        ==> new_self@[x] == old_map.remove(a)[x]) by {
                        if bucket_of::<Key>(x) == position && x != a {
                            chain_remove_preserves_others(old_chain, i as int, x);
                        }
                    }
                    assert(new_self@ =~= old_map.remove(a));
                    assert(chain_index_of(old_chain, a) == i as int);
                    assert(new_self.chain_keys(position as int) =~= old(self).chain_keys(
                        position as int,
                    ).remove(i as int));
                }
                return ;
            }
            i += 1;
        }
        proof {
            assert(!chain_has_key(old_chain, a));
            assert(!old(self)@.contains_key(a));
            assert(final(self)@ =~= old(self)@.remove(a));
        }
    }
}

/// Dropping one node keeps every other node, with the order of the
/// remainder unchanged; the rebuilt chain is sound whenever the
/// original was.
proof fn chain_remove_rebuilds<Key: CellKey, Value>(chain: Seq<CellEntry<Key, Value>>, i: int)
    requires
        0 <= i < chain.len(),
    ensures
        forall|j: int| 0 <= j < i ==> #[trigger] chain.remove(i)[j] == chain[j],
        forall|j: int| i <= j < chain.len() - 1 ==> #[trigger] chain.remove(i)[j] == chain[j + 1],
        forall|b: int| chain_wf(chain, b) ==> chain_wf(#[trigger] chain.remove(i), b),
{
    let rebuilt = chain.remove(i);
    assert forall|b: int| chain_wf(chain, b) implies chain_wf(#[trigger] chain.remove(i), b) by {
        assert forall|p: int| 0 <= p < rebuilt.len() implies bucket_of::<Key>(
            (#[trigger] rebuilt[p]).abs_key(),
        ) == b by {
            if p < i {
                assert(rebuilt[p] == chain[p]);
            } else {
                assert(rebuilt[p] == chain[p + 1]);
            }
        }
        assert forall|p: int, q: int| 0 <= p < q < rebuilt.len() implies (
        #[trigger] rebuilt[p]).abs_key() != (#[trigger] rebuilt[q]).abs_key() by {
            let p0 = if p < i {
                p
            } else {
                p + 1
            };
            let q0 = if q < i {
                q
            } else {
                q + 1
            };
            assert(rebuilt[p] == chain[p0]);
            assert(rebuilt[q] == chain[q0]);
            assert(chain[p0].abs_key() != chain[q0].abs_key());
        }
    }
}

/// Dropping the node that carries one key leaves every other key's
/// presence and value in the chain untouched.
proof fn chain_remove_preserves_others<Key: CellKey, Value>(
    chain: Seq<CellEntry<Key, Value>>,
    i: int,
    x: Key::Abs,
)
    requires
        0 <= i < chain.len(),
        forall|p: int, q: int|
            0 <= p < q < chain.len() ==> (#[trigger] chain[p]).abs_key() != (
            #[trigger] chain[q]).abs_key(),
        x != chain[i].abs_key(),
    ensures
        chain_has_key(chain.remove(i), x) == chain_has_key(chain, x),
        chain_has_key(chain, x) ==> chain_value_of(chain.remove(i), x) == chain_value_of(chain, x),
{
    let rebuilt = chain.remove(i);
    chain_remove_rebuilds(chain, i);
    assert forall|p: int, q: int| 0 <= p < q < rebuilt.len() implies (
    #[trigger] rebuilt[p]).abs_key() != (#[trigger] rebuilt[q]).abs_key() by {
        let p0 = if p < i {
            p
        } else {
            p + 1
        };
        let q0 = if q < i {
            q
        } else {
            q + 1
        };
        assert(rebuilt[p] == chain[p0]);
        assert(rebuilt[q] == chain[q0]);
        assert(chain[p0].abs_key() != chain[q0].abs_key());
    }
    if chain_has_key(chain, x) {
        let j = chain_index_of(chain, x);
        assert(0 <= j < chain.len() && chain[j].abs_key() == x);
        assert(j != i);
        let j2 = if j < i {
            j
        } else {
            j - 1
        };
        assert(rebuilt[j2] == chain[j]);
        lemma_chain_value_unique(chain, j);
        lemma_chain_value_unique(rebuilt, j2);
    }
    if chain_has_key(rebuilt, x) {
        let j = chain_index_of(rebuilt, x);
        assert(0 <= j < rebuilt.len() && rebuilt[j].abs_key() == x);
        let j0 = if j < i {
            j
        } else {
            j + 1
        };
        assert(rebuilt[j] == chain[j0]);
        assert(chain[j0].abs_key() == x);
    }
}

/// A chain with pairwise distinct keys maps the key of its `i`-th node
/// to that node's value.
proof fn lemma_chain_value_unique<Key: CellKey, Value>(
    chain: Seq<CellEntry<Key, Value>>,
    i: int,
)
    requires
        0 <= i < chain.len(),
        forall|p: int, q: int|
            0 <= p < q < chain.len() ==> (#[trigger] chain[p]).abs_key() != (
            #[trigger] chain[q]).abs_key(),
    ensures
        chain_has_key(chain, chain[i].abs_key()),
        chain_index_of(chain, chain[i].abs_key()) == i,
        chain_value_of(chain, chain[i].abs_key()) == chain[i].stored_value(),
{
    let a = chain[i].abs_key();
    assert(chain_has_key(chain, a));
    let j = chain_index_of(chain, a);
    assert(0 <= j < chain.len() && chain[j].abs_key() == a);
    if j < i {
        assert(chain[j].abs_key() != chain[i].abs_key());
    } else if j > i {
        assert(chain[i].abs_key() != chain[j].abs_key());
    }
}

/// Updating the value of one node leaves every other key's presence
/// and value in the chain untouched.
proof fn chain_update_preserves_others<Key: CellKey, Value>(
    old_chain: Seq<CellEntry<Key, Value>>,
    new_chain: Seq<CellEntry<Key, Value>>,
    i: int,
    x: Key::Abs,
)
    requires
        0 <= i < old_chain.len(),
        new_chain.len() == old_chain.len(),
        forall|j: int| 0 <= j < old_chain.len() && j != i ==> new_chain[j] == old_chain[j],
        new_chain[i].abs_key() == old_chain[i].abs_key(),
        forall|p: int, q: int|
            0 <= p < q < old_chain.len() ==> (#[trigger] old_chain[p]).abs_key() != (
            #[trigger] old_chain[q]).abs_key(),
        x != old_chain[i].abs_key(),
    ensures
        chain_has_key(new_chain, x) == chain_has_key(old_chain, x),
        chain_has_key(old_chain, x) ==> chain_value_of(new_chain, x) == chain_value_of(
            old_chain,
            x,
        ),
{
    assert forall|p: int, q: int|
        0 <= p < q < new_chain.len() implies (#[trigger] new_chain[p]).abs_key() != (
    #[trigger] new_chain[q]).abs_key() by {
        assert(old_chain[p].abs_key() != old_chain[q].abs_key());
    }
    if chain_has_key(old_chain, x) {
        let j = chain_index_of(old_chain, x);
        assert(0 <= j < old_chain.len() && old_chain[j].abs_key() == x);
        assert(j != i);
        assert(new_chain[j].abs_key() == x);
        lemma_chain_value_unique(old_chain, j);
        lemma_chain_value_unique(new_chain, j);
    }
    if chain_has_key(new_chain, x) {
        let j = chain_index_of(new_chain, x);
        assert(0 <= j < new_chain.len() && new_chain[j].abs_key() == x);
        assert(j != i);
        assert(old_chain[j].abs_key() == x);
    }
}

/// Appending a node for a fresh key leaves every other key's presence
/// and value in the chain untouched.
proof fn chain_push_preserves_others<Key: CellKey, Value>(
    old_chain: Seq<CellEntry<Key, Value>>,
    new_chain: Seq<CellEntry<Key, Value>>,
    x: Key::Abs,
)
    requires
        new_chain.len() == old_chain.len() + 1,
        forall|j: int| 0 <= j < old_chain.len() ==> new_chain[j] == old_chain[j],
        !chain_has_key(old_chain, new_chain.last().abs_key()),
        forall|p: int, q: int|
            0 <= p < q < old_chain.len() ==> (#[trigger] old_chain[p]).abs_key() != (
            #[trigger] old_chain[q]).abs_key(),
        x != new_chain.last().abs_key(),
    ensures
        chain_has_key(new_chain, x) == chain_has_key(old_chain, x),
        chain_has_key(old_chain, x) ==> chain_value_of(new_chain, x) == chain_value_of(
            old_chain,
            x,
        ),
{
    assert forall|p: int, q: int|
        0 <= p < q < new_chain.len() implies (#[trigger] new_chain[p]).abs_key() != (
    #[trigger] new_chain[q]).abs_key() by {
        if q < old_chain.len() {
            assert(old_chain[p].abs_key() != old_chain[q].abs_key());
        } else {
            assert(new_chain[p] == old_chain[p]);
            assert(!chain_has_key(old_chain, new_chain.last().abs_key()));
            assert(old_chain[p].abs_key() == new_chain[p].abs_key());
        }
    }
    if chain_has_key(old_chain, x) {
        let j = chain_index_of(old_chain, x);
        assert(0 <= j < old_chain.len() && old_chain[j].abs_key() == x);
        assert(new_chain[j].abs_key() == x);
        lemma_chain_value_unique(old_chain, j);
        lemma_chain_value_unique(new_chain, j);
    }
    if chain_has_key(new_chain, x) {
        let j = chain_index_of(new_chain, x);
        assert(0 <= j < new_chain.len() && new_chain[j].abs_key() == x);
        assert(j < old_chain.len());
        assert(old_chain[j].abs_key() == x);
    }
}

/// The overwrite law: writing a key twice leaves the newer value
/// readable, and each write maps the key to exactly the value written.
/// Together with [`CellHashMap::put`]'s contract — which returns the
/// value stored before the write — the first write's value comes back
/// from the second write.
pub proof fn lemma_overwrite_law<A, Value>(m: Map<A, Value>, k: A, v1: Value, v2: Value)
    ensures
        m.insert(k, v1).contains_key(k),
        m.insert(k, v1)[k] == v1,
        m.insert(k, v1).insert(k, v2)[k] == v2,
        m.insert(k, v1).insert(k, v2) =~= m.insert(k, v2),
{
}

/// The independence law: distinct keys never disturb each other, even
/// when they hash to the same bucket — [`CellHashMap`]'s contracts
/// speak only of abstract keys, never of buckets, so collisions cannot
/// weaken them.  Writing two distinct keys leaves both readable, and
/// removing one leaves the other untouched.
pub proof fn lemma_collision_independence<A, Value>(
    m: Map<A, Value>,
    k1: A,
    k2: A,
    v1: Value,
    v2: Value,
)
    requires
        k1 != k2,
    ensures
        m.insert(k1, v1).insert(k2, v2)[k1] == v1,
        m.insert(k1, v1).insert(k2, v2)[k2] == v2,
        m.insert(k1, v1).insert(k2, v2).remove(k1)[k2] == v2,
        !m.insert(k1, v1).insert(k2, v2).remove(k1).contains_key(k1),
{
}

} // verus!

//! The frozen mapping.
use crate::digest::{
    entry_digest, hash_entry, lemma_xor_in_any_order, lemma_xor_over_empty, write_digest,
    xor_in_order, xor_over, HashInput,
};
use crate::Freeze;
use std::collections::HashMap;
use std::hash::{Hash, Hasher};
use std::ops::{Deref, Index};
use vstd::laws_eq::obeys_concrete_eq;
use vstd::prelude::*;
use vstd::set_lib::lemma_subset_equality;
use vstd::std_specs::cmp::PartialEqSpec;
use vstd::std_specs::hash::{obeys_key_model, spec_hash_map_iter};
use vstd::std_specs::iter::IteratorSpec;

verus! {

/// A `HashMap` that can no longer be changed, and can therefore be hashed.
///
/// Its view is the map of its entries. Lookups and the hash are specified for
/// key types whose equality and hashing follow the identity of a key
/// (`obeys_key_model`), which holds of the integer types and of every `HashInput`.
pub struct FrozenMap<K, V> {
    map: HashMap<K, V>,
}

impl<K, V> View for FrozenMap<K, V> {
    type V = Map<K, V>;

    closed spec fn view(&self) -> Map<K, V> {
        self.map@
    }
}

impl<K, V> FrozenMap<K, V> {
    /// Creates an empty map with the default hash builder.
    pub fn new() -> (r: Self)
        ensures
            r@ == Map::<K, V>::empty(),
    {
        FrozenMap { map: HashMap::new() }
    }

    /// Un-freeze this map, returning the underlying `HashMap`.
    pub fn thaw(self) -> (r: HashMap<K, V>)
        ensures
            r@ == self@,
    {
        self.map
    }
}

/// The digest of the entry of `m` under a key.
pub open spec fn entry_digest_of<K: HashInput, V: HashInput>(m: Map<K, V>) -> spec_fn(K) -> u64 {
    |k: K| entry_digest(k, m[k])
}

/// The hash of a whole map: the exclusive-or of the digests of its entries.
pub open spec fn map_digest<K: HashInput, V: HashInput>(m: Map<K, V>) -> u64 {
    xor_over(m.dom(), entry_digest_of(m))
}

/// The keys of a run of borrowed entries, in the same order.
pub open spec fn keys_of<'a, K, V>(entries: Seq<(&'a K, &'a V)>) -> Seq<K> {
    entries.map_values(|e: (&'a K, &'a V)| *e.0)
}

/// The map built by inserting `entries` in order: a later entry for a key
/// replaces an earlier one.
pub open spec fn map_of<K, V>(entries: Seq<(K, V)>) -> Map<K, V>
    decreases entries.len(),
{
    if entries.len() == 0 {
        Map::empty()
    } else {
        map_of(entries.drop_last()).insert(entries.last().0, entries.last().1)
    }
}

/// Whether no two of `entries` share a key.
pub open spec fn distinct_keys<K, V>(entries: Seq<(K, V)>) -> bool {
    forall|i: int, j: int| 0 <= i < j < entries.len() ==> entries[i].0 != entries[j].0
}

/// Whether `m` holds the borrowed entry `e`.
pub open spec fn agrees<'a, K, V>(m: Map<K, V>, e: (&'a K, &'a V)) -> bool {
    m.contains_key(*e.0) && m[*e.0] == *e.1
}

impl<K, V> FrozenMap<K, V> {
    /// Read access to the underlying `HashMap`.
    pub fn as_map(&self) -> (r: &HashMap<K, V>)
        ensures
            r@ == self@,
    {
        &self.map
    }

    /// Builds a map from `entries`, inserted in order, so that the last entry
    /// for a key wins.
    pub fn from_entries(entries: Vec<(K, V)>) -> (r: Self)
        where
            K: Eq + Hash,
        requires
            obeys_key_model::<K>(),
        ensures
            r@ == map_of(entries@),
    {
        let ghost all = entries@;
        let mut map: HashMap<K, V> = HashMap::new();
        for e in it: entries.into_iter()
            invariant
                obeys_key_model::<K>(),
                it.seq() == all,
                map@ == map_of(all.take(it.index() as int)),
        {
            let ghost i = it.index() as int;
            proof {
                assert(all.take(i + 1).drop_last() =~= all.take(i));
            }
            let (k, v) = e;
            map.insert(k, v);
        }
        proof {
            assert(all.take(all.len() as int) =~= all);
        }
        FrozenMap { map }
    }

    /// The number of entries.
    pub fn len(&self) -> (r: usize)
        requires
            obeys_key_model::<K>(),
        ensures
            r == self@.len(),
    {
        self.map.len()
    }

    /// Whether there are no entries.
    pub fn is_empty(&self) -> (r: bool)
        ensures
            r == self@.is_empty(),
    {
        self.map.is_empty()
    }

    /// Whether `key` has an entry.
    pub fn contains_key(&self, key: &K) -> (r: bool)
        where
            K: Eq + Hash,
        requires
            obeys_key_model::<K>(),
        ensures
            r == self@.contains_key(*key),
    {
        self.map.contains_key(key)
    }

    /// The value under `key`, if there is one.
    pub fn get(&self, key: &K) -> (r: Option<&V>)
        where
            K: Eq + Hash,
        requires
            obeys_key_model::<K>(),
        ensures
            r == (if self@.contains_key(*key) { Some(&self@[*key]) } else { None }),
    {
        self.map.get(key)
    }

    /// Whether both maps hold the same entries.
    pub fn same_entries(&self, other: &Self) -> (r: bool)
        where
            K: Eq + Hash,
            V: PartialEq,
        requires
            obeys_key_model::<K>(),
            obeys_concrete_eq::<V>(),
        ensures
            r == (self@ == other@),
    {
        if self.map.len() != other.map.len() {
            return false;
        }
        let ghost entries = spec_hash_map_iter(&self.map).remaining();
        let mut same = true;
        for (k, v) in it: self.map.iter()
            invariant
                obeys_key_model::<K>(),
                obeys_concrete_eq::<V>(),
                self@.len() == other@.len(),
                entries == spec_hash_map_iter(&self.map).remaining(),
                it.seq() == entries,
                !same ==> self@ != other@,
                same ==> forall|j: int|
                    0 <= j < it.index() ==> #[trigger] agrees(other@, entries[j]),
        {
            let ghost i = it.index() as int;
            proof {
                assert(entries[i] == (k, v));
                assert(self@.contains_key(*entries[i].0));
                reveal(obeys_concrete_eq);
            }
            if same {
                match other.map.get(k) {
                    Some(w) => {
                        if !w.eq(v) {
                            same = false;
                        }
                    },
                    None => {
                        same = false;
                    },
                }
            }
            assert(same ==> agrees(other@, entries[i]));
        }
        if !same {
            return false;
        }
        proof {
            assert(self@.dom().subset_of(other@.dom())) by {
                assert forall|k: K| #[trigger] self@.contains_key(k) implies other@.contains_key(k) by {
                    let j = choose|j: int| 0 <= j < entries.len() && entries[j] == (&k, &self@[k]);
                    assert(agrees(other@, entries[j]));
                }
            }
            assert(self.map@.dom().finite() && other.map@.dom().finite());
            lemma_subset_equality(self@.dom(), other@.dom());
            assert forall|k: K| #[trigger] self@.contains_key(k) implies other@[k] == self@[k] by {
                let j = choose|j: int| 0 <= j < entries.len() && entries[j] == (&k, &self@[k]);
                assert(agrees(other@, entries[j]));
            }
            assert(self@ =~= other@);
        }
        true
    }

    /// The order-independent hash of the entries.
    pub fn digest(&self) -> (r: u64)
        where
            K: HashInput,
            V: HashInput,
        requires
            obeys_key_model::<K>(),
        ensures
            r == map_digest(self@),
    {
        let ghost d = entry_digest_of(self@);
        let ghost entries = spec_hash_map_iter(&self.map).remaining();
        let mut acc: u64 = 0;
        for (k, v) in it: self.map.iter()
            invariant
                obeys_key_model::<K>(),
                d == entry_digest_of(self@),
                entries == spec_hash_map_iter(&self.map).remaining(),
                it.seq() == entries,
                acc == xor_in_order(keys_of(it.seq().take(it.index() as int)), d),
        {
            let ghost i = it.index() as int;
            let e = hash_entry(k, v);
            proof {
                let before = keys_of(it.seq().take(i));
                let after = keys_of(it.seq().take(i + 1));
                assert(entries[i] == (k, v));
                assert(self@.contains_key(*entries[i].0));
                assert(after =~= before.push(*k));
                assert(after.drop_last() =~= before);
            }
            acc = acc ^ e;
        }
        proof {
            {
                assert(entries.take(entries.len() as int) =~= entries);
                let keys = keys_of(entries);
                assert(keys.no_duplicates()) by {
                    assert forall|i: int, j: int|
                        0 <= i < keys.len() && 0 <= j < keys.len() && i != j implies keys[i]
                        != keys[j] by {
                        assert(self@.contains_key(*entries[i].0));
                        assert(self@.contains_key(*entries[j].0));
                    }
                }
                assert(keys.to_set() =~= self@.dom()) by {
                    assert forall|k: K| #[trigger] self@.contains_key(k) implies keys.contains(k) by {
                        let i = choose|i: int| 0 <= i < entries.len() && entries[i] == (&k, &self@[k]);
                        assert(keys[i] == k);
                    }
                    assert forall|k: K| keys.contains(k) implies #[trigger] self@.contains_key(k) by {
                        let i = choose|i: int| 0 <= i < keys.len() && keys[i] == k;
                        assert(self@.contains_key(*entries[i].0));
                    }
                }
                lemma_xor_in_any_order(keys, d);
            }
        }
        acc
    }
}

impl<K, V> Freeze for HashMap<K, V> {
    type Frozen = FrozenMap<K, V>;

    fn freeze(self) -> (r: FrozenMap<K, V>)
        ensures
            r@ == self@,
    {
        FrozenMap { map: self }
    }
}

impl<K, V> Deref for FrozenMap<K, V> {
    type Target = HashMap<K, V>;

    fn deref(&self) -> (r: &HashMap<K, V>)
        ensures
            r@ == self@,
    {
        &self.map
    }
}

impl<K, V> Default for FrozenMap<K, V> {
    fn default() -> (r: Self)
        ensures
            r@ == Map::<K, V>::empty(),
    {
        FrozenMap::new()
    }
}

impl<K, V> From<HashMap<K, V>> for FrozenMap<K, V> {
    fn from(map: HashMap<K, V>) -> (r: Self)
        ensures
            r@ == map@,
    {
        FrozenMap { map }
    }
}

impl<K, V> vstd::std_specs::convert::FromSpecImpl<HashMap<K, V>> for FrozenMap<K, V> {
    open spec fn obeys_from_spec() -> bool {
        true
    }

    closed spec fn from_spec(map: HashMap<K, V>) -> Self {
        FrozenMap { map }
    }
}

impl<'a, K: Eq + Hash, V> Index<&'a K> for FrozenMap<K, V> {
    type Output = V;

    fn index(&self, key: &'a K) -> (r: &V)
        ensures
            *r == self@[*key],
    {
        match self.map.get(key) {
            Some(v) => v,
            None => unreached(),
        }
    }
}

impl<'a, K: Eq + Hash, V> vstd::std_specs::core::IndexSpecImpl<&'a K> for FrozenMap<K, V> {
    open spec fn index_req(&self, key: &&'a K) -> bool {
        obeys_key_model::<K>() && self@.contains_key(**key)
    }
}

impl<K: HashInput, V: HashInput> PartialEq for FrozenMap<K, V> {
    fn eq(&self, other: &Self) -> (r: bool)
        ensures
            r == (self@ == other@),
    {
        proof {
            K::lemma_identity();
            V::lemma_identity();
        }
        self.same_entries(other)
    }
}

impl<K: HashInput, V: HashInput> vstd::std_specs::cmp::PartialEqSpecImpl for FrozenMap<K, V> {
    open spec fn obeys_eq_spec() -> bool {
        true
    }

    open spec fn eq_spec(&self, other: &Self) -> bool {
        self@ == other@
    }
}

impl<K: HashInput, V: HashInput> Eq for FrozenMap<K, V> {

}

impl<K: HashInput, V: HashInput> Hash for FrozenMap<K, V> {
    fn hash<H: Hasher>(&self, state: &mut H) {
        proof {
            K::lemma_identity();
        }
        write_digest(state, self.digest());
    }
}

/// Freezing a map and thawing it again gives back exactly the entries it had.
pub proof fn lemma_round_trip<K, V>(m: HashMap<K, V>, frozen: FrozenMap<K, V>, back: HashMap<K, V>)
    requires
        call_ensures(<HashMap<K, V> as Freeze>::freeze, (m,), frozen),
        call_ensures(FrozenMap::<K, V>::thaw, (frozen,), back),
    ensures
        back@ == m@,
{
}

/// However the entries of `m` are listed, combining their digests in that
/// order gives the digest of `m`: the hash does not depend on iteration order.
pub proof fn lemma_digest_any_order<K: HashInput, V: HashInput>(m: Map<K, V>, order: Seq<K>)
    requires
        order.no_duplicates(),
        order.to_set() == m.dom(),
    ensures
        xor_in_order(order, entry_digest_of(m)) == map_digest(m),
{
    lemma_xor_in_any_order(order, entry_digest_of(m));
}

/// With distinct keys, the map built from `entries` holds exactly those entries.
pub proof fn lemma_map_of_distinct<K, V>(entries: Seq<(K, V)>)
    requires
        distinct_keys(entries),
    ensures
        forall|i: int|
            0 <= i < entries.len() ==> #[trigger] map_of(entries).contains_key(entries[i].0)
                && map_of(entries)[entries[i].0] == entries[i].1,
        forall|k: K|
            #[trigger] map_of(entries).contains_key(k) ==> exists|i: int|
                0 <= i < entries.len() && entries[i].0 == k,
    decreases entries.len(),
{
    if entries.len() > 0 {
        let prefix = entries.drop_last();
        lemma_map_of_distinct(prefix);
        assert forall|i: int| 0 <= i < entries.len() implies #[trigger] map_of(
            entries,
        ).contains_key(entries[i].0) && map_of(entries)[entries[i].0] == entries[i].1 by {
            let last = entries.last();
            if i < entries.len() - 1 {
                assert(prefix[i] == entries[i]);
                assert(entries[i].0 != entries[entries.len() - 1].0);
                assert(map_of(prefix).contains_key(prefix[i].0));
            }
        }
        assert forall|k: K| #[trigger] map_of(entries).contains_key(k) implies exists|i: int|
            0 <= i < entries.len() && entries[i].0 == k by {
            if k != entries.last().0 {
                assert(map_of(prefix).contains_key(k));
                let i = choose|i: int| 0 <= i < prefix.len() && prefix[i].0 == k;
                assert(prefix[i] == entries[i]);
                assert(entries[i].0 == k);
            } else {
                assert(entries[entries.len() - 1].0 == k);
            }
        }
    }
}

/// Rebuilding a map from the same entries in another order, with no key
/// given twice, gives the same map and therefore the same digest.
pub proof fn lemma_rebuild_any_order<K: HashInput, V: HashInput>(
    a: Seq<(K, V)>,
    b: Seq<(K, V)>,
)
    requires
        distinct_keys(a),
        distinct_keys(b),
        a.to_set() == b.to_set(),
    ensures
        map_of(a) == map_of(b),
        map_digest(map_of(a)) == map_digest(map_of(b)),
{
    lemma_map_of_distinct(a);
    lemma_map_of_distinct(b);
    assert forall|k: K| #[trigger] map_of(a).contains_key(k) implies map_of(b).contains_key(k)
        && map_of(b)[k] == map_of(a)[k] by {
        let i = choose|i: int| 0 <= i < a.len() && a[i].0 == k;
        assert(a.to_set().contains(a[i]));
        let j = choose|j: int| 0 <= j < b.len() && b[j] == a[i];
        assert(map_of(b).contains_key(b[j].0));
    }
    assert forall|k: K| #[trigger] map_of(b).contains_key(k) implies map_of(a).contains_key(k) by {
        let j = choose|j: int| 0 <= j < b.len() && b[j].0 == k;
        assert(b.to_set().contains(b[j]));
        let i = choose|i: int| 0 <= i < a.len() && a[i] == b[j];
        assert(map_of(a).contains_key(a[i].0));
    }
    assert(map_of(a) =~= map_of(b));
}

/// Frozen maps that are equal have equal digests.
pub proof fn lemma_equal_maps_equal_digest<K: HashInput, V: HashInput>(
    a: FrozenMap<K, V>,
    b: FrozenMap<K, V>,
)
    requires
        a.eq_spec(&b),
    ensures
        map_digest(a@) == map_digest(b@),
{
}

/// Every empty map has digest zero.
pub proof fn lemma_empty_map_digest<K: HashInput, V: HashInput>()
    ensures
        map_digest(Map::<K, V>::empty()) == 0,
{
    lemma_xor_over_empty(entry_digest_of(Map::<K, V>::empty()));
}

} // verus!

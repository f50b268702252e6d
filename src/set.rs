//! The frozen set.
use crate::digest::{
    element_digest, hash_element, lemma_xor_in_any_order, lemma_xor_over_empty, write_digest,
    xor_in_order, xor_over, HashInput,
};
use crate::Freeze;
use std::collections::HashSet;
use std::hash::{Hash, Hasher};
use std::ops::Deref;
use vstd::prelude::*;
use vstd::set_lib::lemma_subset_equality;
use vstd::std_specs::cmp::PartialEqSpec;
use vstd::std_specs::hash::{obeys_key_model, spec_hash_keys_iter};
use vstd::std_specs::iter::IteratorSpec;

verus! {

/// A `HashSet` that can no longer be changed, and can therefore be hashed.
///
/// Its view is the set of its elements. Lookups and the hash are specified for
/// element types whose equality and hashing follow the identity of an element
/// (`obeys_key_model`), which holds of the integer types and of every `HashInput`.
pub struct FrozenSet<T> {
    set: HashSet<T>,
}

impl<T> View for FrozenSet<T> {
    type V = Set<T>;

    closed spec fn view(&self) -> Set<T> {
        self.set@
    }
}

/// The digest of an element, as a function.
pub open spec fn element_digest_fn<T: HashInput>() -> spec_fn(T) -> u64 {
    |t: T| element_digest(t)
}

/// The hash of a whole set: the exclusive-or of the digests of its elements.
pub open spec fn set_digest<T: HashInput>(s: Set<T>) -> u64 {
    xor_over(s, element_digest_fn::<T>())
}

impl<T> FrozenSet<T> {
    /// Creates an empty set with the default hash builder.
    pub fn new() -> (r: Self)
        ensures
            r@ == Set::<T>::empty(),
    {
        FrozenSet { set: HashSet::new() }
    }

    /// Un-freeze this set, returning the underlying `HashSet`.
    pub fn thaw(self) -> (r: HashSet<T>)
        ensures
            r@ == self@,
    {
        self.set
    }

    /// Read access to the underlying `HashSet`.
    pub fn as_set(&self) -> (r: &HashSet<T>)
        ensures
            r@ == self@,
    {
        &self.set
    }

    /// Builds a set from `elements`; repeated elements are kept once.
    pub fn from_elements(elements: Vec<T>) -> (r: Self)
        where
            T: Eq + Hash,
        requires
            obeys_key_model::<T>(),
        ensures
            r@ == elements@.to_set(),
    {
        let ghost all = elements@;
        let mut set: HashSet<T> = HashSet::new();
        for t in it: elements.into_iter()
            invariant
                obeys_key_model::<T>(),
                it.seq() == all,
                set@ == all.take(it.index() as int).to_set(),
        {
            let ghost i = it.index() as int;
            proof {
                let prev = all.take(i);
                let next = all.take(i + 1);
                assert(all[i] == t);
                assert(next =~= prev.push(t));
                assert forall|x: T| #[trigger] next.contains(x) <==> prev.contains(x) || x == t by {
                    if next.contains(x) && x != t {
                        let j = choose|j: int| 0 <= j < next.len() && next[j] == x;
                        assert(prev[j] == x);
                    }
                    if prev.contains(x) {
                        let j = choose|j: int| 0 <= j < prev.len() && prev[j] == x;
                        assert(next[j] == x);
                    }
                    if x == t {
                        assert(next[i] == x);
                    }
                }
                assert(next.to_set() =~= prev.to_set().insert(t));
            }
            set.insert(t);
        }
        proof {
            assert(all.take(all.len() as int) =~= all);
        }
        FrozenSet { set }
    }

    /// The number of elements.
    pub fn len(&self) -> (r: usize)
        requires
            obeys_key_model::<T>(),
        ensures
            r == self@.len(),
    {
        self.set.len()
    }

    /// Whether there are no elements.
    pub fn is_empty(&self) -> (r: bool)
        ensures
            r == self@.is_empty(),
    {
        self.set.is_empty()
    }

    /// Whether `value` is an element.
    pub fn contains(&self, value: &T) -> (r: bool)
        where
            T: Eq + Hash,
        requires
            obeys_key_model::<T>(),
        ensures
            r == self@.contains(*value),
    {
        self.set.contains(value)
    }

    /// Whether both sets hold the same elements.
    pub fn same_elements(&self, other: &Self) -> (r: bool)
        where
            T: Eq + Hash,
        requires
            obeys_key_model::<T>(),
        ensures
            r == (self@ == other@),
    {
        if self.set.len() != other.set.len() {
            return false;
        }
        let ghost elems = spec_hash_keys_iter(&self.set).remaining();
        let mut same = true;
        for t in it: self.set.iter()
            invariant
                obeys_key_model::<T>(),
                self@.len() == other@.len(),
                elems == spec_hash_keys_iter(&self.set).remaining(),
                it.seq() == elems,
                !same ==> self@ != other@,
                same ==> forall|j: int| 0 <= j < it.index() ==> other@.contains(*#[trigger] elems[j]),
        {
            let ghost i = it.index() as int;
            proof {
                assert(elems[i] == t);
                assert(elems.unref().contains(*t));
            }
            if same && !other.set.contains(t) {
                same = false;
            }
        }
        if !same {
            return false;
        }
        proof {
            assert(self@.subset_of(other@)) by {
                assert forall|t: T| #[trigger] self@.contains(t) implies other@.contains(t) by {
                    assert(elems.unref().contains(t));
                    let j = choose|j: int| 0 <= j < elems.len() && elems.unref()[j] == t;
                    assert(other@.contains(*elems[j]));
                }
            }
            assert(self.set@.finite() && other.set@.finite()) by {
                assert(self.set@ == elems.unref().to_set());
                assert(other.set@ == spec_hash_keys_iter(&other.set).remaining().unref().to_set());
            }
            lemma_subset_equality(self@, other@);
        }
        true
    }

    /// The order-independent hash of the elements.
    pub fn digest(&self) -> (r: u64)
        where
            T: HashInput,
        requires
            obeys_key_model::<T>(),
        ensures
            r == set_digest(self@),
    {
        let ghost d = element_digest_fn::<T>();
        let ghost elems = spec_hash_keys_iter(&self.set).remaining();
        let mut acc: u64 = 0;
        for t in it: self.set.iter()
            invariant
                obeys_key_model::<T>(),
                d == element_digest_fn::<T>(),
                elems == spec_hash_keys_iter(&self.set).remaining(),
                it.seq() == elems,
                acc == xor_in_order(it.seq().take(it.index() as int).unref(), d),
        {
            let ghost i = it.index() as int;
            let e = hash_element(t);
            proof {
                let before = it.seq().take(i).unref();
                let after = it.seq().take(i + 1).unref();
                assert(elems[i] == t);
                assert(after =~= before.push(*t));
                assert(after.drop_last() =~= before);
            }
            acc = acc ^ e;
        }
        proof {
            let order = elems.unref();
            assert(elems.take(elems.len() as int) =~= elems);
            assert(order.no_duplicates()) by {
                assert forall|i: int, j: int|
                    0 <= i < order.len() && 0 <= j < order.len() && i != j implies order[i]
                    != order[j] by {
                    assert(elems[i] != elems[j]);
                }
            }
            lemma_xor_in_any_order(order, d);
        }
        acc
    }
}

impl<T> Freeze for HashSet<T> {
    type Frozen = FrozenSet<T>;

    fn freeze(self) -> (r: FrozenSet<T>)
        ensures
            r@ == self@,
    {
        FrozenSet { set: self }
    }
}

impl<T> Deref for FrozenSet<T> {
    type Target = HashSet<T>;

    fn deref(&self) -> (r: &HashSet<T>)
        ensures
            r@ == self@,
    {
        &self.set
    }
}

impl<T> Default for FrozenSet<T> {
    fn default() -> (r: Self)
        ensures
            r@ == Set::<T>::empty(),
    {
        FrozenSet::new()
    }
}

impl<T> From<HashSet<T>> for FrozenSet<T> {
    fn from(set: HashSet<T>) -> (r: Self)
        ensures
            r@ == set@,
    {
        FrozenSet { set }
    }
}

impl<T> vstd::std_specs::convert::FromSpecImpl<HashSet<T>> for FrozenSet<T> {
    open spec fn obeys_from_spec() -> bool {
        true
    }

    closed spec fn from_spec(set: HashSet<T>) -> Self {
        FrozenSet { set }
    }
}

impl<T: HashInput> PartialEq for FrozenSet<T> {
    fn eq(&self, other: &Self) -> (r: bool)
        ensures
            r == (self@ == other@),
    {
        proof {
            T::lemma_identity();
        }
        self.same_elements(other)
    }
}

impl<T: HashInput> vstd::std_specs::cmp::PartialEqSpecImpl for FrozenSet<T> {
    open spec fn obeys_eq_spec() -> bool {
        true
    }

    open spec fn eq_spec(&self, other: &Self) -> bool {
        self@ == other@
    }
}

impl<T: HashInput> Eq for FrozenSet<T> {

}

impl<T: HashInput> Hash for FrozenSet<T> {
    fn hash<H: Hasher>(&self, state: &mut H) {
        proof {
            T::lemma_identity();
        }
        write_digest(state, self.digest());
    }
}

/// Freezing a set and thawing it again gives back exactly the elements it had.
pub proof fn lemma_set_round_trip<T>(s: HashSet<T>, frozen: FrozenSet<T>, back: HashSet<T>)
    requires
        call_ensures(<HashSet<T> as Freeze>::freeze, (s,), frozen),
        call_ensures(FrozenSet::<T>::thaw, (frozen,), back),
    ensures
        back@ == s@,
{
}

/// However the elements of `s` are listed, combining their digests in that
/// order gives the digest of `s`: the hash does not depend on iteration order.
pub proof fn lemma_set_digest_any_order<T: HashInput>(s: Set<T>, order: Seq<T>)
    requires
        order.no_duplicates(),
        order.to_set() == s,
    ensures
        xor_in_order(order, element_digest_fn::<T>()) == set_digest(s),
{
    lemma_xor_in_any_order(order, element_digest_fn::<T>());
}

/// Frozen sets that are equal have equal digests.
pub proof fn lemma_equal_sets_equal_digest<T: HashInput>(a: FrozenSet<T>, b: FrozenSet<T>)
    requires
        a.eq_spec(&b),
    ensures
        set_digest(a@) == set_digest(b@),
{
}

/// Every empty set has digest zero.
pub proof fn lemma_empty_set_digest<T: HashInput>()
    ensures
        set_digest(Set::<T>::empty()) == 0,
{
    lemma_xor_over_empty(element_digest_fn::<T>());
}

} // verus!

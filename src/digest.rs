//! Per-entry digests and their order-independent combination.
//!
//! Each entry of a collection is written into a fresh `DefaultHasher`, whose
//! `finish` gives the entry's digest. The digests of all entries are combined
//! with exclusive-or, so the combined value depends on the set of entries and
//! never on the order in which they are visited.
use std::collections::hash_map::DefaultHasher;
use std::hash::{Hash, Hasher};
use vstd::bytes::{
    spec_u16_to_le_bytes, spec_u32_to_le_bytes, spec_u64_to_le_bytes, u16_to_le_bytes,
    u32_to_le_bytes, u64_to_le_bytes,
};
use vstd::laws_eq::obeys_concrete_eq;
use vstd::prelude::*;
use vstd::set::fold::{is_fun_commutative, lemma_fold_empty, lemma_fold_insert};
use vstd::std_specs::hash::{obeys_key_model, DefaultHasherAdditionalSpecFns};

verus! {

/// A value that can be written into a per-entry hasher, and whose equality
/// and hashing are those of its identity.
pub trait HashInput: Sized + PartialEq + Eq + Hash {
    /// The writes that `feed` makes, in order, each a run of bytes.
    spec fn hash_writes(&self) -> Seq<Seq<u8>>;

    /// `==` on this type is identity, and its hash is a function of the value.
    proof fn lemma_identity()
        ensures
            obeys_key_model::<Self>(),
            obeys_concrete_eq::<Self>(),
    ;

    /// Writes this value into `state`.
    fn feed(&self, state: &mut DefaultHasher)
        ensures
            final(state)@ == old(state)@ + self.hash_writes(),
    ;
}

/// Writes one run of bytes into `state`.
fn write_run(state: &mut DefaultHasher, bytes: &Vec<u8>)
    ensures
        final(state)@ == old(state)@ + seq![bytes@],
{
    state.write(bytes.as_slice());
    assert(old(state)@.push(bytes@) =~= old(state)@ + seq![bytes@]);
}

impl HashInput for u8 {
    open spec fn hash_writes(&self) -> Seq<Seq<u8>> {
        seq![seq![*self]]
    }

    proof fn lemma_identity() {
    }

    fn feed(&self, state: &mut DefaultHasher) {
        let mut bytes: Vec<u8> = Vec::new();
        bytes.push(*self);
        assert(bytes@ =~= seq![*self]);
        write_run(state, &bytes);
    }
}

impl HashInput for bool {
    open spec fn hash_writes(&self) -> Seq<Seq<u8>> {
        seq![seq![if *self { 1u8 } else { 0u8 }]]
    }

    proof fn lemma_identity() {
    }

    fn feed(&self, state: &mut DefaultHasher) {
        let mut bytes: Vec<u8> = Vec::new();
        bytes.push(if *self { 1u8 } else { 0u8 });
        assert(bytes@ =~= seq![if *self { 1u8 } else { 0u8 }]);
        write_run(state, &bytes);
    }
}

impl HashInput for u16 {
    open spec fn hash_writes(&self) -> Seq<Seq<u8>> {
        seq![spec_u16_to_le_bytes(*self)]
    }

    proof fn lemma_identity() {
    }

    fn feed(&self, state: &mut DefaultHasher) {
        write_run(state, &u16_to_le_bytes(*self));
    }
}

impl HashInput for u32 {
    open spec fn hash_writes(&self) -> Seq<Seq<u8>> {
        seq![spec_u32_to_le_bytes(*self)]
    }

    proof fn lemma_identity() {
    }

    fn feed(&self, state: &mut DefaultHasher) {
        write_run(state, &u32_to_le_bytes(*self));
    }
}

impl HashInput for u64 {
    open spec fn hash_writes(&self) -> Seq<Seq<u8>> {
        seq![spec_u64_to_le_bytes(*self)]
    }

    proof fn lemma_identity() {
    }

    fn feed(&self, state: &mut DefaultHasher) {
        write_run(state, &u64_to_le_bytes(*self));
    }
}

impl HashInput for i32 {
    open spec fn hash_writes(&self) -> Seq<Seq<u8>> {
        seq![spec_u32_to_le_bytes(*self as u32)]
    }

    proof fn lemma_identity() {
    }

    fn feed(&self, state: &mut DefaultHasher) {
        write_run(state, &u32_to_le_bytes(*self as u32));
    }
}

impl HashInput for i64 {
    open spec fn hash_writes(&self) -> Seq<Seq<u8>> {
        seq![spec_u64_to_le_bytes(*self as u64)]
    }

    proof fn lemma_identity() {
    }

    fn feed(&self, state: &mut DefaultHasher) {
        write_run(state, &u64_to_le_bytes(*self as u64));
    }
}

/// The digest of one mapping entry: a fresh hasher fed the key, then the value.
pub open spec fn entry_digest<K: HashInput, V: HashInput>(k: K, v: V) -> u64 {
    DefaultHasher::spec_finish(k.hash_writes() + v.hash_writes())
}

/// The digest of one set element: a fresh hasher fed the element.
pub open spec fn element_digest<T: HashInput>(t: T) -> u64 {
    DefaultHasher::spec_finish(t.hash_writes())
}

/// Computes `entry_digest(*k, *v)`.
pub fn hash_entry<K: HashInput, V: HashInput>(k: &K, v: &V) -> (r: u64)
    ensures
        r == entry_digest(*k, *v),
{
    let mut state = DefaultHasher::new();
    k.feed(&mut state);
    v.feed(&mut state);
    assert(Seq::<Seq<u8>>::empty() + k.hash_writes() =~= k.hash_writes());
    state.finish()
}

/// Computes `element_digest(*t)`.
pub fn hash_element<T: HashInput>(t: &T) -> (r: u64)
    ensures
        r == element_digest(*t),
{
    let mut state = DefaultHasher::new();
    t.feed(&mut state);
    assert(Seq::<Seq<u8>>::empty() + t.hash_writes() =~= t.hash_writes());
    state.finish()
}

/// One step of the combination: fold the digest of `a` into the accumulator.
pub open spec fn xor_step<A>(d: spec_fn(A) -> u64) -> spec_fn(u64, A) -> u64 {
    |acc: u64, a: A| acc ^ d(a)
}

/// The exclusive-or of the digests of all members of the finite set `s`.
pub open spec fn xor_over<A>(s: Set<A>, d: spec_fn(A) -> u64) -> u64 {
    s.fold(0u64, xor_step(d))
}

/// The exclusive-or of the digests of the items of `order`, taken from first to last.
pub open spec fn xor_in_order<A>(order: Seq<A>, d: spec_fn(A) -> u64) -> u64
    decreases order.len(),
{
    if order.len() == 0 {
        0u64
    } else {
        xor_in_order(order.drop_last(), d) ^ d(order.last())
    }
}

/// Folding digests with exclusive-or does not depend on the order of the steps.
pub proof fn lemma_xor_step_commutative<A>(d: spec_fn(A) -> u64)
    ensures
        is_fun_commutative(xor_step(d)),
{
    assert forall|a1: A, a2: A, b: u64|
        #[trigger] xor_step(d)(xor_step(d)(b, a2), a1) == xor_step(d)(xor_step(d)(b, a1), a2) by {
        let x = d(a1);
        let y = d(a2);
        assert((b ^ y) ^ x == (b ^ x) ^ y) by (bit_vector);
    }
}

/// Combining the digests in any order that lists each member once gives
/// the combination over the set of members.
pub proof fn lemma_xor_in_any_order<A>(order: Seq<A>, d: spec_fn(A) -> u64)
    requires
        order.no_duplicates(),
    ensures
        xor_in_order(order, d) == xor_over(order.to_set(), d),
    decreases order.len(),
{
    if order.len() == 0 {
        assert(order.to_set() =~= Set::<A>::empty());
        lemma_fold_empty(0u64, xor_step(d));
    } else {
        let prefix = order.drop_last();
        let last = order.last();
        assert(prefix.no_duplicates());
        lemma_xor_in_any_order(prefix, d);
        assert(order.to_set() =~= prefix.to_set().insert(last)) by {
            assert(order =~= prefix.push(last));
        }
        assert(!prefix.to_set().contains(last));
        lemma_xor_step_commutative(d);
        lemma_fold_insert(prefix.to_set(), 0u64, xor_step(d), last);
    }
}

/// The combination over the empty set is zero.
pub proof fn lemma_xor_over_empty<A>(d: spec_fn(A) -> u64)
    ensures
        xor_over(Set::<A>::empty(), d) == 0,
{
    lemma_fold_empty(0u64, xor_step(d));
}

/// Relies on `Hash for u64`: writes the combined digest into the caller's hasher.
#[verifier::external_body]
pub(crate) fn write_digest<H: Hasher>(state: &mut H, digest: u64) {
    digest.hash(state)
}

} // verus!

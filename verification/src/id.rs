//! Typed 128-bit identifiers.
//!
//! An [`Id<T>`] names one value of kind `T` — for the tile engine, one image
//! layer. The identifier value zero is reserved: it backs the engine's
//! sentinel "empty tile", so freshly drawn identifiers are never zero.

use vstd::prelude::*;
use core::marker::PhantomData;

verus! {

/// An opaque identifier for a value of kind `T`, backed by a 128-bit value.
#[derive(Debug)]
pub struct Id<T> {
    id: u128,
    marker: PhantomData<T>,
}

impl<T> View for Id<T> {
    type V = u128;

    closed spec fn view(&self) -> u128 {
        self.id
    }
}

/// Relies on uuid::Uuid::new_v4 (and Uuid::as_u128): the generated value has
/// its version and variant bits set by a bitwise or with a nonzero constant,
/// so it is never zero.
#[verifier::external_body]
fn random_u128() -> (r: u128)
    ensures
        r != 0,
{
    uuid::Uuid::new_v4().as_u128()
}

/// The 128-bit digest that `xxh3` assigns to a string's UTF-8 bytes; a
/// function of the string contents alone.
pub uninterp spec fn str_digest(s: Seq<char>) -> u128;

/// Relies on xxhash_rust::xxh3::xxh3_128: a 128-bit digest of the input
/// bytes, depending on the bytes alone.
#[verifier::external_body]
fn xxh3_str(s: &str) -> (r: u128)
    ensures
        r == str_digest(s@),
{
    xxhash_rust::xxh3::xxh3_128(s.as_bytes())
}

impl<T> Id<T> {
    /// A freshly generated random identifier; never the reserved zero value.
    pub fn random() -> (id: Id<T>)
        ensures
            id@ != 0,
    {
        Id { id: random_u128(), marker: PhantomData }
    }

    /// The identifier with exactly the given backing value.
    pub fn from_u128(v: u128) -> (id: Id<T>)
        ensures
            id@ == v,
    {
        Id { id: v, marker: PhantomData }
    }

    /// The backing 128-bit value.
    pub fn value(&self) -> (v: u128)
        ensures
            v == self@,
    {
        self.id
    }

    /// The identifier derived deterministically from a name.
    pub fn from_str(s: &str) -> (id: Id<T>)
        ensures
            id@ == str_digest(s@),
    {
        Id { id: xxh3_str(s), marker: PhantomData }
    }
}

impl<T> Clone for Id<T> {
    fn clone(&self) -> (r: Self)
        ensures
            r == *self,
    {
        Id { id: self.id, marker: PhantomData }
    }
}

impl<T> Copy for Id<T> {
}

impl<T> PartialEq for Id<T> {
    fn eq(&self, other: &Self) -> (r: bool)
        ensures
            r == (self@ == other@),
    {
        self.id == other.id
    }
}

impl<T> vstd::std_specs::cmp::PartialEqSpecImpl for Id<T> {
    open spec fn obeys_eq_spec() -> bool {
        true
    }

    open spec fn eq_spec(&self, other: &Self) -> bool {
        self@ == other@
    }
}

impl<T> Eq for Id<T> {
}

/// Two identifiers of the same kind are equal exactly when their backing
/// values are: the phantom kind marker carries no data.
pub proof fn lemma_id_eq<T>(a: Id<T>, b: Id<T>)
    ensures
        (a@ == b@) <==> a == b,
{
}

} // verus!

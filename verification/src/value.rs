//! The value kinds a pool can intern: text, filesystem paths (modelled by
//! their textual form), and byte buffers, together with the hashing strategy
//! (FNV-1a) used to index the canonical table.

use vstd::prelude::*;
use crate::fnv1a_of;
use std::hash::BuildHasher;
use std::hash::Hasher;

verus! {

/// `fnv::FnvHasher` carries the running 64-bit FNV-1a state; the table's
/// hashing strategy builds one per hash computation.
#[verifier::external_type_specification]
#[verifier::external_body]
pub struct ExFnvHasher(fnv::FnvHasher);

/// `std::hash::BuildHasherDefault` is the zero-sized builder that
/// `fnv::FnvBuildHasher` abbreviates; building always yields the hasher's
/// default initial state.
#[verifier::external_type_specification]
#[verifier::external_body]
#[verifier::reject_recursive_types(H)]
pub struct ExBuildHasherDefault<H>(std::hash::BuildHasherDefault<H>);

/// The FNV-1a hash of a text's characters. The underlying hasher reads the
/// text's UTF-8 bytes, which are determined by the characters alone.
pub uninterp spec fn text_hash(s: Seq<char>) -> u64;

/// Relies on `fnv::FnvHasher` (and `BuildHasherDefault`, which builds it in
/// its default initial state): writing a byte slice folds each byte into the
/// state with xor followed by a wrapping multiply by the 64-bit FNV prime,
/// starting from the FNV offset basis.
#[verifier::external_body]
pub(crate) fn fnv_hash_bytes(hasher: &fnv::FnvBuildHasher, bytes: &[u8]) -> (r: u64)
    ensures
        r == fnv1a_of(bytes@),
{
    let mut h = hasher.build_hasher();
    h.write(bytes);
    h.finish()
}

/// Relies on `fnv::FnvHasher` over `str::as_bytes`: the hash is the FNV-1a
/// fold of the text's UTF-8 bytes, a function of its characters alone.
#[verifier::external_body]
pub(crate) fn fnv_hash_text(hasher: &fnv::FnvBuildHasher, text: &str) -> (r: u64)
    ensures
        r == text_hash(text@),
{
    let mut h = hasher.build_hasher();
    h.write(text.as_bytes());
    h.finish()
}

/// Relies on `Default` for `std::hash::BuildHasherDefault`: the FNV hashing
/// strategy is a zero-sized builder with a single possible value.
#[verifier::external_body]
pub(crate) fn default_fnv_hasher() -> fnv::FnvBuildHasher {
    fnv::FnvBuildHasher::default()
}

/// A value kind that a canonical table can intern: it can be compared for
/// full equality, cloned into an owned canonical copy, and hashed
/// consistently with equality (the hash is a function of the value's view).
pub trait PoolValue: View + Sized {
    /// The hash the table indexes this value by, as a function of its
    /// mathematical view, so that equal values always hash alike.
    spec fn hash_spec(v: Self::V) -> u64;

    /// Full value comparison: the second tier of the equality protocol.
    fn eq_value(&self, other: &Self) -> (r: bool)
        ensures
            r == (self@ == other@),
    ;

    /// Clone a borrowed candidate into the owned form the table stores.
    fn clone_value(&self) -> (r: Self)
        ensures
            r@ == self@,
    ;

    /// Compute this value's hash with the pool's hashing strategy.
    fn hash_value(&self, hasher: &fnv::FnvBuildHasher) -> (r: u64)
        ensures
            r == Self::hash_spec(self@),
    ;
}

impl PoolValue for String {
    open spec fn hash_spec(v: Seq<char>) -> u64 {
        text_hash(v)
    }

    fn eq_value(&self, other: &Self) -> (r: bool)
        ensures
            r == (self@ == other@),
    {
        *self == *other
    }

    fn clone_value(&self) -> (r: Self)
        ensures
            r@ == self@,
    {
        self.clone()
    }

    fn hash_value(&self, hasher: &fnv::FnvBuildHasher) -> (r: u64)
        ensures
            r == Self::hash_spec(self@),
    {
        fnv_hash_text(hasher, self.as_str())
    }
}

impl PoolValue for Vec<u8> {
    open spec fn hash_spec(v: Seq<u8>) -> u64 {
        fnv1a_of(v)
    }

    fn eq_value(&self, other: &Self) -> (r: bool)
        ensures
            r == (self@ == other@),
    {
        if self.len() != other.len() {
            return false;
        }
        let mut i: usize = 0;
        while i < self.len()
            invariant
                i <= self@.len(),
                self@.len() == other@.len(),
                forall|j: int| 0 <= j < i ==> self@[j] == other@[j],
            decreases self@.len() - i,
        {
            if self[i] != other[i] {
                return false;
            }
            i += 1;
        }
        proof {
            assert(self@ =~= other@);
        }
        true
    }

    fn clone_value(&self) -> (r: Self)
        ensures
            r@ == self@,
    {
        let mut out: Vec<u8> = Vec::new();
        let mut i: usize = 0;
        while i < self.len()
            invariant
                i <= self@.len(),
                out@.len() == i,
                forall|j: int| 0 <= j < i ==> out@[j] == self@[j],
            decreases self@.len() - i,
        {
            out.push(self[i]);
            i += 1;
        }
        proof {
            assert(out@ =~= self@);
        }
        out
    }

    fn hash_value(&self, hasher: &fnv::FnvBuildHasher) -> (r: u64)
        ensures
            r == Self::hash_spec(self@),
    {
        fnv_hash_bytes(hasher, self.as_slice())
    }
}

/// A filesystem path held as its textual form, so that path values can be
/// compared, hashed and stored as plain data.
pub struct PoolPath {
    text: String,
}

impl View for PoolPath {
    type V = Seq<char>;

    closed spec fn view(&self) -> Seq<char> {
        self.text@
    }
}

impl PoolPath {
    /// Wrap a path's textual form.
    pub fn new(text: String) -> (r: PoolPath)
        ensures
            r@ == text@,
    {
        PoolPath { text }
    }

    /// The path's textual form.
    pub fn text(&self) -> (r: &String)
        ensures
            r@ == self@,
    {
        &self.text
    }
}

impl PoolValue for PoolPath {
    open spec fn hash_spec(v: Seq<char>) -> u64 {
        text_hash(v)
    }

    fn eq_value(&self, other: &Self) -> (r: bool)
        ensures
            r == (self@ == other@),
    {
        self.text == other.text
    }

    fn clone_value(&self) -> (r: Self)
        ensures
            r@ == self@,
    {
        PoolPath { text: self.text.clone() }
    }

    fn hash_value(&self, hasher: &fnv::FnvBuildHasher) -> (r: u64)
        ensures
            r == Self::hash_spec(self@),
    {
        fnv_hash_text(hasher, self.text.as_str())
    }
}

} // verus!

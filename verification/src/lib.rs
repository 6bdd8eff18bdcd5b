//! A value-interning pool: at most one live canonical copy of any given
//! immutable value exists in a table at a time, and callers hold cheap,
//! reference-counted handles to that copy.

use vstd::prelude::*;

pub mod laws;
pub mod pool;
pub mod table;
pub mod value;

verus! {

/// A pool of interned strings.
pub type StringPool = crate::pool::SharedPool<String>;

/// A pool of interned filesystem paths, held in their textual form.
pub type PathPool = crate::pool::SharedPool<crate::value::PoolPath>;

/// A pool of interned byte buffers.
pub type BufferPool = crate::pool::SharedPool<Vec<u8>>;

/// The FNV-1a offset basis, the hash of the empty byte sequence.
pub open spec fn fnv_offset_basis() -> u64 {
    0xcbf29ce484222325u64
}

/// One FNV-1a round: fold one byte into the running hash with xor, then a
/// wrapping multiply by the 64-bit FNV prime.
pub open spec fn fnv_step(h: u64, b: u8) -> u64 {
    ((((h ^ (b as u64)) as int) * 0x100000001b3) % 0x10000000000000000) as u64
}

/// The FNV-1a hash of a byte sequence, folded left to right.
pub open spec fn fnv1a_of(bytes: Seq<u8>) -> u64
    decreases bytes.len(),
{
    if bytes.len() == 0 {
        fnv_offset_basis()
    } else {
        fnv_step(fnv1a_of(bytes.drop_last()), bytes.last())
    }
}

} // verus!

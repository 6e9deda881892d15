//! Content hashing: the fixed-width Blake2b-256 digest used for block
//! content hashes, block identity and stake-pool identifiers.

use vstd::prelude::*;
use blake2::Digest;
use crate::packer::{extend_bytes, bytes_eq, ReadBuf, ReadError};

verus! {

broadcast use vstd::group_vstd_default;

/// Width of a Blake2b-256 digest in bytes.
pub const HASH_SIZE: usize = 32;

/// What the Blake2b-256 digest of a byte sequence is.  The digest is a
/// function of the input bytes alone; nothing shorter than the algorithm
/// itself could state it, so it stands as a name.
pub uninterp spec fn blake2b_256_of(s: Seq<u8>) -> Seq<u8>;

/// Relies on blake2's `Blake2b` with a 32-byte output parameter: the digest
/// depends on the input bytes alone and is 32 bytes wide.
#[verifier::external_body]
fn blake2b_256(input: &[u8]) -> (r: Vec<u8>)
    ensures
        r@ == blake2b_256_of(input@),
        r@.len() == HASH_SIZE,
{
    let mut h = blake2::Blake2b::<blake2::digest::consts::U32>::new();
    h.update(input);
    h.finalize().to_vec()
}

/// A wrong-width input handed to `try_from_slice`.
#[derive(Clone, Copy, Debug, PartialEq, Eq, Structural)]
pub enum HashError {
    InvalidSize { expected: usize, actual: usize },
}

/// An opaque fixed-width Blake2b-256 digest: a plain byte array whose
/// equality is byte equality.
#[derive(Debug)]
pub struct Hash {
    bytes: Vec<u8>,
}

impl View for Hash {
    type V = Seq<u8>;

    closed spec fn view(&self) -> Seq<u8> {
        self.bytes@
    }
}

impl Clone for Hash {
    fn clone(&self) -> (r: Self)
        ensures
            r@ == self@,
    {
        proof {
            use_type_invariant(&*self);
        }
        let mut v: Vec<u8> = Vec::new();
        extend_bytes(&mut v, self.bytes.as_slice());
        Hash { bytes: v }
    }
}

impl PartialEq for Hash {
    fn eq(&self, other: &Self) -> (r: bool) {
        bytes_eq(&self.bytes, &other.bytes)
    }
}

impl vstd::std_specs::cmp::PartialEqSpecImpl for Hash {
    open spec fn obeys_eq_spec() -> bool {
        true
    }

    open spec fn eq_spec(&self, other: &Self) -> bool {
        self@ == other@
    }
}

impl Eq for Hash {}

impl Hash {
    #[verifier::type_invariant]
    closed spec fn wf(self) -> bool {
        self.bytes@.len() == HASH_SIZE
    }

    /// Digest arbitrary bytes.
    pub fn hash_bytes(input: &[u8]) -> (r: Self)
        ensures
            r@ == blake2b_256_of(input@),
            r@.len() == HASH_SIZE,
    {
        Hash { bytes: blake2b_256(input) }
    }

    /// Accept exactly `HASH_SIZE` bytes; any other length fails.
    pub fn try_from_slice(bytes: &[u8]) -> (r: Result<Self, HashError>)
        ensures
            match r {
                Ok(h) => bytes@.len() == HASH_SIZE && h@ == bytes@,
                Err(e) => bytes@.len() != HASH_SIZE && e == (HashError::InvalidSize {
                    expected: HASH_SIZE,
                    actual: bytes@.len() as usize,
                }),
            },
    {
        if bytes.len() == HASH_SIZE {
            let mut v: Vec<u8> = Vec::new();
            extend_bytes(&mut v, bytes);
            Ok(Hash { bytes: v })
        } else {
            Err(HashError::InvalidSize { expected: HASH_SIZE, actual: bytes.len() })
        }
    }

    /// The raw digest bytes.
    pub fn as_bytes(&self) -> (r: &Vec<u8>)
        ensures
            r@ == self@,
            r@.len() == HASH_SIZE,
    {
        proof {
            use_type_invariant(&*self);
        }
        &self.bytes
    }

    /// Append the raw digest bytes to a byte sink.
    pub fn serialize(&self, out: &mut Vec<u8>)
        ensures
            final(out)@ == old(out)@ + self@,
            self@.len() == HASH_SIZE,
    {
        proof {
            use_type_invariant(&*self);
        }
        extend_bytes(out, self.bytes.as_slice());
    }

    /// Consume exactly `HASH_SIZE` bytes as a digest.
    pub fn read(rb: &mut ReadBuf) -> (r: Result<Self, ReadError>)
        ensures
            final(rb).all_bytes() == old(rb).all_bytes(),
            0 <= old(rb).pos(),
            final(rb).pos() <= final(rb).all_bytes().len(),
            match r {
                Ok(h) => {
                    &&& old(rb).remaining_spec() >= HASH_SIZE
                    &&& final(rb).pos() == old(rb).pos() + HASH_SIZE
                    &&& h@ == old(rb).all_bytes().subrange(
                        old(rb).pos(),
                        old(rb).pos() + HASH_SIZE,
                    )
                },
                Err(e) => {
                    &&& old(rb).remaining_spec() < HASH_SIZE
                    &&& final(rb).pos() == old(rb).pos()
                    &&& e == (ReadError::NotEnough {
                        requested: HASH_SIZE,
                        remaining: old(rb).remaining_spec() as usize,
                    })
                },
            },
    {
        let sl = match rb.get_slice(HASH_SIZE) {
            Ok(sl) => sl,
            Err(e) => {
                return Err(e);
            },
        };
        Ok(Hash { bytes: vstd::slice::slice_to_vec(sl) })
    }
}

} // verus!

//! Public keys, secret keys and signatures of the spending scheme
//! (Ed25519), the legacy extended public key, and the KES/VRF public keys
//! carried by Genesis-Praos proofs.
//!
//! Keys and signatures serialize as raw bytes of the scheme's defined
//! width, with no length prefix: the width is implied by the scheme.

use vstd::prelude::*;
use ed25519_dalek::{Signer, Verifier};
use crate::packer::{extend_bytes, bytes_eq, ReadBuf, ReadError};

verus! {

broadcast use vstd::group_vstd_default;

/// Width of a spending public key in bytes.
pub const PUBLIC_KEY_SIZE: usize = 32;

/// Width of a spending secret key in bytes.
pub const SECRET_KEY_SIZE: usize = 32;

/// Width of a signature in bytes.
pub const SIGNATURE_SIZE: usize = 64;

/// Width of a legacy extended public key in bytes.
pub const XPUB_SIZE: usize = 64;

/// Width of a KES public key in bytes.
pub const KES_PUBLIC_KEY_SIZE: usize = 32;

/// Width of a VRF public key in bytes.
pub const VRF_PUBLIC_KEY_SIZE: usize = 32;

/// The outcome of verifying a signature: a value, not an error.
#[derive(Clone, Copy, Debug, PartialEq, Eq, Structural)]
pub enum Verification {
    Failed,
    Success,
}

/// What public key the scheme derives from a secret key.
pub uninterp spec fn ed25519_public_of(sk: Seq<u8>) -> Seq<u8>;

/// What signature the scheme produces for a secret key and a message; the
/// scheme's signing is deterministic, so this is a function of the two.
pub uninterp spec fn ed25519_sign_of(sk: Seq<u8>, msg: Seq<u8>) -> Seq<u8>;

/// Whether the scheme accepts a signature for a public key and a message.
pub uninterp spec fn ed25519_verifies(pk: Seq<u8>, msg: Seq<u8>, sig: Seq<u8>) -> bool;

/// Relies on ed25519-dalek's `SigningKey::from_bytes` and `verifying_key`:
/// the public key is a function of the 32 secret bytes alone, 32 bytes wide.
#[verifier::external_body]
fn ed25519_derive_public(sk: &[u8]) -> (r: Vec<u8>)
    requires
        sk@.len() == SECRET_KEY_SIZE,
    ensures
        r@ == ed25519_public_of(sk@),
        r@.len() == PUBLIC_KEY_SIZE,
{
    let arr: [u8; 32] = sk.try_into().unwrap();
    let signing = ed25519_dalek::SigningKey::from_bytes(&arr);
    signing.verifying_key().to_bytes().to_vec()
}

/// Relies on ed25519-dalek's `Signer::sign`: signing is deterministic in
/// the key and message, yields 64 bytes, and `Verifier::verify` accepts the
/// signature it produced under the derived public key.
#[verifier::external_body]
fn ed25519_sign(sk: &[u8], msg: &[u8]) -> (r: Vec<u8>)
    requires
        sk@.len() == SECRET_KEY_SIZE,
    ensures
        r@ == ed25519_sign_of(sk@, msg@),
        r@.len() == SIGNATURE_SIZE,
        ed25519_verifies(ed25519_public_of(sk@), msg@, r@),
{
    let arr: [u8; 32] = sk.try_into().unwrap();
    let signing = ed25519_dalek::SigningKey::from_bytes(&arr);
    signing.sign(msg).to_bytes().to_vec()
}

/// Relies on ed25519-dalek's `VerifyingKey::from_bytes` and
/// `Verifier::verify`: acceptance is a function of key, message and
/// signature alone; a byte string that is no curve point accepts nothing.
#[verifier::external_body]
fn ed25519_verify(pk: &[u8], msg: &[u8], sig: &[u8]) -> (r: bool)
    requires
        pk@.len() == PUBLIC_KEY_SIZE,
        sig@.len() == SIGNATURE_SIZE,
    ensures
        r == ed25519_verifies(pk@, msg@, sig@),
{
    let pk_arr: [u8; 32] = pk.try_into().unwrap();
    let vk = match ed25519_dalek::VerifyingKey::from_bytes(&pk_arr) {
        Ok(k) => k,
        Err(_) => {
            return false;
        },
    };
    let sig_arr: [u8; 64] = sig.try_into().unwrap();
    let s = ed25519_dalek::Signature::from_bytes(&sig_arr);
    vk.verify(msg, &s).is_ok()
}

/// A spending public key: raw scheme-width bytes.
#[derive(Debug)]
pub struct PublicKey {
    bytes: Vec<u8>,
}

impl View for PublicKey {
    type V = Seq<u8>;

    closed spec fn view(&self) -> Seq<u8> {
        self.bytes@
    }
}

impl Clone for PublicKey {
    fn clone(&self) -> (r: Self)
        ensures
            r@ == self@,
    {
        proof {
            use_type_invariant(&*self);
        }
        let mut v: Vec<u8> = Vec::new();
        extend_bytes(&mut v, self.bytes.as_slice());
        PublicKey { bytes: v }
    }
}

impl PartialEq for PublicKey {
    fn eq(&self, other: &Self) -> (r: bool) {
        bytes_eq(&self.bytes, &other.bytes)
    }
}

impl vstd::std_specs::cmp::PartialEqSpecImpl for PublicKey {
    open spec fn obeys_eq_spec() -> bool {
        true
    }

    open spec fn eq_spec(&self, other: &Self) -> bool {
        self@ == other@
    }
}

impl Eq for PublicKey {}

impl PublicKey {
    #[verifier::type_invariant]
    closed spec fn wf(self) -> bool {
        self.bytes@.len() == PUBLIC_KEY_SIZE
    }

    /// Take ownership of raw key bytes of the scheme's width.
    pub fn from_bytes(bytes: Vec<u8>) -> (r: Self)
        requires
            bytes@.len() == PUBLIC_KEY_SIZE,
        ensures
            r@ == bytes@,
    {
        PublicKey { bytes }
    }

    pub fn as_bytes(&self) -> (r: &Vec<u8>)
        ensures
            r@ == self@,
            r@.len() == PUBLIC_KEY_SIZE,
    {
        proof {
            use_type_invariant(&*self);
        }
        &self.bytes
    }
}

/// A spending secret key: raw scheme-width bytes.
pub struct SecretKey {
    bytes: Vec<u8>,
}

impl View for SecretKey {
    type V = Seq<u8>;

    closed spec fn view(&self) -> Seq<u8> {
        self.bytes@
    }
}

impl SecretKey {
    #[verifier::type_invariant]
    closed spec fn wf(self) -> bool {
        self.bytes@.len() == SECRET_KEY_SIZE
    }

    /// Take ownership of raw key bytes of the scheme's width.
    pub fn from_bytes(bytes: Vec<u8>) -> (r: Self)
        requires
            bytes@.len() == SECRET_KEY_SIZE,
        ensures
            r@ == bytes@,
    {
        SecretKey { bytes }
    }

    pub fn as_bytes(&self) -> (r: &Vec<u8>)
        ensures
            r@ == self@,
            r@.len() == SECRET_KEY_SIZE,
    {
        proof {
            use_type_invariant(&*self);
        }
        &self.bytes
    }

    /// The public key this secret key derives.
    pub fn to_public(&self) -> (r: PublicKey)
        ensures
            r@ == ed25519_public_of(self@),
            r@.len() == PUBLIC_KEY_SIZE,
    {
        proof {
            use_type_invariant(&*self);
        }
        PublicKey { bytes: ed25519_derive_public(self.bytes.as_slice()) }
    }

    /// Sign a message with this secret key.
    pub fn sign(&self, msg: &[u8]) -> (r: Signature)
        ensures
            r@ == ed25519_sign_of(self@, msg@),
            r@.len() == SIGNATURE_SIZE,
            ed25519_verifies(ed25519_public_of(self@), msg@, r@),
    {
        proof {
            use_type_invariant(&*self);
        }
        Signature { bytes: ed25519_sign(self.bytes.as_slice(), msg) }
    }
}

/// A signature: raw scheme-width bytes.
#[derive(Debug)]
pub struct Signature {
    bytes: Vec<u8>,
}

impl View for Signature {
    type V = Seq<u8>;

    closed spec fn view(&self) -> Seq<u8> {
        self.bytes@
    }
}

impl Clone for Signature {
    fn clone(&self) -> (r: Self)
        ensures
            r@ == self@,
    {
        proof {
            use_type_invariant(&*self);
        }
        let mut v: Vec<u8> = Vec::new();
        extend_bytes(&mut v, self.bytes.as_slice());
        Signature { bytes: v }
    }
}

impl PartialEq for Signature {
    fn eq(&self, other: &Self) -> (r: bool) {
        bytes_eq(&self.bytes, &other.bytes)
    }
}

impl vstd::std_specs::cmp::PartialEqSpecImpl for Signature {
    open spec fn obeys_eq_spec() -> bool {
        true
    }

    open spec fn eq_spec(&self, other: &Self) -> bool {
        self@ == other@
    }
}

impl Eq for Signature {}

impl Signature {
    #[verifier::type_invariant]
    closed spec fn wf(self) -> bool {
        self.bytes@.len() == SIGNATURE_SIZE
    }

    /// Take ownership of raw signature bytes of the scheme's width.
    pub fn from_bytes(bytes: Vec<u8>) -> (r: Self)
        requires
            bytes@.len() == SIGNATURE_SIZE,
        ensures
            r@ == bytes@,
    {
        Signature { bytes }
    }

    pub fn as_bytes(&self) -> (r: &Vec<u8>)
        ensures
            r@ == self@,
            r@.len() == SIGNATURE_SIZE,
    {
        proof {
            use_type_invariant(&*self);
        }
        &self.bytes
    }

    /// Verify this signature on a message under a public key.
    pub fn verify(&self, pk: &PublicKey, msg: &[u8]) -> (r: Verification)
        ensures
            r == (if ed25519_verifies(pk@, msg@, self@) {
                Verification::Success
            } else {
                Verification::Failed
            }),
    {
        proof {
            use_type_invariant(&*self);
            use_type_invariant(&*pk);
        }
        if ed25519_verify(pk.as_bytes().as_slice(), msg, self.bytes.as_slice()) {
            Verification::Success
        } else {
            Verification::Failed
        }
    }
}

/// A legacy extended public key: raw 64 bytes.
#[derive(Debug)]
pub struct Bip32PublicKey {
    bytes: Vec<u8>,
}

impl View for Bip32PublicKey {
    type V = Seq<u8>;

    closed spec fn view(&self) -> Seq<u8> {
        self.bytes@
    }
}

impl Clone for Bip32PublicKey {
    fn clone(&self) -> (r: Self)
        ensures
            r@ == self@,
    {
        proof {
            use_type_invariant(&*self);
        }
        let mut v: Vec<u8> = Vec::new();
        extend_bytes(&mut v, self.bytes.as_slice());
        Bip32PublicKey { bytes: v }
    }
}

impl Bip32PublicKey {
    #[verifier::type_invariant]
    closed spec fn wf(self) -> bool {
        self.bytes@.len() == XPUB_SIZE
    }

    pub fn from_bytes(bytes: Vec<u8>) -> (r: Self)
        requires
            bytes@.len() == XPUB_SIZE,
        ensures
            r@ == bytes@,
    {
        Bip32PublicKey { bytes }
    }

    pub fn as_bytes(&self) -> (r: &Vec<u8>)
        ensures
            r@ == self@,
            r@.len() == XPUB_SIZE,
    {
        proof {
            use_type_invariant(&*self);
        }
        &self.bytes
    }
}

/// A BFT leader identifier: a spending-scheme public key.
#[derive(Debug)]
pub struct LeaderId {
    bytes: Vec<u8>,
}

impl View for LeaderId {
    type V = Seq<u8>;

    closed spec fn view(&self) -> Seq<u8> {
        self.bytes@
    }
}

impl Clone for LeaderId {
    fn clone(&self) -> (r: Self)
        ensures
            r@ == self@,
    {
        proof {
            use_type_invariant(&*self);
        }
        let mut v: Vec<u8> = Vec::new();
        extend_bytes(&mut v, self.bytes.as_slice());
        LeaderId { bytes: v }
    }
}

impl PartialEq for LeaderId {
    fn eq(&self, other: &Self) -> (r: bool) {
        bytes_eq(&self.bytes, &other.bytes)
    }
}

impl vstd::std_specs::cmp::PartialEqSpecImpl for LeaderId {
    open spec fn obeys_eq_spec() -> bool {
        true
    }

    open spec fn eq_spec(&self, other: &Self) -> bool {
        self@ == other@
    }
}

impl Eq for LeaderId {}

impl LeaderId {
    #[verifier::type_invariant]
    closed spec fn wf(self) -> bool {
        self.bytes@.len() == PUBLIC_KEY_SIZE
    }

    pub fn from_bytes(bytes: Vec<u8>) -> (r: Self)
        requires
            bytes@.len() == PUBLIC_KEY_SIZE,
        ensures
            r@ == bytes@,
    {
        LeaderId { bytes }
    }

    pub fn as_bytes(&self) -> (r: &Vec<u8>)
        ensures
            r@ == self@,
            r@.len() == PUBLIC_KEY_SIZE,
    {
        proof {
            use_type_invariant(&*self);
        }
        &self.bytes
    }
}

/// Append raw fixed-width key or signature bytes.
pub fn serialize_raw(bytes: &Vec<u8>, out: &mut Vec<u8>)
    ensures
        final(out)@ == old(out)@ + bytes@,
{
    extend_bytes(out, bytes.as_slice());
}

/// Consume exactly `n` bytes as an owned vector.
pub fn read_raw(rb: &mut ReadBuf, n: usize) -> (r: Result<Vec<u8>, ReadError>)
    ensures
        final(rb).all_bytes() == old(rb).all_bytes(),
        0 <= old(rb).pos(),
        final(rb).pos() <= final(rb).all_bytes().len(),
        match r {
            Ok(v) => {
                &&& old(rb).remaining_spec() >= n
                &&& final(rb).pos() == old(rb).pos() + n
                &&& v@ == old(rb).all_bytes().subrange(old(rb).pos(), old(rb).pos() + n)
            },
            Err(e) => {
                &&& old(rb).remaining_spec() < n
                &&& final(rb).pos() == old(rb).pos()
                &&& e == (ReadError::NotEnough {
                    requested: n,
                    remaining: old(rb).remaining_spec() as usize,
                })
            },
        },
{
    let sl = match rb.get_slice(n) {
        Ok(sl) => sl,
        Err(e) => {
            return Err(e);
        },
    };
    Ok(vstd::slice::slice_to_vec(sl))
}

/// A KES public key: raw scheme-width bytes.
#[derive(Debug)]
pub struct KesPublicKey {
    bytes: Vec<u8>,
}

impl View for KesPublicKey {
    type V = Seq<u8>;

    closed spec fn view(&self) -> Seq<u8> {
        self.bytes@
    }
}

impl KesPublicKey {
    #[verifier::type_invariant]
    closed spec fn wf(self) -> bool {
        self.bytes@.len() == KES_PUBLIC_KEY_SIZE
    }

    pub fn from_bytes(bytes: Vec<u8>) -> (r: Self)
        requires
            bytes@.len() == KES_PUBLIC_KEY_SIZE,
        ensures
            r@ == bytes@,
    {
        KesPublicKey { bytes }
    }

    pub fn as_bytes(&self) -> (r: &Vec<u8>)
        ensures
            r@ == self@,
            r@.len() == KES_PUBLIC_KEY_SIZE,
    {
        proof {
            use_type_invariant(&*self);
        }
        &self.bytes
    }
}

impl Clone for KesPublicKey {
    fn clone(&self) -> (r: Self)
        ensures
            r@ == self@,
    {
        proof {
            use_type_invariant(&*self);
        }
        let mut v: Vec<u8> = Vec::new();
        extend_bytes(&mut v, self.bytes.as_slice());
        KesPublicKey { bytes: v }
    }
}

/// A VRF public key: raw scheme-width bytes.
#[derive(Debug)]
pub struct VrfPublicKey {
    bytes: Vec<u8>,
}

impl View for VrfPublicKey {
    type V = Seq<u8>;

    closed spec fn view(&self) -> Seq<u8> {
        self.bytes@
    }
}

impl VrfPublicKey {
    #[verifier::type_invariant]
    closed spec fn wf(self) -> bool {
        self.bytes@.len() == VRF_PUBLIC_KEY_SIZE
    }

    pub fn from_bytes(bytes: Vec<u8>) -> (r: Self)
        requires
            bytes@.len() == VRF_PUBLIC_KEY_SIZE,
        ensures
            r@ == bytes@,
    {
        VrfPublicKey { bytes }
    }

    pub fn as_bytes(&self) -> (r: &Vec<u8>)
        ensures
            r@ == self@,
            r@.len() == VRF_PUBLIC_KEY_SIZE,
    {
        proof {
            use_type_invariant(&*self);
        }
        &self.bytes
    }
}

impl Clone for VrfPublicKey {
    fn clone(&self) -> (r: Self)
        ensures
            r@ == self@,
    {
        proof {
            use_type_invariant(&*self);
        }
        let mut v: Vec<u8> = Vec::new();
        extend_bytes(&mut v, self.bytes.as_slice());
        VrfPublicKey { bytes: v }
    }
}

} // verus!

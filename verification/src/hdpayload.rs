//! The hierarchical-deterministic address payload: a derivation path,
//! encoded in the self-describing tag codec, sealed with
//! ChaCha20-Poly1305 under a key derived by PBKDF2-HMAC-SHA512 from the
//! root public key.
//!
//! The key-derivation parameters — the root public key as password, the
//! fixed salt, 500 iterations — and the fixed nonce are wire constants of
//! an existing chain and must not change.  The fixed nonce is sound only
//! because each key encrypts payloads of a single account: callers must
//! keep that discipline.

use vstd::prelude::*;
use chacha20poly1305::KeyInit;
use chacha20poly1305::aead::Aead;
use crate::packer::{extend_bytes, bytes_eq, ReadError};
use crate::cbor::{
    path_enc, parse_path, cbor_head, cbor_u32s_enc, write_path, read_path,
    lemma_path_round_trip,
};

verus! {

broadcast use vstd::group_vstd_default;

/// Width of an HD symmetric key in bytes.
pub const HDKEY_SIZE: usize = 32;

/// Width of the authentication tag in bytes.
pub const TAG_LEN: usize = 16;

/// PBKDF2 iteration count: a wire constant.
pub const KDF_ITERATIONS: u32 = 500;

/// The fixed nonce, a wire constant.
pub open spec fn nonce_seq() -> Seq<u8> {
    seq![0x73u8, 0x65, 0x72, 0x6f, 0x6b, 0x65, 0x6c, 0x6c, 0x66, 0x6f, 0x72, 0x65]
}

/// The fixed key-derivation salt, a wire constant.
pub open spec fn salt_seq() -> Seq<u8> {
    seq![0x61u8, 0x64, 0x64, 0x72, 0x65, 0x73, 0x73, 0x2d, 0x68, 0x61, 0x73, 0x68, 0x69, 0x6e, 0x67]
}

fn nonce_bytes() -> (r: Vec<u8>)
    ensures
        r@ == nonce_seq(),
{
    let v = vec![0x73u8, 0x65, 0x72, 0x6f, 0x6b, 0x65, 0x6c, 0x6c, 0x66, 0x6f, 0x72, 0x65];
    proof {
        assert(v@ =~= nonce_seq());
    }
    v
}

fn salt_bytes() -> (r: Vec<u8>)
    ensures
        r@ == salt_seq(),
{
    let v = vec![
        0x61u8, 0x64, 0x64, 0x72, 0x65, 0x73, 0x73, 0x2d, 0x68, 0x61, 0x73, 0x68, 0x69, 0x6e,
        0x67,
    ];
    proof {
        assert(v@ =~= salt_seq());
    }
    v
}

/// What sealing a plaintext under a key and nonce yields: ciphertext then
/// a 16-byte tag.  The construction is deterministic in its inputs.
pub uninterp spec fn chacha_seal(key: Seq<u8>, nonce: Seq<u8>, pt: Seq<u8>) -> Seq<u8>;

/// What opening a sealed input under a key and nonce yields: the plaintext
/// when the tag authenticates, nothing otherwise.
pub uninterp spec fn chacha_open(key: Seq<u8>, nonce: Seq<u8>, ct: Seq<u8>) -> Option<Seq<u8>>;

/// What PBKDF2-HMAC-SHA512 derives from a password and salt at a given
/// iteration count and output width.
pub uninterp spec fn pbkdf2_sha512(
    password: Seq<u8>,
    salt: Seq<u8>,
    iterations: u32,
    key_len: nat,
) -> Seq<u8>;

/// Relies on chacha20poly1305's `Aead::encrypt` with empty associated
/// data: output is ciphertext followed by the 16-byte tag, deterministic
/// in key, nonce and plaintext, and `Aead::decrypt` opens it back.
#[verifier::external_body]
fn chacha_encrypt(key: &[u8], nonce: &[u8], pt: &[u8]) -> (r: Vec<u8>)
    requires
        key@.len() == HDKEY_SIZE,
        nonce@.len() == 12,
        pt@.len() < 0x100000000,
    ensures
        r@ == chacha_seal(key@, nonce@, pt@),
        r@.len() == pt@.len() + TAG_LEN,
        chacha_open(key@, nonce@, r@) == Some(pt@),
{
    let cipher = chacha20poly1305::ChaCha20Poly1305::new_from_slice(key).unwrap();
    cipher.encrypt(chacha20poly1305::Nonce::from_slice(nonce), pt).unwrap()
}

/// Relies on chacha20poly1305's `Aead::decrypt` with empty associated
/// data: deterministic in key, nonce and input; on success the plaintext
/// is 16 bytes shorter than the input; authentication failure is a value.
#[verifier::external_body]
fn chacha_decrypt(key: &[u8], nonce: &[u8], ct: &[u8]) -> (r: Option<Vec<u8>>)
    requires
        key@.len() == HDKEY_SIZE,
        nonce@.len() == 12,
    ensures
        match r {
            Some(pt) => chacha_open(key@, nonce@, ct@) == Some(pt@) && pt@.len() + TAG_LEN
                == ct@.len(),
            None => chacha_open(key@, nonce@, ct@) is None,
        },
{
    let cipher = chacha20poly1305::ChaCha20Poly1305::new_from_slice(key).unwrap();
    match cipher.decrypt(chacha20poly1305::Nonce::from_slice(nonce), ct) {
        Ok(v) => Some(v),
        Err(_) => None,
    }
}

/// Relies on pbkdf2's `pbkdf2_hmac` over sha2's `Sha512`: the derived key
/// is a function of password, salt, iteration count and width alone.
#[verifier::external_body]
fn pbkdf2_sha512_derive(password: &[u8], salt: &[u8], iterations: u32, key_len: usize) -> (r:
    Vec<u8>)
    ensures
        r@ == pbkdf2_sha512(password@, salt@, iterations, key_len as nat),
        r@.len() == key_len,
{
    let mut out = vec![0u8; key_len];
    pbkdf2::pbkdf2_hmac::<sha2::Sha512>(password, salt, iterations, &mut out);
    out
}

/// Whether two index vectors hold the same indices.
fn u32s_eq(a: &Vec<u32>, b: &Vec<u32>) -> (r: bool)
    ensures
        r == (a@ == b@),
{
    if a.len() != b.len() {
        proof {
            assert(a@ != b@);
        }
        return false;
    }
    let mut i: usize = 0;
    while i < a.len()
        invariant
            0 <= i <= a@.len(),
            a@.len() == b@.len(),
            forall|j: int| 0 <= j < i ==> a@[j] == b@[j],
        decreases a@.len() - i,
    {
        if a[i] != b[i] {
            return false;
        }
        i = i + 1;
    }
    proof {
        assert(a@ =~= b@);
    }
    true
}

/// The encoding of a path is short: at most five bytes an index, plus the
/// opening byte and the break.
pub proof fn lemma_path_enc_len(p: Seq<u32>)
    ensures
        cbor_u32s_enc(p).len() <= 5 * p.len(),
        2 <= path_enc(p).len() <= 2 + 5 * p.len(),
    decreases p.len(),
{
    if p.len() == 0 {
    } else {
        lemma_path_enc_len(p.skip(1));
        assert(cbor_head(0, p[0] as nat).len() <= 5);
    }
}

/// A derivation path: an ordered list of 32-bit child indices describing a
/// position in an HD key tree.
#[derive(Debug)]
pub struct Path {
    indices: Vec<u32>,
}

impl View for Path {
    type V = Seq<u32>;

    closed spec fn view(&self) -> Seq<u32> {
        self.indices@
    }
}

impl Clone for Path {
    fn clone(&self) -> (r: Self)
        ensures
            r@ == self@,
    {
        let mut v: Vec<u32> = Vec::new();
        let mut i: usize = 0;
        while i < self.indices.len()
            invariant
                0 <= i <= self@.len(),
                v@ == self@.take(i as int),
            decreases self@.len() - i,
        {
            v.push(self.indices[i]);
            i = i + 1;
            assert(v@ =~= self@.take(i as int));
        }
        proof {
            assert(self@.take(self@.len() as int) =~= self@);
        }
        Path { indices: v }
    }
}

impl PartialEq for Path {
    fn eq(&self, other: &Self) -> (r: bool) {
        u32s_eq(&self.indices, &other.indices)
    }
}

impl vstd::std_specs::cmp::PartialEqSpecImpl for Path {
    open spec fn obeys_eq_spec() -> bool {
        true
    }

    open spec fn eq_spec(&self, other: &Self) -> bool {
        self@ == other@
    }
}

impl Eq for Path {}

impl Path {
    pub fn new(v: Vec<u32>) -> (r: Self)
        ensures
            r@ == v@,
    {
        Path { indices: v }
    }

    /// The child indices, in order.
    pub fn as_vec(&self) -> (r: &Vec<u32>)
        ensures
            r@ == self@,
    {
        &self.indices
    }

    /// The path in the self-describing tag codec: an indefinite array of
    /// unsigned integers.
    pub fn cbor(&self) -> (r: Vec<u8>)
        ensures
            r@ == path_enc(self@),
    {
        let mut out: Vec<u8> = Vec::new();
        write_path(&mut out, &self.indices);
        out
    }

    /// Decode a path from exactly one encoded array.
    pub fn from_cbor(bytes: &[u8]) -> (r: Result<Self, ReadError>)
        ensures
            match r {
                Ok(p) => parse_path(bytes@) == Some(p@),
                Err(_) => parse_path(bytes@) is None,
            },
    {
        match read_path(bytes) {
            Ok(v) => Ok(Path { indices: v }),
            Err(e) => Err(e),
        }
    }
}

/// What decrypting a sealed byte string under an HD key yields: nothing
/// for an input too short to carry a tag and a byte, else whatever the
/// cipher opens.
pub open spec fn decrypt_bytes_spec(key: Seq<u8>, input: Seq<u8>) -> Option<Seq<u8>> {
    if input.len() < TAG_LEN + 1 {
        None
    } else {
        chacha_open(key, nonce_seq(), input)
    }
}

/// What decrypting an address payload yields: the path its plaintext
/// encodes, if the payload opens and the plaintext is exactly one path.
pub open spec fn decrypt_path_spec(key: Seq<u8>, payload: Seq<u8>) -> Option<Seq<u32>> {
    match decrypt_bytes_spec(key, payload) {
        Some(pt) => parse_path(pt),
        None => None,
    }
}

/// HD round trip: a payload that opens to the encoding of a path decrypts
/// to that path.  Together with the contract of `encrypt_path`, whose
/// result opens to the encoding it sealed, this says that
/// `decrypt_path` inverts `encrypt_path` for every key and path.
pub proof fn lemma_hd_round_trip(key: Seq<u8>, p: Seq<u32>, ct: Seq<u8>)
    requires
        ct.len() == path_enc(p).len() + TAG_LEN,
        chacha_open(key, nonce_seq(), ct) == Some(path_enc(p)),
    ensures
        decrypt_path_spec(key, ct) == Some(p),
{
    lemma_path_enc_len(p);
    lemma_path_round_trip(p);
}

/// A 32-byte symmetric key derived from an HD root public key, used solely
/// to seal and open that account's address payloads.
pub struct HDKey {
    bytes: Vec<u8>,
}

impl View for HDKey {
    type V = Seq<u8>;

    closed spec fn view(&self) -> Seq<u8> {
        self.bytes@
    }
}

impl HDKey {
    #[verifier::type_invariant]
    closed spec fn wf(self) -> bool {
        self.bytes@.len() == HDKEY_SIZE
    }

    /// Derive the key from the root public key's bytes: PBKDF2-HMAC-SHA512
    /// with the fixed salt and iteration count, 32 bytes out.
    pub fn new(root_pub: &[u8]) -> (r: Self)
        ensures
            r@ == pbkdf2_sha512(root_pub@, salt_seq(), KDF_ITERATIONS, HDKEY_SIZE as nat),
            r@.len() == HDKEY_SIZE,
    {
        let salt = salt_bytes();
        HDKey {
            bytes: pbkdf2_sha512_derive(root_pub, salt.as_slice(), KDF_ITERATIONS, HDKEY_SIZE),
        }
    }

    /// Create a key by taking ownership of the given bytes.
    pub fn from_bytes(bytes: [u8; HDKEY_SIZE]) -> (r: Self)
        ensures
            r@ == bytes@,
    {
        HDKey { bytes: vstd::slice::slice_to_vec(vstd::array::array_as_slice(&bytes)) }
    }

    /// Create a key from a slice of exactly the key width.
    pub fn from_slice(bytes: &[u8]) -> (r: Option<Self>)
        ensures
            match r {
                Some(k) => bytes@.len() == HDKEY_SIZE && k@ == bytes@,
                None => bytes@.len() != HDKEY_SIZE,
            },
    {
        if bytes.len() == HDKEY_SIZE {
            let mut v: Vec<u8> = Vec::new();
            extend_bytes(&mut v, bytes);
            Some(HDKey { bytes: v })
        } else {
            None
        }
    }

    /// The raw key bytes.
    pub fn as_bytes(&self) -> (r: &Vec<u8>)
        ensures
            r@ == self@,
    {
        &self.bytes
    }

    /// Seal arbitrary bytes under this key and the fixed nonce: ciphertext
    /// followed by the 16-byte tag.
    pub fn encrypt(&self, input: &[u8]) -> (r: Vec<u8>)
        requires
            input@.len() < 0x100000000,
        ensures
            r@ == chacha_seal(self@, nonce_seq(), input@),
            r@.len() == input@.len() + TAG_LEN,
            chacha_open(self@, nonce_seq(), r@) == Some(input@),
    {
        proof {
            use_type_invariant(&*self);
        }
        let nonce = nonce_bytes();
        chacha_encrypt(self.bytes.as_slice(), nonce.as_slice(), input)
    }

    /// Open a sealed input; too-short inputs and authentication failures
    /// yield nothing, never an error.
    pub fn decrypt(&self, input: &[u8]) -> (r: Option<Vec<u8>>)
        ensures
            match r {
                Some(pt) => decrypt_bytes_spec(self@, input@) == Some(pt@),
                None => decrypt_bytes_spec(self@, input@) is None,
            },
    {
        proof {
            use_type_invariant(&*self);
        }
        if input.len() < TAG_LEN + 1 {
            return None;
        }
        let nonce = nonce_bytes();
        chacha_decrypt(self.bytes.as_slice(), nonce.as_slice(), input)
    }

    /// Seal a derivation path: encode it, then encrypt the encoding.
    pub fn encrypt_path(&self, derivation_path: &Path) -> (r: HDAddressPayload)
        requires
            derivation_path@.len() <= 0x10000000,
        ensures
            r@ == chacha_seal(self@, nonce_seq(), path_enc(derivation_path@)),
            r@.len() == path_enc(derivation_path@).len() + TAG_LEN,
            chacha_open(self@, nonce_seq(), r@) == Some(path_enc(derivation_path@)),
    {
        proof {
            lemma_path_enc_len(derivation_path@);
        }
        let input = derivation_path.cbor();
        let out = self.encrypt(input.as_slice());
        HDAddressPayload::from_vec(out)
    }

    /// Open an address payload and decode the path it holds.
    pub fn decrypt_path(&self, payload: &HDAddressPayload) -> (r: Option<Path>)
        ensures
            match r {
                Some(p) => decrypt_path_spec(self@, payload@) == Some(p@),
                None => decrypt_path_spec(self@, payload@) is None,
            },
    {
        let out = match self.decrypt(payload.as_bytes().as_slice()) {
            Some(v) => v,
            None => {
                return None;
            },
        };
        match Path::from_cbor(out.as_slice()) {
            Ok(p) => Some(p),
            Err(_) => None,
        }
    }
}

/// What decoding an address payload from the tag codec yields: the
/// wrapped bytes, when the input holds exactly one wrapped byte string.
pub open spec fn payload_from_cbor_spec(s: Seq<u8>) -> Option<Seq<u8>> {
    match crate::cbor::parse_nested_bytes(s) {
        Some(bn) => if bn.1 == s.len() {
            Some(bn.0)
        } else {
            None
        },
        None => None,
    }
}

/// An opaque HD address payload: the sealed encoding of a derivation path.
#[derive(Debug)]
pub struct HDAddressPayload {
    bytes: Vec<u8>,
}

impl View for HDAddressPayload {
    type V = Seq<u8>;

    closed spec fn view(&self) -> Seq<u8> {
        self.bytes@
    }
}

impl Clone for HDAddressPayload {
    fn clone(&self) -> (r: Self)
        ensures
            r@ == self@,
    {
        let mut v: Vec<u8> = Vec::new();
        extend_bytes(&mut v, self.bytes.as_slice());
        HDAddressPayload { bytes: v }
    }
}

impl PartialEq for HDAddressPayload {
    fn eq(&self, other: &Self) -> (r: bool) {
        bytes_eq(&self.bytes, &other.bytes)
    }
}

impl vstd::std_specs::cmp::PartialEqSpecImpl for HDAddressPayload {
    open spec fn obeys_eq_spec() -> bool {
        true
    }

    open spec fn eq_spec(&self, other: &Self) -> bool {
        self@ == other@
    }
}

impl Eq for HDAddressPayload {}

impl HDAddressPayload {
    /// Take ownership of payload bytes.
    pub fn from_vec(v: Vec<u8>) -> (r: Self)
        ensures
            r@ == v@,
    {
        HDAddressPayload { bytes: v }
    }

    /// Copy payload bytes from a slice.
    pub fn from_bytes(bytes: &[u8]) -> (r: Self)
        ensures
            r@ == bytes@,
    {
        let mut v: Vec<u8> = Vec::new();
        extend_bytes(&mut v, bytes);
        HDAddressPayload { bytes: v }
    }

    /// The payload width in bytes.
    pub fn len(&self) -> (r: usize)
        ensures
            r == self@.len(),
    {
        self.bytes.len()
    }

    /// The raw payload bytes.
    pub fn as_bytes(&self) -> (r: &Vec<u8>)
        ensures
            r@ == self@,
    {
        &self.bytes
    }

    /// The payload in the self-describing tag codec: a byte string inside
    /// a byte string.
    pub fn cbor(&self) -> (r: Vec<u8>)
        ensures
            r@ == crate::cbor::nested_bytes_enc(self@),
    {
        let mut out: Vec<u8> = Vec::new();
        crate::cbor::write_nested_bytes(&mut out, self.bytes.as_slice());
        out
    }

    /// Decode a payload from exactly one byte-string-wrapped byte string.
    #[verifier::rlimit(100)]
    pub fn from_cbor(bytes: &[u8]) -> (r: Result<Self, ReadError>)
        ensures
            match r {
                Ok(p) => payload_from_cbor_spec(bytes@) == Some(p@),
                Err(_) => payload_from_cbor_spec(bytes@) is None,
            },
    {
        let mut rb = crate::packer::ReadBuf::new(bytes);
        proof {
            assert(rb.suffix() =~= bytes@);
        }
        let pay = match crate::cbor::read_nested_bytes(&mut rb) {
            Ok(v) => v,
            Err(e) => {
                return Err(e);
            },
        };
        if !rb.is_end() {
            return Err(ReadError::StructureInvalid(
                crate::packer::StructureError::TrailingData,
            ));
        }
        Ok(HDAddressPayload { bytes: pay })
    }
}

} // verus!

//! Transaction witnesses: proof that a user agrees with some data.  A
//! witness works with opaque structures: it sees only the transaction id,
//! never the transaction's contents.
//!
//! Encoding: a one-byte tag, then the variant's body — legacy UTXO key and
//! signature, new UTXO signature, or account signature.

use vstd::prelude::*;
use crate::packer::{u32_be, extend_bytes, bytes_eq, put_u8, put_u32, ReadBuf, ReadError};
use crate::keys::{
    ed25519_public_of, ed25519_sign_of, ed25519_verifies, Bip32PublicKey, PublicKey, SecretKey,
    Signature, Verification, PUBLIC_KEY_SIZE, SIGNATURE_SIZE, XPUB_SIZE, serialize_raw,
    read_raw,
};

verus! {

broadcast use vstd::group_vstd_default;

/// Wire tag of a legacy UTXO witness.
pub const WITNESS_TAG_OLDUTXO: u8 = 0;

/// Wire tag of a UTXO witness.
pub const WITNESS_TAG_UTXO: u8 = 1;

/// Wire tag of an account witness.
pub const WITNESS_TAG_ACCOUNT: u8 = 2;

/// Width of a transaction id in bytes.
pub const TRANSACTION_ID_SIZE: usize = 32;

/// A verification asked of a witness kind that cannot perform it.
#[derive(Clone, Copy, Debug, PartialEq, Eq, Structural)]
pub enum WitnessError {
    /// A legacy UTXO witness cannot verify a new-format transaction id.
    OldUtxoUnsupported,
}

/// A content-addressed transaction identifier: a fixed-width digest.
#[derive(Debug)]
pub struct TransactionId {
    bytes: Vec<u8>,
}

impl View for TransactionId {
    type V = Seq<u8>;

    closed spec fn view(&self) -> Seq<u8> {
        self.bytes@
    }
}

impl TransactionId {
    #[verifier::type_invariant]
    closed spec fn wf(self) -> bool {
        self.bytes@.len() == TRANSACTION_ID_SIZE
    }

    /// Take ownership of raw digest bytes of the id's width.
    pub fn from_bytes(bytes: Vec<u8>) -> (r: Self)
        requires
            bytes@.len() == TRANSACTION_ID_SIZE,
        ensures
            r@ == bytes@,
    {
        TransactionId { bytes }
    }

    pub fn as_bytes(&self) -> (r: &Vec<u8>)
        ensures
            r@ == self@,
            r@.len() == TRANSACTION_ID_SIZE,
    {
        proof {
            use_type_invariant(&*self);
        }
        &self.bytes
    }
}

impl Clone for TransactionId {
    fn clone(&self) -> (r: Self)
        ensures
            r@ == self@,
    {
        proof {
            use_type_invariant(&*self);
        }
        let mut v: Vec<u8> = Vec::new();
        extend_bytes(&mut v, self.bytes.as_slice());
        TransactionId { bytes: v }
    }
}

/// A per-account monotonically increasing counter, included in every
/// account-witness preimage to prevent signature replay.
#[derive(Clone, Copy, Debug, PartialEq, Eq, Structural)]
pub struct SpendingCounter {
    pub value: u32,
}

impl SpendingCounter {
    pub fn new(value: u32) -> (r: Self)
        ensures
            r.value == value,
    {
        SpendingCounter { value }
    }

    /// The counter's big-endian bytes.
    pub fn to_bytes(&self) -> (r: Vec<u8>)
        ensures
            r@ == u32_be(self.value),
    {
        let mut v: Vec<u8> = Vec::new();
        put_u32(&mut v, self.value);
        v
    }
}

/// The signed preimage of an account witness: the account tag byte, the
/// transaction id, and the big-endian spending counter.
pub open spec fn account_preimage(txid: Seq<u8>, counter: u32) -> Seq<u8> {
    seq![WITNESS_TAG_ACCOUNT] + txid + u32_be(counter)
}

/// The byte string an account witness signs.
pub struct TransactionIdSpendingCounter {
    bytes: Vec<u8>,
}

impl View for TransactionIdSpendingCounter {
    type V = Seq<u8>;

    closed spec fn view(&self) -> Seq<u8> {
        self.bytes@
    }
}

impl TransactionIdSpendingCounter {
    /// Build the preimage: the account tag byte first, then the
    /// transaction id, then the counter in big-endian order.
    pub fn new(transaction_id: &TransactionId, spending_counter: &SpendingCounter) -> (r: Self)
        ensures
            r@ == account_preimage(transaction_id@, spending_counter.value),
    {
        let mut v: Vec<u8> = Vec::new();
        put_u8(&mut v, WITNESS_TAG_ACCOUNT);
        extend_bytes(&mut v, transaction_id.as_bytes().as_slice());
        put_u32(&mut v, spending_counter.value);
        proof {
            assert(v@ =~= account_preimage(transaction_id@, spending_counter.value));
        }
        TransactionIdSpendingCounter { bytes: v }
    }

    pub fn as_bytes(&self) -> (r: &Vec<u8>)
        ensures
            r@ == self@,
    {
        &self.bytes
    }
}

/// The mathematical shape of a witness.
pub enum WitnessV {
    Utxo(Seq<u8>),
    Account(Seq<u8>),
    OldUtxo(Seq<u8>, Seq<u8>),
}

/// A witness whose keys and signatures have the scheme widths.
pub open spec fn witness_wf(w: WitnessV) -> bool {
    match w {
        WitnessV::Utxo(sig) => sig.len() == SIGNATURE_SIZE,
        WitnessV::Account(sig) => sig.len() == SIGNATURE_SIZE,
        WitnessV::OldUtxo(xpub, sig) => xpub.len() == XPUB_SIZE && sig.len() == SIGNATURE_SIZE,
    }
}

/// The wire bytes of a witness: its tag, then the variant's body.
pub open spec fn witness_enc(w: WitnessV) -> Seq<u8> {
    match w {
        WitnessV::OldUtxo(xpub, sig) => seq![WITNESS_TAG_OLDUTXO] + xpub + sig,
        WitnessV::Utxo(sig) => seq![WITNESS_TAG_UTXO] + sig,
        WitnessV::Account(sig) => seq![WITNESS_TAG_ACCOUNT] + sig,
    }
}

/// Parse one witness: the witness and the bytes consumed.
pub open spec fn parse_witness(s: Seq<u8>) -> Option<(WitnessV, int)> {
    if s.len() < 1 {
        None
    } else if s[0] == WITNESS_TAG_OLDUTXO {
        if s.len() >= 1 + XPUB_SIZE + SIGNATURE_SIZE {
            Some(
                (WitnessV::OldUtxo(
                    s.subrange(1, 1 + XPUB_SIZE as int),
                    s.subrange(1 + XPUB_SIZE as int, 1 + XPUB_SIZE + SIGNATURE_SIZE),
                ), 1 + XPUB_SIZE + SIGNATURE_SIZE),
            )
        } else {
            None
        }
    } else if s[0] == WITNESS_TAG_UTXO {
        if s.len() >= 1 + SIGNATURE_SIZE {
            Some((WitnessV::Utxo(s.subrange(1, 1 + SIGNATURE_SIZE as int)), 1 + SIGNATURE_SIZE))
        } else {
            None
        }
    } else if s[0] == WITNESS_TAG_ACCOUNT {
        if s.len() >= 1 + SIGNATURE_SIZE {
            Some(
                (WitnessV::Account(s.subrange(1, 1 + SIGNATURE_SIZE as int)), 1
                    + SIGNATURE_SIZE),
            )
        } else {
            None
        }
    } else {
        None
    }
}

/// Serialization bijection for witnesses, one direction: decoding an
/// encoded witness gives the witness back, whatever follows it.
pub proof fn lemma_witness_round_trip(w: WitnessV, rest: Seq<u8>)
    requires
        witness_wf(w),
    ensures
        parse_witness(witness_enc(w) + rest) == Some((w, witness_enc(w).len() as int)),
{
    let s = witness_enc(w) + rest;
    match w {
        WitnessV::OldUtxo(xpub, sig) => {
            assert(s[0] == WITNESS_TAG_OLDUTXO);
            assert(s.subrange(1, 1 + XPUB_SIZE as int) =~= xpub);
            assert(s.subrange(1 + XPUB_SIZE as int, 1 + XPUB_SIZE + SIGNATURE_SIZE) =~= sig);
        },
        WitnessV::Utxo(sig) => {
            assert(s[0] == WITNESS_TAG_UTXO);
            assert(s.subrange(1, 1 + SIGNATURE_SIZE as int) =~= sig);
        },
        WitnessV::Account(sig) => {
            assert(s[0] == WITNESS_TAG_ACCOUNT);
            assert(s.subrange(1, 1 + SIGNATURE_SIZE as int) =~= sig);
        },
    }
}

/// Frame stability for witnesses: whatever decodes re-encodes to exactly
/// the bytes consumed.
pub proof fn lemma_witness_canonical(s: Seq<u8>, w: WitnessV, n: int)
    requires
        parse_witness(s) == Some((w, n)),
    ensures
        1 <= n <= s.len(),
        witness_wf(w),
        witness_enc(w) == s.subrange(0, n),
{
    assert(witness_enc(w) =~= s.subrange(0, n));
}

/// A witness: a signature, plus the key for the legacy variant, proving
/// authorization of a transaction.
#[derive(Debug)]
pub enum Witness {
    Utxo(Signature),
    Account(Signature),
    OldUtxo(Bip32PublicKey, Signature),
}

impl View for Witness {
    type V = WitnessV;

    open spec fn view(&self) -> WitnessV {
        match self {
            Witness::Utxo(sig) => WitnessV::Utxo(sig@),
            Witness::Account(sig) => WitnessV::Account(sig@),
            Witness::OldUtxo(xpub, sig) => WitnessV::OldUtxo(xpub@, sig@),
        }
    }
}

impl Clone for Witness {
    fn clone(&self) -> (r: Self)
        ensures
            r@ == self@,
    {
        match self {
            Witness::Utxo(sig) => Witness::Utxo(sig.clone()),
            Witness::Account(sig) => Witness::Account(sig.clone()),
            Witness::OldUtxo(xpub, sig) => Witness::OldUtxo(xpub.clone(), sig.clone()),
        }
    }
}

impl PartialEq for Witness {
    fn eq(&self, other: &Self) -> (r: bool) {
        match (self, other) {
            (Witness::Utxo(s1), Witness::Utxo(s2)) => bytes_eq(s1.as_bytes(), s2.as_bytes()),
            (Witness::Account(s1), Witness::Account(s2)) => bytes_eq(
                s1.as_bytes(),
                s2.as_bytes(),
            ),
            (Witness::OldUtxo(p1, s1), Witness::OldUtxo(p2, s2)) => bytes_eq(
                s1.as_bytes(),
                s2.as_bytes(),
            ) && bytes_eq(p1.as_bytes(), p2.as_bytes()),
            _ => false,
        }
    }
}

impl vstd::std_specs::cmp::PartialEqSpecImpl for Witness {
    open spec fn obeys_eq_spec() -> bool {
        true
    }

    open spec fn eq_spec(&self, other: &Self) -> bool {
        self@ == other@
    }
}

impl Eq for Witness {}

impl Witness {
    /// Sign a transaction id as a UTXO witness.  The fresh witness
    /// verifies its own transaction: checking it under the signer's public
    /// key succeeds.
    pub fn new_utxo(transaction_id: &TransactionId, secret_key: &SecretKey) -> (r: Self)
        ensures
            r@ == WitnessV::Utxo(ed25519_sign_of(secret_key@, transaction_id@)),
            witness_wf(r@),
            ed25519_verifies(
                ed25519_public_of(secret_key@),
                transaction_id@,
                ed25519_sign_of(secret_key@, transaction_id@),
            ),
    {
        Witness::Utxo(secret_key.sign(transaction_id.as_bytes().as_slice()))
    }

    /// Sign the account preimage — tag, transaction id, counter — as an
    /// account witness.  The fresh signature verifies that preimage under
    /// the signer's public key.
    pub fn new_account(
        transaction_id: &TransactionId,
        spending_counter: &SpendingCounter,
        secret_key: &SecretKey,
    ) -> (r: Self)
        ensures
            r@ == WitnessV::Account(
                ed25519_sign_of(
                    secret_key@,
                    account_preimage(transaction_id@, spending_counter.value),
                ),
            ),
            witness_wf(r@),
            ed25519_verifies(
                ed25519_public_of(secret_key@),
                account_preimage(transaction_id@, spending_counter.value),
                ed25519_sign_of(
                    secret_key@,
                    account_preimage(transaction_id@, spending_counter.value),
                ),
            ),
    {
        let preimage = TransactionIdSpendingCounter::new(transaction_id, spending_counter);
        Witness::Account(secret_key.sign(preimage.as_bytes().as_slice()))
    }

    /// Verify the given transaction id using the witness.  A UTXO witness
    /// checks its signature; an account witness definitely fails — that is
    /// a value, not an error; a legacy witness cannot check a new-format
    /// id, which is an error.
    pub fn verify_utxo(
        &self,
        public_key: &PublicKey,
        transaction_id: &TransactionId,
    ) -> (r: Result<Verification, WitnessError>)
        ensures
            r == (match self@ {
                WitnessV::Utxo(sig) => Ok::<Verification, WitnessError>(
                    if ed25519_verifies(public_key@, transaction_id@, sig) {
                        Verification::Success
                    } else {
                        Verification::Failed
                    },
                ),
                WitnessV::Account(_) => Ok(Verification::Failed),
                WitnessV::OldUtxo(_, _) => Err(WitnessError::OldUtxoUnsupported),
            }),
    {
        match self {
            Witness::OldUtxo(_xpub, _signature) => Err(WitnessError::OldUtxoUnsupported),
            Witness::Utxo(signature) => Ok(
                signature.verify(public_key, transaction_id.as_bytes().as_slice()),
            ),
            Witness::Account(_) => Ok(Verification::Failed),
        }
    }

    /// Append the witness's wire bytes: its tag, then the variant's body.
    pub fn serialize(&self, out: &mut Vec<u8>)
        ensures
            final(out)@ == old(out)@ + witness_enc(self@),
            witness_wf(self@),
    {
        match self {
            Witness::OldUtxo(xpub, sig) => {
                put_u8(out, WITNESS_TAG_OLDUTXO);
                serialize_raw(xpub.as_bytes(), out);
                serialize_raw(sig.as_bytes(), out);
                assert(out@ =~= old(out)@ + witness_enc(self@));
            },
            Witness::Utxo(sig) => {
                put_u8(out, WITNESS_TAG_UTXO);
                serialize_raw(sig.as_bytes(), out);
                assert(out@ =~= old(out)@ + witness_enc(self@));
            },
            Witness::Account(sig) => {
                put_u8(out, WITNESS_TAG_ACCOUNT);
                serialize_raw(sig.as_bytes(), out);
                assert(out@ =~= old(out)@ + witness_enc(self@));
            },
        }
    }

    /// Read one witness; a tag outside the closed registry fails with
    /// `UnknownTag`.
    pub fn read(rb: &mut ReadBuf) -> (r: Result<Witness, ReadError>)
        ensures
            final(rb).all_bytes() == old(rb).all_bytes(),
            final(rb).pos() >= old(rb).pos(),
            match r {
                Ok(w) => parse_witness(old(rb).suffix()) == Some(
                    (w@, final(rb).pos() - old(rb).pos()),
                ),
                Err(_) => parse_witness(old(rb).suffix()) is None,
            },
    {
        let ghost s = rb.suffix();
        let tag = match rb.get_u8() {
            Ok(b) => b,
            Err(e) => {
                return Err(e);
            },
        };
        proof {
            assert(tag == s[0]);
        }
        if tag == WITNESS_TAG_OLDUTXO {
            let xpub = match read_raw(rb, XPUB_SIZE) {
                Ok(v) => v,
                Err(e) => {
                    proof {
                        assert(s.len() < 1 + XPUB_SIZE + SIGNATURE_SIZE);
                    }
                    return Err(e);
                },
            };
            let sig = match read_raw(rb, SIGNATURE_SIZE) {
                Ok(v) => v,
                Err(e) => {
                    proof {
                        assert(s.len() < 1 + XPUB_SIZE + SIGNATURE_SIZE);
                    }
                    return Err(e);
                },
            };
            proof {
                assert(xpub@ =~= s.subrange(1, 1 + XPUB_SIZE as int));
                assert(sig@ =~= s.subrange(1 + XPUB_SIZE as int, 1 + XPUB_SIZE
                    + SIGNATURE_SIZE));
            }
            Ok(Witness::OldUtxo(Bip32PublicKey::from_bytes(xpub), Signature::from_bytes(sig)))
        } else if tag == WITNESS_TAG_UTXO {
            let sig = match read_raw(rb, SIGNATURE_SIZE) {
                Ok(v) => v,
                Err(e) => {
                    return Err(e);
                },
            };
            proof {
                assert(sig@ =~= s.subrange(1, 1 + SIGNATURE_SIZE as int));
            }
            Ok(Witness::Utxo(Signature::from_bytes(sig)))
        } else if tag == WITNESS_TAG_ACCOUNT {
            let sig = match read_raw(rb, SIGNATURE_SIZE) {
                Ok(v) => v,
                Err(e) => {
                    return Err(e);
                },
            };
            proof {
                assert(sig@ =~= s.subrange(1, 1 + SIGNATURE_SIZE as int));
            }
            Ok(Witness::Account(Signature::from_bytes(sig)))
        } else {
            Err(ReadError::UnknownTag(tag as u32))
        }
    }
}

} // verus!

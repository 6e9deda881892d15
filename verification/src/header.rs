//! Block headers: the common fields every header carries — among them the
//! content hash and content size that make the block consistency check
//! possible from the header alone — and the proof whose shape the block
//! version determines.
//!
//! Wire layout: a two-byte version, the content size, the date (epoch and
//! slot), the chain length, the content hash, the parent hash, then the
//! proof body of the version's fixed width.

use vstd::prelude::*;
use crate::packer::{
    u16_be, u32_be, extend_bytes, put_u16, put_u32, ReadBuf, ReadError, StructureError,
};
use crate::cbor::{
    be2_val, be4_val, lemma_be2_val_of_u16, lemma_be4_val_of_u32, lemma_u16_be_of_be2,
    lemma_u32_be_of_be4,
};
use crate::keys::{LeaderId, Signature, PUBLIC_KEY_SIZE, SIGNATURE_SIZE, serialize_raw,
    read_raw};
use crate::hash::{blake2b_256_of, HASH_SIZE};

verus! {

broadcast use vstd::group_vstd_default;

/// Width of a VRF proof in bytes.
pub const VRF_PROOF_SIZE: usize = 96;

/// The position of a block in its epoch.
#[derive(Clone, Copy, Debug, PartialEq, Eq, Structural)]
pub struct BlockDate {
    pub epoch: u32,
    pub slot_id: u32,
}

/// The version of a block, determining the shape of its header's proof.
#[derive(Clone, Copy, Debug, PartialEq, Eq, Structural)]
pub enum BlockVersion {
    Genesis,
    Ed25519Signed,
    KesVrfProof,
}

/// The wire value of a block version.
pub open spec fn version_to_u16(v: BlockVersion) -> u16 {
    match v {
        BlockVersion::Genesis => 0,
        BlockVersion::Ed25519Signed => 1,
        BlockVersion::KesVrfProof => 2,
    }
}

/// The block version a wire value names, if any.
pub open spec fn version_from_u16(v: nat) -> Option<BlockVersion> {
    if v == 0 {
        Some(BlockVersion::Genesis)
    } else if v == 1 {
        Some(BlockVersion::Ed25519Signed)
    } else if v == 2 {
        Some(BlockVersion::KesVrfProof)
    } else {
        None
    }
}

impl BlockVersion {
    pub fn to_u16(&self) -> (r: u16)
        ensures
            r == version_to_u16(*self),
    {
        match self {
            BlockVersion::Genesis => 0,
            BlockVersion::Ed25519Signed => 1,
            BlockVersion::KesVrfProof => 2,
        }
    }

    pub fn from_u16(v: u16) -> (r: Option<Self>)
        ensures
            r == version_from_u16(v as nat),
    {
        if v == 0 {
            Some(BlockVersion::Genesis)
        } else if v == 1 {
            Some(BlockVersion::Ed25519Signed)
        } else if v == 2 {
            Some(BlockVersion::KesVrfProof)
        } else {
            None
        }
    }
}

/// A VRF proof: raw scheme-width bytes.
#[derive(Debug)]
pub struct VrfProof {
    bytes: Vec<u8>,
}

impl View for VrfProof {
    type V = Seq<u8>;

    closed spec fn view(&self) -> Seq<u8> {
        self.bytes@
    }
}

impl VrfProof {
    #[verifier::type_invariant]
    closed spec fn wf(self) -> bool {
        self.bytes@.len() == VRF_PROOF_SIZE
    }

    pub fn from_bytes(bytes: Vec<u8>) -> (r: Self)
        requires
            bytes@.len() == VRF_PROOF_SIZE,
        ensures
            r@ == bytes@,
    {
        VrfProof { bytes }
    }

    pub fn as_bytes(&self) -> (r: &Vec<u8>)
        ensures
            r@ == self@,
            r@.len() == VRF_PROOF_SIZE,
    {
        proof {
            use_type_invariant(&*self);
        }
        &self.bytes
    }
}

impl Clone for VrfProof {
    fn clone(&self) -> (r: Self)
        ensures
            r@ == self@,
    {
        proof {
            use_type_invariant(&*self);
        }
        let mut v: Vec<u8> = Vec::new();
        extend_bytes(&mut v, self.bytes.as_slice());
        VrfProof { bytes: v }
    }
}

/// A BFT leader's proof: its identifier and its signature.
#[derive(Debug)]
pub struct BftProof {
    pub leader_id: LeaderId,
    pub signature: Signature,
}

impl Clone for BftProof {
    fn clone(&self) -> (r: Self)
        ensures
            r.leader_id@ == self.leader_id@,
            r.signature@ == self.signature@,
    {
        BftProof { leader_id: self.leader_id.clone(), signature: self.signature.clone() }
    }
}

/// A Genesis-Praos proof: the KES signature and the VRF proof.
#[derive(Debug)]
pub struct GenesisPraosProof {
    pub kes_proof: Signature,
    pub vrf_proof: VrfProof,
}

impl Clone for GenesisPraosProof {
    fn clone(&self) -> (r: Self)
        ensures
            r.kes_proof@ == self.kes_proof@,
            r.vrf_proof@ == self.vrf_proof@,
    {
        GenesisPraosProof {
            kes_proof: self.kes_proof.clone(),
            vrf_proof: self.vrf_proof.clone(),
        }
    }
}

/// A header's proof; its variant is determined by the block version.
#[derive(Debug)]
pub enum Proof {
    NoProof,
    Bft(BftProof),
    GenesisPraos(GenesisPraosProof),
}

impl Clone for Proof {
    fn clone(&self) -> (r: Self)
        ensures
            r@ == self@,
    {
        match self {
            Proof::NoProof => Proof::NoProof,
            Proof::Bft(p) => Proof::Bft(p.clone()),
            Proof::GenesisPraos(p) => Proof::GenesisPraos(p.clone()),
        }
    }
}

/// The mathematical shape of a proof.
pub enum ProofV {
    NoProof,
    Bft(Seq<u8>, Seq<u8>),
    GenesisPraos(Seq<u8>, Seq<u8>),
}

impl View for Proof {
    type V = ProofV;

    open spec fn view(&self) -> ProofV {
        match self {
            Proof::NoProof => ProofV::NoProof,
            Proof::Bft(p) => ProofV::Bft(p.leader_id@, p.signature@),
            Proof::GenesisPraos(p) => ProofV::GenesisPraos(p.kes_proof@, p.vrf_proof@),
        }
    }
}

/// The mathematical shape of a header.
pub struct HeaderV {
    pub version: BlockVersion,
    pub content_size: u32,
    pub date: BlockDate,
    pub chain_length: u32,
    pub content_hash: Seq<u8>,
    pub parent_hash: Seq<u8>,
    pub proof: ProofV,
}

/// A header whose hashes have the digest width, whose proof parts have the
/// scheme widths, and whose proof variant matches its version.
pub open spec fn header_wf(h: HeaderV) -> bool {
    &&& h.content_hash.len() == HASH_SIZE
    &&& h.parent_hash.len() == HASH_SIZE
    &&& match h.proof {
        ProofV::NoProof => h.version == BlockVersion::Genesis,
        ProofV::Bft(l, s) => h.version == BlockVersion::Ed25519Signed && l.len()
            == PUBLIC_KEY_SIZE && s.len() == SIGNATURE_SIZE,
        ProofV::GenesisPraos(k, v) => h.version == BlockVersion::KesVrfProof && k.len()
            == SIGNATURE_SIZE && v.len() == VRF_PROOF_SIZE,
    }
}

/// The wire bytes of a proof.
pub open spec fn proof_enc(p: ProofV) -> Seq<u8> {
    match p {
        ProofV::NoProof => Seq::empty(),
        ProofV::Bft(l, s) => l + s,
        ProofV::GenesisPraos(k, v) => k + v,
    }
}

/// The wire bytes of a header.
pub open spec fn header_enc(h: HeaderV) -> Seq<u8> {
    u16_be(version_to_u16(h.version)) + u32_be(h.content_size) + u32_be(h.date.epoch)
        + u32_be(h.date.slot_id) + u32_be(h.chain_length) + h.content_hash + h.parent_hash
        + proof_enc(h.proof)
}

/// Parse one header: the header and the bytes consumed.
pub open spec fn parse_header(s: Seq<u8>) -> Option<(HeaderV, int)> {
    if s.len() < 82 {
        None
    } else {
        match version_from_u16(be2_val(s.take(2))) {
            Some(ver) => {
                let content_size = be4_val(s.subrange(2, 6)) as u32;
                let date = BlockDate {
                    epoch: be4_val(s.subrange(6, 10)) as u32,
                    slot_id: be4_val(s.subrange(10, 14)) as u32,
                };
                let chain_length = be4_val(s.subrange(14, 18)) as u32;
                let content_hash = s.subrange(18, 50);
                let parent_hash = s.subrange(50, 82);
                match ver {
                    BlockVersion::Genesis => Some(
                        (HeaderV {
                            version: ver,
                            content_size,
                            date,
                            chain_length,
                            content_hash,
                            parent_hash,
                            proof: ProofV::NoProof,
                        }, 82),
                    ),
                    BlockVersion::Ed25519Signed => if s.len() >= 178 {
                        Some(
                            (HeaderV {
                                version: ver,
                                content_size,
                                date,
                                chain_length,
                                content_hash,
                                parent_hash,
                                proof: ProofV::Bft(s.subrange(82, 114), s.subrange(114, 178)),
                            }, 178),
                        )
                    } else {
                        None
                    },
                    BlockVersion::KesVrfProof => if s.len() >= 242 {
                        Some(
                            (HeaderV {
                                version: ver,
                                content_size,
                                date,
                                chain_length,
                                content_hash,
                                parent_hash,
                                proof: ProofV::GenesisPraos(
                                    s.subrange(82, 146),
                                    s.subrange(146, 242),
                                ),
                            }, 242),
                        )
                    } else {
                        None
                    },
                }
            },
            None => None,
        }
    }
}

/// A well-formed header's bytes are its common fields and its proof.
pub proof fn lemma_header_enc_len(h: HeaderV)
    requires
        header_wf(h),
    ensures
        header_enc(h).len() == 82 + proof_enc(h.proof).len(),
        82 <= header_enc(h).len() <= 242,
{
}

/// Serialization bijection for headers, one direction.
#[verifier::rlimit(100)]
pub proof fn lemma_header_round_trip(h: HeaderV, rest: Seq<u8>)
    requires
        header_wf(h),
    ensures
        parse_header(header_enc(h) + rest) == Some((h, header_enc(h).len() as int)),
{
    let s = header_enc(h) + rest;
    assert(s.take(2) =~= u16_be(version_to_u16(h.version)));
    lemma_be2_val_of_u16(version_to_u16(h.version));
    assert(s.subrange(2, 6) =~= u32_be(h.content_size));
    assert(s.subrange(6, 10) =~= u32_be(h.date.epoch));
    assert(s.subrange(10, 14) =~= u32_be(h.date.slot_id));
    assert(s.subrange(14, 18) =~= u32_be(h.chain_length));
    lemma_be4_val_of_u32(h.content_size);
    lemma_be4_val_of_u32(h.date.epoch);
    lemma_be4_val_of_u32(h.date.slot_id);
    lemma_be4_val_of_u32(h.chain_length);
    assert(s.subrange(18, 50) =~= h.content_hash);
    assert(s.subrange(50, 82) =~= h.parent_hash);
    match h.proof {
        ProofV::NoProof => {},
        ProofV::Bft(l, sg) => {
            assert(s.subrange(82, 114) =~= l);
            assert(s.subrange(114, 178) =~= sg);
        },
        ProofV::GenesisPraos(k, v) => {
            assert(s.subrange(82, 146) =~= k);
            assert(s.subrange(146, 242) =~= v);
        },
    }
}

/// Frame stability for headers: whatever decodes re-encodes to exactly the
/// bytes consumed.
#[verifier::rlimit(100)]
pub proof fn lemma_header_canonical(s: Seq<u8>, h: HeaderV, n: int)
    requires
        parse_header(s) == Some((h, n)),
    ensures
        82 <= n <= s.len(),
        header_wf(h),
        header_enc(h) == s.subrange(0, n),
{
    lemma_u16_be_of_be2(s.take(2));
    lemma_u32_be_of_be4(s.subrange(2, 6));
    lemma_u32_be_of_be4(s.subrange(6, 10));
    lemma_u32_be_of_be4(s.subrange(10, 14));
    lemma_u32_be_of_be4(s.subrange(14, 18));
    assert(u16_be(version_to_u16(h.version)) =~= s.subrange(0, 2));
    assert(header_enc(h) =~= s.subrange(0, n));
}

/// The fields every header carries.
#[derive(Debug)]
pub struct Common {
    pub block_version: BlockVersion,
    pub block_content_size: u32,
    pub block_date: BlockDate,
    pub chain_length: u32,
    pub block_content_hash: crate::hash::Hash,
    pub block_parent_hash: crate::hash::Hash,
}

impl Clone for Common {
    fn clone(&self) -> (r: Self)
        ensures
            r.block_version == self.block_version,
            r.block_content_size == self.block_content_size,
            r.block_date == self.block_date,
            r.chain_length == self.chain_length,
            r.block_content_hash@ == self.block_content_hash@,
            r.block_parent_hash@ == self.block_parent_hash@,
    {
        Common {
            block_version: self.block_version,
            block_content_size: self.block_content_size,
            block_date: self.block_date,
            chain_length: self.chain_length,
            block_content_hash: self.block_content_hash.clone(),
            block_parent_hash: self.block_parent_hash.clone(),
        }
    }
}

/// A block header.
#[derive(Debug)]
pub struct Header {
    pub common: Common,
    pub proof: Proof,
}

impl View for Header {
    type V = HeaderV;

    open spec fn view(&self) -> HeaderV {
        HeaderV {
            version: self.common.block_version,
            content_size: self.common.block_content_size,
            date: self.common.block_date,
            chain_length: self.common.chain_length,
            content_hash: self.common.block_content_hash@,
            parent_hash: self.common.block_parent_hash@,
            proof: self.proof@,
        }
    }
}

impl Clone for Header {
    fn clone(&self) -> (r: Self)
        ensures
            r@ == self@,
    {
        Header { common: self.common.clone(), proof: self.proof.clone() }
    }
}

impl Header {
    /// The declared content hash.
    pub fn block_content_hash(&self) -> (r: &crate::hash::Hash)
        ensures
            r@ == self@.content_hash,
    {
        &self.common.block_content_hash
    }

    /// The parent block's identifier.
    pub fn block_parent_hash(&self) -> (r: &crate::hash::Hash)
        ensures
            r@ == self@.parent_hash,
    {
        &self.common.block_parent_hash
    }

    /// The block's date.
    pub fn block_date(&self) -> (r: BlockDate)
        ensures
            r == self@.date,
    {
        self.common.block_date
    }

    /// The block's version.
    pub fn block_version(&self) -> (r: BlockVersion)
        ensures
            r == self@.version,
    {
        self.common.block_version
    }

    /// The block's position in the chain.
    pub fn chain_length(&self) -> (r: u32)
        ensures
            r == self@.chain_length,
    {
        self.common.chain_length
    }

    /// Append the header's wire bytes.
    pub fn serialize(&self, out: &mut Vec<u8>)
        ensures
            final(out)@ == old(out)@ + header_enc(self@),
            header_enc(self@).len() <= 242,
    {
        put_u16(out, self.common.block_version.to_u16());
        put_u32(out, self.common.block_content_size);
        put_u32(out, self.common.block_date.epoch);
        put_u32(out, self.common.block_date.slot_id);
        put_u32(out, self.common.chain_length);
        self.common.block_content_hash.serialize(out);
        self.common.block_parent_hash.serialize(out);
        match &self.proof {
            Proof::NoProof => {},
            Proof::Bft(p) => {
                serialize_raw(p.leader_id.as_bytes(), out);
                serialize_raw(p.signature.as_bytes(), out);
            },
            Proof::GenesisPraos(p) => {
                serialize_raw(p.kes_proof.as_bytes(), out);
                serialize_raw(p.vrf_proof.as_bytes(), out);
            },
        }
        assert(out@ =~= old(out)@ + header_enc(self@));
    }

    /// The header's identity: the digest of its wire bytes.  Two blocks
    /// are the same block exactly when their headers hash alike.
    pub fn hash(&self) -> (r: crate::hash::Hash)
        ensures
            r@ == blake2b_256_of(header_enc(self@)),
            r@.len() == HASH_SIZE,
    {
        let mut v: Vec<u8> = Vec::new();
        self.serialize(&mut v);
        proof {
            assert(v@ =~= header_enc(self@));
        }
        crate::hash::Hash::hash_bytes(v.as_slice())
    }

    /// Read one header; a version outside the closed registry fails with
    /// `UnknownTag`.
    #[verifier::rlimit(100)]
    pub fn read(rb: &mut ReadBuf) -> (r: Result<Header, ReadError>)
        ensures
            final(rb).all_bytes() == old(rb).all_bytes(),
            final(rb).pos() >= old(rb).pos(),
            0 <= old(rb).pos(),
            final(rb).pos() <= final(rb).all_bytes().len(),
            match r {
                Ok(h) => parse_header(old(rb).suffix()) == Some(
                    (h@, final(rb).pos() - old(rb).pos()),
                ),
                Err(_) => parse_header(old(rb).suffix()) is None,
            },
    {
        let ghost s = rb.suffix();
        let ghost p0 = rb.pos();
        let ghost all0 = rb.all_bytes();
        let w = match rb.get_u16() {
            Ok(v) => v,
            Err(e) => {
                return Err(e);
            },
        };
        proof {
            assert(s.take(2) =~= all0.subrange(p0, p0 + 2));
            lemma_be2_val_of_u16(w);
        }
        let block_version = match BlockVersion::from_u16(w) {
            Some(v) => v,
            None => {
                return Err(ReadError::UnknownTag(w as u32));
            },
        };
        let block_content_size = match rb.get_u32() {
            Ok(v) => v,
            Err(e) => {
                proof {
                    assert(s.len() < 82);
                }
                return Err(e);
            },
        };
        let epoch = match rb.get_u32() {
            Ok(v) => v,
            Err(e) => {
                proof {
                    assert(s.len() < 82);
                }
                return Err(e);
            },
        };
        let slot_id = match rb.get_u32() {
            Ok(v) => v,
            Err(e) => {
                proof {
                    assert(s.len() < 82);
                }
                return Err(e);
            },
        };
        let chain_length = match rb.get_u32() {
            Ok(v) => v,
            Err(e) => {
                proof {
                    assert(s.len() < 82);
                }
                return Err(e);
            },
        };
        proof {
            assert(s.subrange(2, 6) =~= all0.subrange(p0 + 2, p0 + 6));
            assert(s.subrange(6, 10) =~= all0.subrange(p0 + 6, p0 + 10));
            assert(s.subrange(10, 14) =~= all0.subrange(p0 + 10, p0 + 14));
            assert(s.subrange(14, 18) =~= all0.subrange(p0 + 14, p0 + 18));
            lemma_be4_val_of_u32(block_content_size);
            lemma_be4_val_of_u32(epoch);
            lemma_be4_val_of_u32(slot_id);
            lemma_be4_val_of_u32(chain_length);
        }
        let block_content_hash = match crate::hash::Hash::read(rb) {
            Ok(v) => v,
            Err(e) => {
                proof {
                    assert(s.len() < 82);
                }
                return Err(e);
            },
        };
        let block_parent_hash = match crate::hash::Hash::read(rb) {
            Ok(v) => v,
            Err(e) => {
                proof {
                    assert(s.len() < 82);
                }
                return Err(e);
            },
        };
        proof {
            assert(s.subrange(18, 50) =~= all0.subrange(p0 + 18, p0 + 50));
            assert(s.subrange(50, 82) =~= all0.subrange(p0 + 50, p0 + 82));
        }
        let common = Common {
            block_version,
            block_content_size,
            block_date: BlockDate { epoch, slot_id },
            chain_length,
            block_content_hash,
            block_parent_hash,
        };
        let proof = match block_version {
            BlockVersion::Genesis => Proof::NoProof,
            BlockVersion::Ed25519Signed => {
                let l = match read_raw(rb, PUBLIC_KEY_SIZE) {
                    Ok(v) => v,
                    Err(e) => {
                        proof {
                            assert(s.len() < 178);
                        }
                        return Err(e);
                    },
                };
                let sg = match read_raw(rb, SIGNATURE_SIZE) {
                    Ok(v) => v,
                    Err(e) => {
                        proof {
                            assert(s.len() < 178);
                        }
                        return Err(e);
                    },
                };
                proof {
                    assert(s.subrange(82, 114) =~= all0.subrange(p0 + 82, p0 + 114));
                    assert(s.subrange(114, 178) =~= all0.subrange(p0 + 114, p0 + 178));
                }
                Proof::Bft(
                    BftProof {
                        leader_id: LeaderId::from_bytes(l),
                        signature: Signature::from_bytes(sg),
                    },
                )
            },
            BlockVersion::KesVrfProof => {
                let k = match read_raw(rb, SIGNATURE_SIZE) {
                    Ok(v) => v,
                    Err(e) => {
                        proof {
                            assert(s.len() < 242);
                        }
                        return Err(e);
                    },
                };
                let v = match read_raw(rb, VRF_PROOF_SIZE) {
                    Ok(v) => v,
                    Err(e) => {
                        proof {
                            assert(s.len() < 242);
                        }
                        return Err(e);
                    },
                };
                proof {
                    assert(s.subrange(82, 146) =~= all0.subrange(p0 + 82, p0 + 146));
                    assert(s.subrange(146, 242) =~= all0.subrange(p0 + 146, p0 + 242));
                }
                Proof::GenesisPraos(
                    GenesisPraosProof {
                        kes_proof: Signature::from_bytes(k),
                        vrf_proof: VrfProof::from_bytes(v),
                    },
                )
            },
        };
        Ok(Header { common, proof })
    }
}

/// The length-prefixed opaque byte form of a header, used during framing.
#[derive(Debug)]
pub struct HeaderRaw {
    bytes: Vec<u8>,
}

impl View for HeaderRaw {
    type V = Seq<u8>;

    closed spec fn view(&self) -> Seq<u8> {
        self.bytes@
    }
}

impl HeaderRaw {
    #[verifier::type_invariant]
    closed spec fn wf(self) -> bool {
        self.bytes@.len() <= 0xffff
    }

    /// Take ownership of header bytes that fit the length prefix.
    pub fn from_vec(bytes: Vec<u8>) -> (r: Self)
        requires
            bytes@.len() <= 0xffff,
        ensures
            r@ == bytes@,
    {
        HeaderRaw { bytes }
    }

    pub fn as_bytes(&self) -> (r: &Vec<u8>)
        ensures
            r@ == self@,
            r@.len() <= 0xffff,
    {
        proof {
            use_type_invariant(&*self);
        }
        &self.bytes
    }

    /// Append the two-byte length, then the header bytes.
    pub fn serialize(&self, out: &mut Vec<u8>)
        ensures
            final(out)@ == old(out)@ + u16_be(self@.len() as u16) + self@,
    {
        proof {
            use_type_invariant(&*self);
        }
        put_u16(out, self.bytes.len() as u16);
        extend_bytes(out, self.bytes.as_slice());
    }

    /// Read one length-prefixed raw header.
    pub fn deserialize(rb: &mut ReadBuf) -> (r: Result<Self, ReadError>)
        ensures
            final(rb).all_bytes() == old(rb).all_bytes(),
            final(rb).pos() >= old(rb).pos(),
            0 <= old(rb).pos(),
            final(rb).pos() <= final(rb).all_bytes().len(),
            match r {
                Ok(raw) => {
                    &&& old(rb).suffix().len() >= 2
                    &&& be2_val(old(rb).suffix().take(2)) == raw@.len()
                    &&& old(rb).suffix().len() >= 2 + raw@.len()
                    &&& raw@ == old(rb).suffix().subrange(2, 2 + raw@.len() as int)
                    &&& final(rb).pos() - old(rb).pos() == 2 + raw@.len()
                },
                Err(_) => old(rb).suffix().len() < 2 || old(rb).suffix().len() < 2 + be2_val(
                    old(rb).suffix().take(2),
                ),
            },
    {
        let ghost s = rb.suffix();
        let ghost p0 = rb.pos();
        let ghost all0 = rb.all_bytes();
        let l = match rb.get_u16() {
            Ok(v) => v,
            Err(e) => {
                return Err(e);
            },
        };
        proof {
            assert(s.take(2) =~= all0.subrange(p0, p0 + 2));
            lemma_be2_val_of_u16(l);
        }
        let bytes = match read_raw(rb, l as usize) {
            Ok(v) => v,
            Err(e) => {
                return Err(e);
            },
        };
        proof {
            assert(bytes@ =~= s.subrange(2, 2 + l as int));
        }
        Ok(HeaderRaw { bytes })
    }
}

} // verus!

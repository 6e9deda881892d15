//! Stake roles: stake-key identifiers, stake-pool registration
//! information, and the content-addressed stake-pool identifier.

use vstd::prelude::*;
use crate::packer::{u128_be, extend_bytes, bytes_eq, put_u8, put_u128, ReadBuf, ReadError};
use crate::cbor::{be16_val, lemma_be16_val_of_u128, lemma_u128_be_of_be16};
use crate::keys::{
    KesPublicKey, PublicKey, SecretKey, VrfPublicKey, KES_PUBLIC_KEY_SIZE, PUBLIC_KEY_SIZE,
    VRF_PUBLIC_KEY_SIZE, serialize_raw, read_raw,
};
use crate::hash::{blake2b_256_of, HASH_SIZE};
use crate::setting::{
    leaders_enc, parse_leaders, lemma_leaders_enc_snoc, lemma_leaders_rt, lemma_leaders_canon,
};

verus! {

broadcast use vstd::group_vstd_default;

/// Identifier of a stake key: the key itself.
#[derive(Debug)]
pub struct StakeKeyId {
    key: PublicKey,
}

impl View for StakeKeyId {
    type V = Seq<u8>;

    closed spec fn view(&self) -> Seq<u8> {
        self.key@
    }
}

impl Clone for StakeKeyId {
    fn clone(&self) -> (r: Self)
        ensures
            r@ == self@,
    {
        StakeKeyId { key: self.key.clone() }
    }
}

impl PartialEq for StakeKeyId {
    fn eq(&self, other: &Self) -> (r: bool) {
        bytes_eq(self.key.as_bytes(), other.key.as_bytes())
    }
}

impl vstd::std_specs::cmp::PartialEqSpecImpl for StakeKeyId {
    open spec fn obeys_eq_spec() -> bool {
        true
    }

    open spec fn eq_spec(&self, other: &Self) -> bool {
        self@ == other@
    }
}

impl Eq for StakeKeyId {}

impl StakeKeyId {
    /// The identifier of the given public key.
    pub fn from_public(key: PublicKey) -> (r: Self)
        ensures
            r@ == key@,
    {
        StakeKeyId { key }
    }

    /// The identifier of the public key a secret key derives.
    pub fn from_secret(key: &SecretKey) -> (r: Self)
        ensures
            r@ == crate::keys::ed25519_public_of(key@),
    {
        StakeKeyId { key: key.to_public() }
    }

    pub fn as_bytes(&self) -> (r: &Vec<u8>)
        ensures
            r@ == self@,
            r@.len() == PUBLIC_KEY_SIZE,
    {
        self.key.as_bytes()
    }

    /// Append the raw key bytes.
    pub fn serialize(&self, out: &mut Vec<u8>)
        ensures
            final(out)@ == old(out)@ + self@,
            self@.len() == PUBLIC_KEY_SIZE,
    {
        serialize_raw(self.key.as_bytes(), out);
    }

    /// Consume exactly the key width.
    pub fn read(rb: &mut ReadBuf) -> (r: Result<Self, ReadError>)
        ensures
            final(rb).all_bytes() == old(rb).all_bytes(),
            0 <= old(rb).pos(),
            final(rb).pos() <= final(rb).all_bytes().len(),
            match r {
                Ok(k) => {
                    &&& old(rb).remaining_spec() >= PUBLIC_KEY_SIZE
                    &&& final(rb).pos() == old(rb).pos() + PUBLIC_KEY_SIZE
                    &&& k@ == old(rb).all_bytes().subrange(
                        old(rb).pos(),
                        old(rb).pos() + PUBLIC_KEY_SIZE,
                    )
                },
                Err(_) => {
                    &&& old(rb).remaining_spec() < PUBLIC_KEY_SIZE
                    &&& final(rb).pos() == old(rb).pos()
                },
            },
    {
        let bytes = match read_raw(rb, PUBLIC_KEY_SIZE) {
            Ok(v) => v,
            Err(e) => {
                return Err(e);
            },
        };
        Ok(StakeKeyId { key: PublicKey::from_bytes(bytes) })
    }
}

/// A content-addressed stake-pool identifier: the digest of the pool's
/// defining fields in wire order.
#[derive(Debug)]
pub struct StakePoolId {
    hash: crate::hash::Hash,
}

impl View for StakePoolId {
    type V = Seq<u8>;

    closed spec fn view(&self) -> Seq<u8> {
        self.hash@
    }
}

impl Clone for StakePoolId {
    fn clone(&self) -> (r: Self)
        ensures
            r@ == self@,
    {
        StakePoolId { hash: self.hash.clone() }
    }
}

impl PartialEq for StakePoolId {
    fn eq(&self, other: &Self) -> (r: bool) {
        bytes_eq(self.hash.as_bytes(), other.hash.as_bytes())
    }
}

impl vstd::std_specs::cmp::PartialEqSpecImpl for StakePoolId {
    open spec fn obeys_eq_spec() -> bool {
        true
    }

    open spec fn eq_spec(&self, other: &Self) -> bool {
        self@ == other@
    }
}

impl Eq for StakePoolId {}

impl StakePoolId {
    pub fn as_bytes(&self) -> (r: &Vec<u8>)
        ensures
            r@ == self@,
            r@.len() == HASH_SIZE,
    {
        self.hash.as_bytes()
    }

    /// Append the raw digest bytes.
    pub fn serialize(&self, out: &mut Vec<u8>)
        ensures
            final(out)@ == old(out)@ + self@,
    {
        self.hash.serialize(out);
    }

    /// Consume exactly the digest width.
    pub fn read(rb: &mut ReadBuf) -> (r: Result<Self, ReadError>)
        ensures
            final(rb).all_bytes() == old(rb).all_bytes(),
            0 <= old(rb).pos(),
            final(rb).pos() <= final(rb).all_bytes().len(),
            match r {
                Ok(id) => {
                    &&& old(rb).remaining_spec() >= HASH_SIZE
                    &&& final(rb).pos() == old(rb).pos() + HASH_SIZE
                    &&& id@ == old(rb).all_bytes().subrange(
                        old(rb).pos(),
                        old(rb).pos() + HASH_SIZE,
                    )
                },
                Err(_) => {
                    &&& old(rb).remaining_spec() < HASH_SIZE
                    &&& final(rb).pos() == old(rb).pos()
                },
            },
    {
        let h = match crate::hash::Hash::read(rb) {
            Ok(h) => h,
            Err(e) => {
                return Err(e);
            },
        };
        Ok(StakePoolId { hash: h })
    }
}

/// Information related to a stake key: the pool it delegates to, if any.
#[derive(Debug)]
pub struct StakeKeyInfo {
    pub pool: Option<StakePoolId>,
}

/// The initial keys of a Genesis-Praos stake pool.
#[derive(Debug)]
pub struct GenesisPraosLeader {
    pub kes_public_key: KesPublicKey,
    pub vrf_public_key: VrfPublicKey,
}

impl Clone for GenesisPraosLeader {
    fn clone(&self) -> (r: Self)
        ensures
            r.kes_public_key@ == self.kes_public_key@,
            r.vrf_public_key@ == self.vrf_public_key@,
    {
        GenesisPraosLeader {
            kes_public_key: self.kes_public_key.clone(),
            vrf_public_key: self.vrf_public_key.clone(),
        }
    }
}

impl GenesisPraosLeader {
    /// Append the KES key, then the VRF key, both raw.
    pub fn serialize(&self, out: &mut Vec<u8>)
        ensures
            final(out)@ == old(out)@ + self.kes_public_key@ + self.vrf_public_key@,
            self.kes_public_key@.len() == KES_PUBLIC_KEY_SIZE,
            self.vrf_public_key@.len() == VRF_PUBLIC_KEY_SIZE,
    {
        serialize_raw(self.kes_public_key.as_bytes(), out);
        serialize_raw(self.vrf_public_key.as_bytes(), out);
    }

    /// Consume the KES key, then the VRF key.
    pub fn read(rb: &mut ReadBuf) -> (r: Result<Self, ReadError>)
        ensures
            final(rb).all_bytes() == old(rb).all_bytes(),
            0 <= old(rb).pos(),
            final(rb).pos() >= old(rb).pos(),
            final(rb).pos() <= final(rb).all_bytes().len(),
            match r {
                Ok(l) => {
                    &&& old(rb).remaining_spec() >= KES_PUBLIC_KEY_SIZE + VRF_PUBLIC_KEY_SIZE
                    &&& final(rb).pos() == old(rb).pos() + KES_PUBLIC_KEY_SIZE
                        + VRF_PUBLIC_KEY_SIZE
                    &&& l.kes_public_key@ == old(rb).all_bytes().subrange(
                        old(rb).pos(),
                        old(rb).pos() + KES_PUBLIC_KEY_SIZE,
                    )
                    &&& l.vrf_public_key@ == old(rb).all_bytes().subrange(
                        old(rb).pos() + KES_PUBLIC_KEY_SIZE,
                        old(rb).pos() + KES_PUBLIC_KEY_SIZE + VRF_PUBLIC_KEY_SIZE,
                    )
                },
                Err(_) => old(rb).remaining_spec() < KES_PUBLIC_KEY_SIZE
                    + VRF_PUBLIC_KEY_SIZE,
            },
    {
        let kes = match read_raw(rb, KES_PUBLIC_KEY_SIZE) {
            Ok(v) => v,
            Err(e) => {
                return Err(e);
            },
        };
        let vrf = match read_raw(rb, VRF_PUBLIC_KEY_SIZE) {
            Ok(v) => v,
            Err(e) => {
                return Err(e);
            },
        };
        Ok(
            GenesisPraosLeader {
                kes_public_key: KesPublicKey::from_bytes(kes),
                vrf_public_key: VrfPublicKey::from_bytes(vrf),
            },
        )
    }
}

/// The views of a list of owners.
pub open spec fn owners_view(v: Seq<StakeKeyId>) -> Seq<Seq<u8>> {
    Seq::new(v.len(), |i: int| v[i]@)
}

/// The digest preimage of a stake-pool identifier: the serial in
/// big-endian order, the owner keys in their registered order, the KES
/// key, the VRF key.  Wire-definition order; stable.
pub open spec fn pool_id_preimage(
    serial: u128,
    owners: Seq<Seq<u8>>,
    kes: Seq<u8>,
    vrf: Seq<u8>,
) -> Seq<u8> {
    u128_be(serial) + leaders_enc(owners) + kes + vrf
}

/// The wire bytes of a pool registration: serial, owner count, owners,
/// then the initial keys.
pub open spec fn pool_info_enc(
    serial: u128,
    owners: Seq<Seq<u8>>,
    kes: Seq<u8>,
    vrf: Seq<u8>,
) -> Seq<u8> {
    u128_be(serial) + seq![owners.len() as u8] + leaders_enc(owners) + kes + vrf
}

/// Parse a pool registration: its fields and the bytes consumed.
pub open spec fn parse_pool_info(s: Seq<u8>) -> Option<
    ((u128, Seq<Seq<u8>>, Seq<u8>, Seq<u8>), int),
> {
    if s.len() < 17 {
        None
    } else {
        let serial = be16_val(s.take(16)) as u128;
        let n = s[16];
        match parse_leaders(s.skip(17), n as nat) {
            Some(lc) => {
                let rest = 17 + lc.1;
                if s.len() >= rest + KES_PUBLIC_KEY_SIZE + VRF_PUBLIC_KEY_SIZE {
                    Some(
                        ((serial, lc.0, s.subrange(rest, rest + KES_PUBLIC_KEY_SIZE as int),
                        s.subrange(
                            rest + KES_PUBLIC_KEY_SIZE as int,
                            rest + KES_PUBLIC_KEY_SIZE + VRF_PUBLIC_KEY_SIZE,
                        )), rest + KES_PUBLIC_KEY_SIZE + VRF_PUBLIC_KEY_SIZE),
                    )
                } else {
                    None
                }
            },
            None => None,
        }
    }
}

/// Serialization bijection for pool registrations, one direction.
#[verifier::rlimit(100)]
pub proof fn lemma_pool_info_round_trip(
    serial: u128,
    owners: Seq<Seq<u8>>,
    kes: Seq<u8>,
    vrf: Seq<u8>,
    rest: Seq<u8>,
)
    requires
        owners.len() < 256,
        forall|i: int| 0 <= i < owners.len() ==> (#[trigger] owners[i]).len()
            == PUBLIC_KEY_SIZE,
        kes.len() == KES_PUBLIC_KEY_SIZE,
        vrf.len() == VRF_PUBLIC_KEY_SIZE,
    ensures
        parse_pool_info(pool_info_enc(serial, owners, kes, vrf) + rest) == Some(
            ((serial, owners, kes, vrf), pool_info_enc(serial, owners, kes, vrf).len() as int),
        ),
{
    let s = pool_info_enc(serial, owners, kes, vrf) + rest;
    lemma_leaders_rt(owners, kes + vrf + rest);
    lemma_be16_val_of_u128(serial);
    assert(s.take(16) =~= u128_be(serial));
    assert(s[16] == owners.len() as u8);
    assert(s.skip(17) =~= leaders_enc(owners) + (kes + vrf + rest));
    let c = PUBLIC_KEY_SIZE * owners.len();
    assert(s.subrange(17 + c, 17 + c + KES_PUBLIC_KEY_SIZE as int) =~= kes);
    assert(s.subrange(
        17 + c + KES_PUBLIC_KEY_SIZE as int,
        17 + c + KES_PUBLIC_KEY_SIZE + VRF_PUBLIC_KEY_SIZE,
    ) =~= vrf);
}

/// Frame stability for pool registrations: whatever decodes re-encodes to
/// exactly the bytes consumed.
#[verifier::rlimit(100)]
pub proof fn lemma_pool_info_canonical(
    s: Seq<u8>,
    serial: u128,
    owners: Seq<Seq<u8>>,
    kes: Seq<u8>,
    vrf: Seq<u8>,
    n: int,
)
    requires
        parse_pool_info(s) == Some(((serial, owners, kes, vrf), n)),
    ensures
        17 <= n <= s.len(),
        owners.len() < 256,
        forall|i: int| 0 <= i < owners.len() ==> (#[trigger] owners[i]).len()
            == PUBLIC_KEY_SIZE,
        kes.len() == KES_PUBLIC_KEY_SIZE,
        vrf.len() == VRF_PUBLIC_KEY_SIZE,
        pool_info_enc(serial, owners, kes, vrf) == s.subrange(0, n),
{
    let (ls, c) = parse_leaders(s.skip(17), s[16] as nat).unwrap();
    lemma_leaders_canon(s.skip(17), s[16] as nat, ls, c);
    lemma_u128_be_of_be16(s.take(16));
    assert(s.skip(17).subrange(0, c) =~= s.subrange(17, 17 + c));
    assert(pool_info_enc(serial, owners, kes, vrf) =~= s.subrange(0, n));
}

/// A stake pool's registration information.
#[derive(Debug)]
pub struct StakePoolInfo {
    pub serial: u128,
    pub owners: Vec<StakeKeyId>,
    pub initial_key: GenesisPraosLeader,
}

impl StakePoolInfo {
    /// The pool's content-addressed identifier: the digest of its serial,
    /// owners and initial keys in wire order.  The identifier depends on
    /// the field values alone — owner order included — never on how the
    /// record was built.
    pub fn to_id(&self) -> (r: StakePoolId)
        ensures
            r@ == blake2b_256_of(
                pool_id_preimage(
                    self.serial,
                    owners_view(self.owners@),
                    self.initial_key.kes_public_key@,
                    self.initial_key.vrf_public_key@,
                ),
            ),
    {
        let mut v: Vec<u8> = Vec::new();
        put_u128(&mut v, self.serial);
        let mut i: usize = 0;
        while i < self.owners.len()
            invariant
                0 <= i <= self.owners@.len(),
                v@ == u128_be(self.serial) + leaders_enc(owners_view(self.owners@).take(
                    i as int,
                )),
            decreases self.owners@.len() - i,
        {
            proof {
                lemma_leaders_enc_snoc(owners_view(self.owners@), i as int);
            }
            serialize_raw(self.owners[i].as_bytes(), &mut v);
            i = i + 1;
            proof {
                assert(v@ =~= u128_be(self.serial) + leaders_enc(owners_view(
                    self.owners@,
                ).take(i as int)));
            }
        }
        proof {
            assert(owners_view(self.owners@).take(self.owners@.len() as int) =~= owners_view(
                self.owners@,
            ));
        }
        serialize_raw(self.initial_key.kes_public_key.as_bytes(), &mut v);
        serialize_raw(self.initial_key.vrf_public_key.as_bytes(), &mut v);
        proof {
            assert(v@ =~= pool_id_preimage(
                self.serial,
                owners_view(self.owners@),
                self.initial_key.kes_public_key@,
                self.initial_key.vrf_public_key@,
            ));
        }
        StakePoolId { hash: crate::hash::Hash::hash_bytes(v.as_slice()) }
    }

    /// Append the registration's wire bytes.
    pub fn serialize(&self, out: &mut Vec<u8>)
        requires
            self.owners@.len() < 256,
        ensures
            final(out)@ == old(out)@ + pool_info_enc(
                self.serial,
                owners_view(self.owners@),
                self.initial_key.kes_public_key@,
                self.initial_key.vrf_public_key@,
            ),
    {
        let ghost base = out@;
        put_u128(out, self.serial);
        put_u8(out, self.owners.len() as u8);
        let ghost lbase = out@;
        let mut i: usize = 0;
        while i < self.owners.len()
            invariant
                0 <= i <= self.owners@.len(),
                out@ == lbase + leaders_enc(owners_view(self.owners@).take(i as int)),
            decreases self.owners@.len() - i,
        {
            proof {
                lemma_leaders_enc_snoc(owners_view(self.owners@), i as int);
            }
            serialize_raw(self.owners[i].as_bytes(), out);
            i = i + 1;
            proof {
                assert(out@ =~= lbase + leaders_enc(owners_view(self.owners@).take(i as int)));
            }
        }
        proof {
            assert(owners_view(self.owners@).take(self.owners@.len() as int) =~= owners_view(
                self.owners@,
            ));
        }
        serialize_raw(self.initial_key.kes_public_key.as_bytes(), out);
        serialize_raw(self.initial_key.vrf_public_key.as_bytes(), out);
        proof {
            assert(out@ =~= base + pool_info_enc(
                self.serial,
                owners_view(self.owners@),
                self.initial_key.kes_public_key@,
                self.initial_key.vrf_public_key@,
            ));
        }
    }

    /// Read one registration.
    #[verifier::rlimit(100)]
    pub fn read(rb: &mut ReadBuf) -> (r: Result<Self, ReadError>)
        ensures
            final(rb).all_bytes() == old(rb).all_bytes(),
            final(rb).pos() >= old(rb).pos(),
            match r {
                Ok(p) => parse_pool_info(old(rb).suffix()) == Some(
                    ((p.serial, owners_view(p.owners@), p.initial_key.kes_public_key@,
                    p.initial_key.vrf_public_key@), final(rb).pos() - old(rb).pos()),
                ),
                Err(_) => parse_pool_info(old(rb).suffix()) is None,
            },
    {
        let ghost s = rb.suffix();
        let ghost p0 = rb.pos();
        let ghost all0 = rb.all_bytes();
        let serial = match rb.get_u128() {
            Ok(v) => v,
            Err(e) => {
                return Err(e);
            },
        };
        proof {
            assert(s.take(16) =~= all0.subrange(p0, p0 + 16));
            lemma_be16_val_of_u128(serial);
        }
        let n = match rb.get_u8() {
            Ok(v) => v,
            Err(e) => {
                proof {
                    assert(s.len() < 17);
                }
                return Err(e);
            },
        };
        proof {
            assert(n == s[16]);
            assert(s.skip(17) =~= all0.skip(p0 + 17));
        }
        let owners = match read_owner_list(rb, n) {
            Ok(v) => v,
            Err(e) => {
                return Err(e);
            },
        };
        let ghost c = rb.pos() - (p0 + 17);
        let initial_key = match GenesisPraosLeader::read(rb) {
            Ok(v) => v,
            Err(e) => {
                proof {
                    assert(s.len() < 17 + c + KES_PUBLIC_KEY_SIZE + VRF_PUBLIC_KEY_SIZE);
                }
                return Err(e);
            },
        };
        proof {
            assert(s.subrange(17 + c, 17 + c + KES_PUBLIC_KEY_SIZE as int) =~= all0.subrange(
                p0 + 17 + c,
                p0 + 17 + c + KES_PUBLIC_KEY_SIZE,
            ));
            assert(s.subrange(
                17 + c + KES_PUBLIC_KEY_SIZE as int,
                17 + c + KES_PUBLIC_KEY_SIZE + VRF_PUBLIC_KEY_SIZE,
            ) =~= all0.subrange(
                p0 + 17 + c + KES_PUBLIC_KEY_SIZE,
                p0 + 17 + c + KES_PUBLIC_KEY_SIZE + VRF_PUBLIC_KEY_SIZE,
            ));
        }
        Ok(StakePoolInfo { serial, owners, initial_key })
    }
}

/// Read `n` owner keys of fixed width.
fn read_owner_list(rb: &mut ReadBuf, n: u8) -> (r: Result<Vec<StakeKeyId>, ReadError>)
    ensures
        final(rb).all_bytes() == old(rb).all_bytes(),
        final(rb).pos() >= old(rb).pos(),
        0 <= old(rb).pos(),
        final(rb).pos() <= final(rb).all_bytes().len(),
        match r {
            Ok(ls) => parse_leaders(old(rb).suffix(), n as nat) == Some(
                (owners_view(ls@), final(rb).pos() - old(rb).pos()),
            ),
            Err(_) => parse_leaders(old(rb).suffix(), n as nat) is None,
        },
{
    let _rem0 = rb.remaining();
    let ghost all0 = rb.all_bytes();
    let ghost lstart = rb.pos();
    let ghost lbody = rb.suffix();
    let mut ls: Vec<StakeKeyId> = Vec::new();
    let mut i: usize = 0;
    while i < n as usize
        invariant
            all0 == old(rb).all_bytes(),
            lstart == old(rb).pos(),
            lbody == old(rb).suffix(),
            rb.all_bytes() == all0,
            0 <= lstart <= rb.pos() <= all0.len(),
            lbody == all0.skip(lstart),
            0 <= i <= n,
            ls@.len() == i,
            match parse_leaders(all0.skip(rb.pos()), (n - i) as nat) {
                Some(lc) => parse_leaders(lbody, n as nat) == Some(
                    (owners_view(ls@) + lc.0, (rb.pos() - lstart) + lc.1),
                ),
                None => parse_leaders(lbody, n as nat) is None,
            },
        decreases n - i,
    {
        let ghost lh = rb.pos();
        let ghost lcur = all0.skip(lh);
        let chunk = match read_raw(rb, PUBLIC_KEY_SIZE) {
            Ok(c) => c,
            Err(e) => {
                proof {
                    assert(lcur.len() < PUBLIC_KEY_SIZE);
                }
                return Err(e);
            },
        };
        proof {
            assert(lcur.take(PUBLIC_KEY_SIZE as int) =~= all0.subrange(
                lh,
                lh + PUBLIC_KEY_SIZE,
            ));
            assert(lcur.skip(PUBLIC_KEY_SIZE as int) =~= all0.skip(lh + PUBLIC_KEY_SIZE));
        }
        let ghost lsv = owners_view(ls@);
        let ld = StakeKeyId { key: PublicKey::from_bytes(chunk) };
        proof {
            assert(ld@ == lcur.take(PUBLIC_KEY_SIZE as int));
        }
        ls.push(ld);
        proof {
            assert(owners_view(ls@) =~= lsv + seq![lcur.take(PUBLIC_KEY_SIZE as int)]);
            if parse_leaders(all0.skip(rb.pos()), (n - i - 1) as nat) is Some {
                let lc = parse_leaders(all0.skip(rb.pos()), (n - i - 1) as nat).unwrap();
                assert(parse_leaders(lcur, (n - i) as nat) == Some(
                    (seq![lcur.take(PUBLIC_KEY_SIZE as int)] + lc.0, PUBLIC_KEY_SIZE + lc.1),
                ));
                assert(lsv + (seq![lcur.take(PUBLIC_KEY_SIZE as int)] + lc.0) =~= owners_view(
                    ls@,
                ) + lc.0);
            }
        }
        i = i + 1;
    }
    proof {
        assert(parse_leaders(all0.skip(rb.pos()), 0nat) == Some(
            (Seq::<Seq<u8>>::empty(), 0int),
        ));
        assert(owners_view(ls@) + Seq::<Seq<u8>>::empty() =~= owners_view(ls@));
    }
    Ok(ls)
}

} // verus!

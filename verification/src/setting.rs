//! Blockchain settings: the protocol-parameter update codec and the
//! settings record it applies to.
//!
//! Wire format: a stream of `(u16 tag, payload)` records closed by the End
//! tag (0).  Serialization writes present fields in numeric tag order; a
//! reader accepts records in any order, the last value of a repeated tag
//! winning.  A tag outside the closed registry is a fatal decode error.

use vstd::prelude::*;
use crate::packer::{
    u16_be, u32_be, u64_be, put_u8, put_u16, put_u32, put_u64, ReadBuf, ReadError,
    StructureError,
};
use crate::cbor::{be2_val, be4_val, be8_val, lemma_be2_val_of_u16, lemma_be4_val_of_u32,
    lemma_be8_val_of_u64};
use crate::keys::{LeaderId, PUBLIC_KEY_SIZE, serialize_raw, read_raw};

verus! {

broadcast use vstd::group_vstd_default;

/// The consensus algorithm a chain runs under.
#[derive(Clone, Copy, Debug, PartialEq, Eq, Structural)]
pub enum ConsensusVersion {
    Bft,
    GenesisPraos,
}

/// The wire value of a consensus version.
pub open spec fn consensus_to_u16(cv: ConsensusVersion) -> u16 {
    match cv {
        ConsensusVersion::Bft => 1,
        ConsensusVersion::GenesisPraos => 2,
    }
}

/// The consensus version a wire value names, if any.
pub open spec fn consensus_from_u16(v: nat) -> Option<ConsensusVersion> {
    if v == 1 {
        Some(ConsensusVersion::Bft)
    } else if v == 2 {
        Some(ConsensusVersion::GenesisPraos)
    } else {
        None
    }
}

impl ConsensusVersion {
    pub fn to_u16(&self) -> (r: u16)
        ensures
            r == consensus_to_u16(*self),
    {
        match self {
            ConsensusVersion::Bft => 1,
            ConsensusVersion::GenesisPraos => 2,
        }
    }

    pub fn from_u16(v: u16) -> (r: Option<Self>)
        ensures
            r == consensus_from_u16(v as nat),
    {
        if v == 1 {
            Some(ConsensusVersion::Bft)
        } else if v == 2 {
            Some(ConsensusVersion::GenesisPraos)
        } else {
            None
        }
    }
}

/// The linear fee schedule: `constant + coefficient * size + certificate`.
#[derive(Clone, Copy, Debug, PartialEq, Eq, Structural)]
pub struct LinearFee {
    pub constant: u64,
    pub coefficient: u64,
    pub certificate: u64,
}

impl LinearFee {
    pub fn new(constant: u64, coefficient: u64, certificate: u64) -> (r: Self)
        ensures
            r.constant == constant,
            r.coefficient == coefficient,
            r.certificate == certificate,
    {
        LinearFee { constant, coefficient, certificate }
    }
}

/// The mathematical shape of an update proposal: every field optional, the
/// leaders as raw key byte sequences.
pub struct UpdateProposalV {
    pub max_number_of_transactions_per_block: Option<u32>,
    pub bootstrap_key_slots_percentage: Option<u8>,
    pub consensus_version: Option<ConsensusVersion>,
    pub bft_leaders: Option<Seq<Seq<u8>>>,
    pub allow_account_creation: Option<bool>,
    pub linear_fees: Option<LinearFee>,
    pub slot_duration: Option<u8>,
    pub epoch_stability_depth: Option<u32>,
}

/// The proposal with every field absent.
pub open spec fn empty_update() -> UpdateProposalV {
    UpdateProposalV {
        max_number_of_transactions_per_block: None,
        bootstrap_key_slots_percentage: None,
        consensus_version: None,
        bft_leaders: None,
        allow_account_creation: None,
        linear_fees: None,
        slot_duration: None,
        epoch_stability_depth: None,
    }
}

/// The views of a list of leader ids.
pub open spec fn leaders_view(v: Seq<LeaderId>) -> Seq<Seq<u8>> {
    Seq::new(v.len(), |i: int| v[i]@)
}

/// A proposal that the wire format can carry: at most 255 leaders, each of
/// the scheme's key width.
pub open spec fn update_wf(u: UpdateProposalV) -> bool {
    match u.bft_leaders {
        Some(ls) => ls.len() < 256 && forall|i: int|
            0 <= i < ls.len() ==> (#[trigger] ls[i]).len() == PUBLIC_KEY_SIZE,
        None => true,
    }
}

/// Raw concatenation of leader keys.
pub open spec fn leaders_enc(ls: Seq<Seq<u8>>) -> Seq<u8>
    decreases ls.len(),
{
    if ls.len() == 0 {
        Seq::empty()
    } else {
        ls[0] + leaders_enc(ls.skip(1))
    }
}

/// The wire bytes of a proposal: present fields in numeric tag order, then
/// the End tag.
pub open spec fn update_enc(u: UpdateProposalV) -> Seq<u8> {
    (match u.max_number_of_transactions_per_block {
        Some(v) => u16_be(1) + u32_be(v),
        None => Seq::empty(),
    }) + (match u.bootstrap_key_slots_percentage {
        Some(v) => u16_be(2) + seq![v],
        None => Seq::empty(),
    }) + (match u.consensus_version {
        Some(cv) => u16_be(3) + u16_be(consensus_to_u16(cv)),
        None => Seq::empty(),
    }) + (match u.bft_leaders {
        Some(ls) => u16_be(4) + seq![ls.len() as u8] + leaders_enc(ls),
        None => Seq::empty(),
    }) + (match u.allow_account_creation {
        Some(b) => u16_be(5) + seq![if b { 1u8 } else { 0u8 }],
        None => Seq::empty(),
    }) + (match u.linear_fees {
        Some(f) => u16_be(6) + u64_be(f.constant) + u64_be(f.coefficient) + u64_be(
            f.certificate,
        ),
        None => Seq::empty(),
    }) + (match u.slot_duration {
        Some(v) => u16_be(7) + seq![v],
        None => Seq::empty(),
    }) + (match u.epoch_stability_depth {
        Some(v) => u16_be(8) + u32_be(v),
        None => Seq::empty(),
    }) + u16_be(0)
}

/// Parse `n` leader keys of fixed width: the keys and the bytes consumed.
pub open spec fn parse_leaders(s: Seq<u8>, n: nat) -> Option<(Seq<Seq<u8>>, int)>
    decreases n,
{
    if n == 0 {
        Some((Seq::empty(), 0))
    } else if s.len() >= PUBLIC_KEY_SIZE {
        match parse_leaders(s.skip(PUBLIC_KEY_SIZE as int), (n - 1) as nat) {
            Some(tc) => Some(
                (seq![s.take(PUBLIC_KEY_SIZE as int)] + tc.0, PUBLIC_KEY_SIZE + tc.1),
            ),
            None => None,
        }
    } else {
        None
    }
}

/// Parse update records into `u` until the End tag: the finished proposal
/// and the bytes consumed.  Records may come in any order; the last value
/// of a repeated tag wins; an unknown tag fails.
#[verifier::opaque]
pub open spec fn parse_update_from(u: UpdateProposalV, s: Seq<u8>) -> Option<
    (UpdateProposalV, int),
>
    decreases s.len(), 1nat,
{
    if s.len() < 2 {
        None
    } else {
        let tag = be2_val(s.take(2));
        let body = s.skip(2);
        if tag == 0 {
            Some((u, 2))
        } else if tag == 1 {
            if body.len() >= 4 {
                parse_update_more(
                    UpdateProposalV {
                        max_number_of_transactions_per_block: Some(
                            be4_val(body.take(4)) as u32,
                        ),
                        ..u
                    },
                    s,
                    6int,
                )
            } else {
                None
            }
        } else if tag == 2 {
            if body.len() >= 1 {
                parse_update_more(
                    UpdateProposalV { bootstrap_key_slots_percentage: Some(body[0]), ..u },
                    s,
                    3int,
                )
            } else {
                None
            }
        } else if tag == 3 {
            if body.len() >= 2 {
                match consensus_from_u16(be2_val(body.take(2))) {
                    Some(cv) => parse_update_more(
                        UpdateProposalV { consensus_version: Some(cv), ..u },
                        s,
                        4int,
                    ),
                    None => None,
                }
            } else {
                None
            }
        } else if tag == 4 {
            if body.len() >= 1 {
                match parse_leaders(body.skip(1), body[0] as nat) {
                    Some(lc) => parse_update_more(
                        UpdateProposalV { bft_leaders: Some(lc.0), ..u },
                        s,
                        3 + lc.1,
                    ),
                    None => None,
                }
            } else {
                None
            }
        } else if tag == 5 {
            if body.len() >= 1 {
                parse_update_more(
                    UpdateProposalV { allow_account_creation: Some(body[0] != 0), ..u },
                    s,
                    3int,
                )
            } else {
                None
            }
        } else if tag == 6 {
            if body.len() >= 24 {
                parse_update_more(
                    UpdateProposalV {
                        linear_fees: Some(
                            LinearFee {
                                constant: be8_val(body.take(8)) as u64,
                                coefficient: be8_val(body.subrange(8, 16)) as u64,
                                certificate: be8_val(body.subrange(16, 24)) as u64,
                            },
                        ),
                        ..u
                    },
                    s,
                    26int,
                )
            } else {
                None
            }
        } else if tag == 7 {
            if body.len() >= 1 {
                parse_update_more(
                    UpdateProposalV { slot_duration: Some(body[0]), ..u },
                    s,
                    3int,
                )
            } else {
                None
            }
        } else if tag == 8 {
            if body.len() >= 4 {
                parse_update_more(
                    UpdateProposalV {
                        epoch_stability_depth: Some(be4_val(body.take(4)) as u32),
                        ..u
                    },
                    s,
                    6int,
                )
            } else {
                None
            }
        } else {
            None
        }
    }
}

/// Continue parsing after a record that consumed `k` bytes of `s`.
#[verifier::opaque]
pub open spec fn parse_update_more(u: UpdateProposalV, s: Seq<u8>, k: int) -> Option<
    (UpdateProposalV, int),
>
    decreases s.len(), 0nat,
{
    if 2 <= k <= s.len() {
        match parse_update_from(u, s.skip(k)) {
            Some(uc) => Some((uc.0, k + uc.1)),
            None => None,
        }
    } else {
        None
    }
}

/// The bytes of `n` encoded leaders grow from the right as leaders are
/// appended.
pub proof fn lemma_leaders_enc_snoc(ls: Seq<Seq<u8>>, i: int)
    requires
        0 <= i < ls.len(),
    ensures
        leaders_enc(ls.take(i + 1)) == leaders_enc(ls.take(i)) + ls[i],
    decreases i,
{
    if i == 0 {
        assert(ls.take(1) =~= seq![ls[0]]);
        assert(ls.take(1).skip(1) =~= Seq::<Seq<u8>>::empty());
        assert(ls.take(0) =~= Seq::<Seq<u8>>::empty());
        assert(leaders_enc(ls.take(1)) =~= leaders_enc(ls.take(0)) + ls[0]);
    } else {
        lemma_leaders_enc_snoc(ls.skip(1), i - 1);
        assert(ls.take(i + 1).skip(1) =~= ls.skip(1).take(i));
        assert(ls.take(i).skip(1) =~= ls.skip(1).take(i - 1));
        assert(ls.take(i + 1)[0] == ls[0]);
        assert(ls.take(i)[0] == ls[0]);
        assert(ls.skip(1)[i - 1] == ls[i]);
        assert(leaders_enc(ls.take(i)) + ls[i] =~= ls[0] + (leaders_enc(ls.skip(1).take(i - 1))
            + ls.skip(1)[i - 1]));
    }
}

/// Parsing freshly encoded leaders gives them back, whatever follows.
pub proof fn lemma_leaders_rt(ls: Seq<Seq<u8>>, rest: Seq<u8>)
    requires
        forall|i: int| 0 <= i < ls.len() ==> (#[trigger] ls[i]).len() == PUBLIC_KEY_SIZE,
    ensures
        leaders_enc(ls).len() == PUBLIC_KEY_SIZE * ls.len(),
        parse_leaders(leaders_enc(ls) + rest, ls.len()) == Some(
            (ls, PUBLIC_KEY_SIZE * ls.len()),
        ),
    decreases ls.len(),
{
    let s = leaders_enc(ls) + rest;
    if ls.len() == 0 {
        assert(ls =~= Seq::<Seq<u8>>::empty());
    } else {
        lemma_leaders_rt(ls.skip(1), rest);
        assert(s.take(PUBLIC_KEY_SIZE as int) =~= ls[0]);
        assert(s.skip(PUBLIC_KEY_SIZE as int) =~= leaders_enc(ls.skip(1)) + rest);
        assert(seq![ls[0]] + ls.skip(1) =~= ls);
    }
}

/// Parsed leaders re-encode to exactly the bytes consumed.
pub proof fn lemma_leaders_canon(s: Seq<u8>, n: nat, ls: Seq<Seq<u8>>, c: int)
    requires
        parse_leaders(s, n) == Some((ls, c)),
    ensures
        ls.len() == n,
        c == PUBLIC_KEY_SIZE * n,
        c <= s.len(),
        forall|i: int| 0 <= i < ls.len() ==> (#[trigger] ls[i]).len() == PUBLIC_KEY_SIZE,
        leaders_enc(ls) == s.subrange(0, c),
    decreases n,
{
    if n == 0 {
        assert(leaders_enc(ls) =~= s.subrange(0, 0));
    } else {
        let (tl, c2) = parse_leaders(s.skip(PUBLIC_KEY_SIZE as int), (n - 1) as nat).unwrap();
        lemma_leaders_canon(s.skip(PUBLIC_KEY_SIZE as int), (n - 1) as nat, tl, c2);
        assert(ls[0] == s.take(PUBLIC_KEY_SIZE as int));
        assert(ls.skip(1) =~= tl);
        assert(leaders_enc(ls) == ls[0] + leaders_enc(tl));
        assert(s.skip(PUBLIC_KEY_SIZE as int).subrange(0, c2) =~= s.subrange(
            PUBLIC_KEY_SIZE as int,
            PUBLIC_KEY_SIZE + c2,
        ));
        assert(leaders_enc(ls) =~= s.subrange(0, c));
    }
}

/// Sequence concatenation reassociates.
proof fn lemma_seq_assoc(a: Seq<u8>, b: Seq<u8>, c: Seq<u8>)
    ensures
        (a + b) + c == a + (b + c),
{
    assert((a + b) + c =~= a + (b + c));
}

/// A protocol-parameter update: a bag of optional typed settings.  At most
/// one value per field; applying the proposal overwrites only the fields
/// present.
#[derive(Debug)]
pub struct UpdateProposal {
    pub max_number_of_transactions_per_block: Option<u32>,
    pub bootstrap_key_slots_percentage: Option<u8>,
    pub consensus_version: Option<ConsensusVersion>,
    pub bft_leaders: Option<Vec<LeaderId>>,
    pub allow_account_creation: Option<bool>,
    pub linear_fees: Option<LinearFee>,
    pub slot_duration: Option<u8>,
    pub epoch_stability_depth: Option<u32>,
}

impl View for UpdateProposal {
    type V = UpdateProposalV;

    open spec fn view(&self) -> UpdateProposalV {
        UpdateProposalV {
            max_number_of_transactions_per_block: self.max_number_of_transactions_per_block,
            bootstrap_key_slots_percentage: self.bootstrap_key_slots_percentage,
            consensus_version: self.consensus_version,
            bft_leaders: match self.bft_leaders {
                Some(v) => Some(leaders_view(v@)),
                None => None,
            },
            allow_account_creation: self.allow_account_creation,
            linear_fees: self.linear_fees,
            slot_duration: self.slot_duration,
            epoch_stability_depth: self.epoch_stability_depth,
        }
    }
}

impl UpdateProposal {
    /// The proposal with every field absent.
    pub fn new() -> (r: Self)
        ensures
            r@ == empty_update(),
    {
        UpdateProposal {
            max_number_of_transactions_per_block: None,
            bootstrap_key_slots_percentage: None,
            consensus_version: None,
            bft_leaders: None,
            allow_account_creation: None,
            linear_fees: None,
            slot_duration: None,
            epoch_stability_depth: None,
        }
    }

    /// Append the proposal's wire bytes: present fields in numeric tag
    /// order, closed by the End tag.
    pub fn serialize(&self, out: &mut Vec<u8>)
        requires
            match self.bft_leaders {
                Some(ls) => ls@.len() < 256,
                None => true,
            },
        ensures
            final(out)@ == old(out)@ + update_enc(self@),
            update_wf(self@),
    {
        let ghost base = out@;
        let ghost u = self@;
        let ghost e1 = (match u.max_number_of_transactions_per_block {
            Some(v) => u16_be(1) + u32_be(v),
            None => Seq::<u8>::empty(),
        });
        let ghost e2 = (match u.bootstrap_key_slots_percentage {
            Some(v) => u16_be(2) + seq![v],
            None => Seq::<u8>::empty(),
        });
        let ghost e3 = (match u.consensus_version {
            Some(cv) => u16_be(3) + u16_be(consensus_to_u16(cv)),
            None => Seq::<u8>::empty(),
        });
        let ghost e4 = (match u.bft_leaders {
            Some(ls) => u16_be(4) + seq![ls.len() as u8] + leaders_enc(ls),
            None => Seq::<u8>::empty(),
        });
        let ghost e5 = (match u.allow_account_creation {
            Some(b) => u16_be(5) + seq![if b { 1u8 } else { 0u8 }],
            None => Seq::<u8>::empty(),
        });
        let ghost e6 = (match u.linear_fees {
            Some(f) => u16_be(6) + u64_be(f.constant) + u64_be(f.coefficient) + u64_be(
                f.certificate,
            ),
            None => Seq::<u8>::empty(),
        });
        let ghost e7 = (match u.slot_duration {
            Some(v) => u16_be(7) + seq![v],
            None => Seq::<u8>::empty(),
        });
        let ghost e8 = (match u.epoch_stability_depth {
            Some(v) => u16_be(8) + u32_be(v),
            None => Seq::<u8>::empty(),
        });
        if let Some(v) = self.max_number_of_transactions_per_block {
            put_u16(out, 1);
            put_u32(out, v);
            proof {
                lemma_seq_assoc(base, u16_be(1), u32_be(v));
            }
        } else {
            proof {
                assert(base + e1 =~= base);
            }
        }
        let ghost p1 = e1;
        assert(out@ == base + p1);
        if let Some(v) = self.bootstrap_key_slots_percentage {
            put_u16(out, 2);
            put_u8(out, v);
            proof {
                lemma_seq_assoc(base + p1, u16_be(2), seq![v]);
                lemma_seq_assoc(base, p1, e2);
            }
        } else {
            proof {
                assert(p1 + e2 =~= p1);
            }
        }
        let ghost p2 = p1 + e2;
        assert(out@ == base + p2);
        if let Some(cv) = &self.consensus_version {
            put_u16(out, 3);
            let w = cv.to_u16();
            put_u16(out, w);
            proof {
                lemma_seq_assoc(base + p2, u16_be(3), u16_be(consensus_to_u16(*cv)));
                lemma_seq_assoc(base, p2, e3);
            }
        } else {
            proof {
                assert(p2 + e3 =~= p2);
            }
        }
        let ghost p3 = p2 + e3;
        assert(out@ == base + p3);
        if let Some(leaders) = &self.bft_leaders {
            put_u16(out, 4);
            put_u8(out, leaders.len() as u8);
            let ghost lbase = out@;
            let mut i: usize = 0;
            while i < leaders.len()
                invariant
                    0 <= i <= leaders@.len(),
                    out@ == lbase + leaders_enc(leaders_view(leaders@).take(i as int)),
                    forall|j: int| 0 <= j < i ==> (#[trigger] leaders_view(leaders@)[j]).len()
                        == PUBLIC_KEY_SIZE,
                decreases leaders@.len() - i,
            {
                let ld = &leaders[i];
                proof {
                    lemma_leaders_enc_snoc(leaders_view(leaders@), i as int);
                    lemma_seq_assoc(
                        lbase,
                        leaders_enc(leaders_view(leaders@).take(i as int)),
                        leaders_view(leaders@)[i as int],
                    );
                }
                serialize_raw(ld.as_bytes(), out);
                i = i + 1;
            }
            proof {
                assert(leaders_view(leaders@).take(leaders@.len() as int) =~= leaders_view(
                    leaders@,
                ));
                let h4 = u16_be(4) + seq![leaders@.len() as u8];
                assert(lbase == (base + p3) + h4) by {
                    lemma_seq_assoc(base + p3, u16_be(4), seq![leaders@.len() as u8]);
                }
                lemma_seq_assoc(base + p3, h4, leaders_enc(leaders_view(leaders@)));
                lemma_seq_assoc(base, p3, e4);
            }
        } else {
            proof {
                assert(p3 + e4 =~= p3);
            }
        }
        let ghost p4 = p3 + e4;
        assert(out@ == base + p4);
        if let Some(b) = self.allow_account_creation {
            put_u16(out, 5);
            put_u8(out, if b { 1 } else { 0 });
            proof {
                lemma_seq_assoc(base + p4, u16_be(5), seq![if b { 1u8 } else { 0u8 }]);
                lemma_seq_assoc(base, p4, e5);
            }
        } else {
            proof {
                assert(p4 + e5 =~= p4);
            }
        }
        let ghost p5 = p4 + e5;
        assert(out@ == base + p5);
        if let Some(f) = &self.linear_fees {
            put_u16(out, 6);
            put_u64(out, f.constant);
            put_u64(out, f.coefficient);
            put_u64(out, f.certificate);
            proof {
                let x = base + p5;
                lemma_seq_assoc(x, u16_be(6), u64_be(f.constant));
                lemma_seq_assoc(x, u16_be(6) + u64_be(f.constant), u64_be(f.coefficient));
                lemma_seq_assoc(
                    x,
                    u16_be(6) + u64_be(f.constant) + u64_be(f.coefficient),
                    u64_be(f.certificate),
                );
                lemma_seq_assoc(base, p5, e6);
            }
        } else {
            proof {
                assert(p5 + e6 =~= p5);
            }
        }
        let ghost p6 = p5 + e6;
        assert(out@ == base + p6);
        if let Some(v) = self.slot_duration {
            put_u16(out, 7);
            put_u8(out, v);
            proof {
                lemma_seq_assoc(base + p6, u16_be(7), seq![v]);
                lemma_seq_assoc(base, p6, e7);
            }
        } else {
            proof {
                assert(p6 + e7 =~= p6);
            }
        }
        let ghost p7 = p6 + e7;
        assert(out@ == base + p7);
        if let Some(v) = self.epoch_stability_depth {
            put_u16(out, 8);
            put_u32(out, v);
            proof {
                lemma_seq_assoc(base + p7, u16_be(8), u32_be(v));
                lemma_seq_assoc(base, p7, e8);
            }
        } else {
            proof {
                assert(p7 + e8 =~= p7);
            }
        }
        let ghost p8 = p7 + e8;
        assert(out@ == base + p8);
        put_u16(out, 0);
        proof {
            lemma_seq_assoc(base, p8, u16_be(0));
            assert(update_enc(u) == p8 + u16_be(0));
        }
    }
}

/// Appending a leader extends the list of views at its end.
proof fn lemma_leaders_view_push(v: Seq<LeaderId>, x: LeaderId)
    ensures
        leaders_view(v.push(x)) == leaders_view(v) + seq![x@],
{
    assert(leaders_view(v.push(x)) =~= leaders_view(v) + seq![x@]);
}

/// Shift the consumed-byte count of a parse outcome by `k`.
pub open spec fn shift_parse(o: Option<(UpdateProposalV, int)>, k: int) -> Option<
    (UpdateProposalV, int),
> {
    match o {
        Some(uc) => Some((uc.0, k + uc.1)),
        None => None,
    }
}

/// An End tag finishes the proposal.
proof fn lemma_parse_end(u: UpdateProposalV, s: Seq<u8>)
    requires
        s.len() >= 2,
        be2_val(s.take(2)) == 0,
    ensures
        parse_update_from(u, s) == Some((u, 2int)),
{
    reveal(parse_update_from);
}

/// Too few bytes for a tag.
proof fn lemma_parse_short(u: UpdateProposalV, s: Seq<u8>)
    requires
        s.len() < 2,
    ensures
        parse_update_from(u, s) is None,
{
    reveal(parse_update_from);
}

/// A tag outside the closed registry fails.
proof fn lemma_parse_unknown(u: UpdateProposalV, s: Seq<u8>, tag: nat)
    requires
        s.len() >= 2,
        be2_val(s.take(2)) == tag,
        tag > 8,
    ensures
        parse_update_from(u, s) is None,
{
    reveal(parse_update_from);
}

/// A known tag whose payload is cut short fails.
proof fn lemma_parse_payload_short(u: UpdateProposalV, s: Seq<u8>, tag: nat, min: int)
    requires
        s.len() >= 2,
        be2_val(s.take(2)) == tag,
        1 <= tag <= 8,
        tag == 1 ==> min == 4,
        tag == 2 ==> min == 1,
        tag == 3 ==> min == 2,
        tag == 4 ==> min == 1,
        tag == 5 ==> min == 1,
        tag == 6 ==> min == 24,
        tag == 7 ==> min == 1,
        tag == 8 ==> min == 4,
        s.len() < 2 + min,
    ensures
        parse_update_from(u, s) is None,
{
    reveal(parse_update_from);
}

/// Stepping over one record continues the parse with the field set.
proof fn lemma_step_tag1(u: UpdateProposalV, s: Seq<u8>, v: u32)
    requires
        s.len() >= 6,
        be2_val(s.take(2)) == 1,
        be4_val(s.skip(2).take(4)) == v,
    ensures
        parse_update_from(u, s) == shift_parse(
            parse_update_from(
                UpdateProposalV { max_number_of_transactions_per_block: Some(v), ..u },
                s.skip(6),
            ),
            6,
        ),
{
    reveal(parse_update_from);
    reveal(parse_update_more);
    assert(s.skip(2).skip(4) =~= s.skip(6));
}

proof fn lemma_step_tag2(u: UpdateProposalV, s: Seq<u8>, v: u8)
    requires
        s.len() >= 3,
        be2_val(s.take(2)) == 2,
        s.skip(2)[0] == v,
    ensures
        parse_update_from(u, s) == shift_parse(
            parse_update_from(
                UpdateProposalV { bootstrap_key_slots_percentage: Some(v), ..u },
                s.skip(3),
            ),
            3,
        ),
{
    reveal(parse_update_from);
    reveal(parse_update_more);
    assert(s.skip(2).skip(1) =~= s.skip(3));
}

proof fn lemma_step_tag3(u: UpdateProposalV, s: Seq<u8>, cv: ConsensusVersion)
    requires
        s.len() >= 4,
        be2_val(s.take(2)) == 3,
        consensus_from_u16(be2_val(s.skip(2).take(2))) == Some(cv),
    ensures
        parse_update_from(u, s) == shift_parse(
            parse_update_from(UpdateProposalV { consensus_version: Some(cv), ..u }, s.skip(4)),
            4,
        ),
{
    reveal(parse_update_from);
    reveal(parse_update_more);
    assert(s.skip(2).skip(2) =~= s.skip(4));
}

proof fn lemma_step_tag3_bad(u: UpdateProposalV, s: Seq<u8>)
    requires
        s.len() >= 4,
        be2_val(s.take(2)) == 3,
        consensus_from_u16(be2_val(s.skip(2).take(2))) is None,
    ensures
        parse_update_from(u, s) is None,
{
    reveal(parse_update_from);
}

proof fn lemma_step_tag4(u: UpdateProposalV, s: Seq<u8>, n: u8)
    requires
        s.len() >= 3,
        be2_val(s.take(2)) == 4,
        s.skip(2)[0] == n,
    ensures
        parse_update_from(u, s) == (match parse_leaders(s.skip(3), n as nat) {
            Some(lc) => shift_parse(
                parse_update_from(
                    UpdateProposalV { bft_leaders: Some(lc.0), ..u },
                    s.skip(3 + lc.1),
                ),
                3 + lc.1,
            ),
            None => None,
        }),
{
    reveal(parse_update_from);
    reveal(parse_update_more);
    assert(s.skip(2).skip(1) =~= s.skip(3));
    if parse_leaders(s.skip(3), n as nat) is Some {
        let lc = parse_leaders(s.skip(3), n as nat).unwrap();
        lemma_leaders_canon(s.skip(3), n as nat, lc.0, lc.1);
    }
}

proof fn lemma_step_tag5(u: UpdateProposalV, s: Seq<u8>, v: u8)
    requires
        s.len() >= 3,
        be2_val(s.take(2)) == 5,
        s.skip(2)[0] == v,
    ensures
        parse_update_from(u, s) == shift_parse(
            parse_update_from(
                UpdateProposalV { allow_account_creation: Some(v != 0), ..u },
                s.skip(3),
            ),
            3,
        ),
{
    reveal(parse_update_from);
    reveal(parse_update_more);
    assert(s.skip(2).skip(1) =~= s.skip(3));
}

proof fn lemma_step_tag6(u: UpdateProposalV, s: Seq<u8>, a: u64, b: u64, c: u64)
    requires
        s.len() >= 26,
        be2_val(s.take(2)) == 6,
        be8_val(s.skip(2).take(8)) == a,
        be8_val(s.skip(2).subrange(8, 16)) == b,
        be8_val(s.skip(2).subrange(16, 24)) == c,
    ensures
        parse_update_from(u, s) == shift_parse(
            parse_update_from(
                UpdateProposalV {
                    linear_fees: Some(
                        LinearFee { constant: a, coefficient: b, certificate: c },
                    ),
                    ..u
                },
                s.skip(26),
            ),
            26,
        ),
{
    reveal(parse_update_from);
    reveal(parse_update_more);
    assert(s.skip(2).skip(24) =~= s.skip(26));
}

proof fn lemma_step_tag7(u: UpdateProposalV, s: Seq<u8>, v: u8)
    requires
        s.len() >= 3,
        be2_val(s.take(2)) == 7,
        s.skip(2)[0] == v,
    ensures
        parse_update_from(u, s) == shift_parse(
            parse_update_from(UpdateProposalV { slot_duration: Some(v), ..u }, s.skip(3)),
            3,
        ),
{
    reveal(parse_update_from);
    reveal(parse_update_more);
    assert(s.skip(2).skip(1) =~= s.skip(3));
}

proof fn lemma_step_tag8(u: UpdateProposalV, s: Seq<u8>, v: u32)
    requires
        s.len() >= 6,
        be2_val(s.take(2)) == 8,
        be4_val(s.skip(2).take(4)) == v,
    ensures
        parse_update_from(u, s) == shift_parse(
            parse_update_from(
                UpdateProposalV { epoch_stability_depth: Some(v), ..u },
                s.skip(6),
            ),
            6,
        ),
{
    reveal(parse_update_from);
    reveal(parse_update_more);
    assert(s.skip(2).skip(4) =~= s.skip(6));
}

/// Read `n` leader ids of fixed width.
fn read_leader_list(rb: &mut ReadBuf, n: u8) -> (r: Result<Vec<LeaderId>, ReadError>)
    ensures
        final(rb).all_bytes() == old(rb).all_bytes(),
        final(rb).pos() >= old(rb).pos(),
        0 <= old(rb).pos(),
        final(rb).pos() <= final(rb).all_bytes().len(),
        match r {
            Ok(ls) => parse_leaders(old(rb).suffix(), n as nat) == Some(
                (leaders_view(ls@), final(rb).pos() - old(rb).pos()),
            ),
            Err(_) => parse_leaders(old(rb).suffix(), n as nat) is None,
        },
{
    let _rem0 = rb.remaining();
    let ghost all0 = rb.all_bytes();
    let ghost lstart = rb.pos();
    let ghost lbody = rb.suffix();
    let mut ls: Vec<LeaderId> = Vec::new();
    let mut i: usize = 0;
    while i < n as usize
        invariant
            all0 == old(rb).all_bytes(),
            lstart == old(rb).pos(),
            lbody == old(rb).suffix(),
            rb.all_bytes() == all0,
            0 <= lstart <= rb.pos() <= all0.len(),
            lbody == all0.skip(lstart),
            0 <= i <= n,
            ls@.len() == i,
            match parse_leaders(all0.skip(rb.pos()), (n - i) as nat) {
                Some(lc) => parse_leaders(lbody, n as nat) == Some(
                    (leaders_view(ls@) + lc.0, (rb.pos() - lstart) + lc.1),
                ),
                None => parse_leaders(lbody, n as nat) is None,
            },
        decreases n - i,
    {
        let ghost lh = rb.pos();
        let ghost lcur = all0.skip(lh);
        let chunk = match read_raw(rb, PUBLIC_KEY_SIZE) {
            Ok(c) => c,
            Err(e) => {
                proof {
                    assert(lcur.len() < PUBLIC_KEY_SIZE);
                }
                return Err(e);
            },
        };
        proof {
            assert(lcur.take(PUBLIC_KEY_SIZE as int) =~= all0.subrange(
                lh,
                lh + PUBLIC_KEY_SIZE,
            ));
            assert(lcur.skip(PUBLIC_KEY_SIZE as int) =~= all0.skip(lh + PUBLIC_KEY_SIZE));
        }
        let ghost lsv = leaders_view(ls@);
        let ld = LeaderId::from_bytes(chunk);
        proof {
            assert(ld@ == lcur.take(PUBLIC_KEY_SIZE as int));
            lemma_leaders_view_push(ls@, ld);
        }
        ls.push(ld);
        proof {
            assert(leaders_view(ls@) =~= lsv + seq![lcur.take(PUBLIC_KEY_SIZE as int)]);
            if parse_leaders(all0.skip(rb.pos()), (n - i - 1) as nat) is Some {
                let lc = parse_leaders(all0.skip(rb.pos()), (n - i - 1) as nat).unwrap();
                assert(parse_leaders(lcur, (n - i) as nat) == Some(
                    (seq![lcur.take(PUBLIC_KEY_SIZE as int)] + lc.0, PUBLIC_KEY_SIZE + lc.1),
                ));
                assert(lsv + (seq![lcur.take(PUBLIC_KEY_SIZE as int)] + lc.0) =~= leaders_view(
                    ls@,
                ) + lc.0);
            }
        }
        i = i + 1;
    }
    proof {
        assert(parse_leaders(all0.skip(rb.pos()), 0nat) == Some(
            (Seq::<Seq<u8>>::empty(), 0int),
        ));
        assert(leaders_view(ls@) + Seq::<Seq<u8>>::empty() =~= leaders_view(ls@));
    }
    Ok(ls)
}

impl UpdateProposal {
    /// Read records until the End tag, later records of a repeated tag
    /// overwriting earlier ones; a tag outside the registry fails with
    /// `UnknownTag`.
    #[verifier::rlimit(100)]
    pub fn read(rb: &mut ReadBuf) -> (r: Result<UpdateProposal, ReadError>)
        ensures
            final(rb).all_bytes() == old(rb).all_bytes(),
            final(rb).pos() >= old(rb).pos(),
            match r {
                Ok(u) => parse_update_from(empty_update(), old(rb).suffix()) == Some(
                    (u@, final(rb).pos() - old(rb).pos()),
                ),
                Err(_) => parse_update_from(empty_update(), old(rb).suffix()) is None,
            },
    {
        let _rem0 = rb.remaining();
        let ghost all0 = rb.all_bytes();
        let ghost p0 = rb.pos();
        let ghost s0 = rb.suffix();
        let mut update = UpdateProposal::new();
        loop
            invariant
                all0 == old(rb).all_bytes(),
                p0 == old(rb).pos(),
                s0 == old(rb).suffix(),
                rb.all_bytes() == all0,
                0 <= p0 <= rb.pos() <= all0.len(),
                s0 == all0.skip(p0),
                match parse_update_from(update@, all0.skip(rb.pos())) {
                    Some(uc) => parse_update_from(empty_update(), s0) == Some(
                        (uc.0, rb.pos() - p0 + uc.1),
                    ),
                    None => parse_update_from(empty_update(), s0) is None,
                },
            decreases rb.remaining_spec(),
        {
            let ghost ph = rb.pos();
            let ghost cur = rb.suffix();
            let ghost uv = update@;
            let tag = match rb.get_u16() {
                Ok(t) => t,
                Err(e) => {
                    proof {
                        lemma_parse_short(uv, cur);
                    }
                    return Err(e);
                },
            };
            proof {
                assert(cur.take(2) =~= all0.subrange(ph, ph + 2));
                lemma_be2_val_of_u16(tag);
                assert(be2_val(cur.take(2)) == tag);
                assert(cur.skip(2) =~= all0.skip(ph + 2));
            }
            if tag == 0 {
                proof {
                    lemma_parse_end(uv, cur);
                }
                return Ok(update);
            } else if tag == 1 {
                let v = match rb.get_u32() {
                    Ok(v) => v,
                    Err(e) => {
                        proof {
                            lemma_parse_payload_short(uv, cur, 1, 4);
                        }
                        return Err(e);
                    },
                };
                proof {
                    assert(cur.skip(2).take(4) =~= all0.subrange(ph + 2, ph + 6));
                    lemma_be4_val_of_u32(v);
                }
                update.max_number_of_transactions_per_block = Some(v);
                proof {
                    lemma_step_tag1(uv, cur, v);
                    assert(update@ == (UpdateProposalV {
                        max_number_of_transactions_per_block: Some(v),
                        ..uv
                    }));
                    assert(cur.skip(6) =~= all0.skip(ph + 6));
                }
            } else if tag == 2 {
                let v = match rb.get_u8() {
                    Ok(v) => v,
                    Err(e) => {
                        proof {
                            lemma_parse_payload_short(uv, cur, 2, 1);
                        }
                        return Err(e);
                    },
                };
                update.bootstrap_key_slots_percentage = Some(v);
                proof {
                    assert(cur.skip(2)[0] == all0[ph + 2]);
                    lemma_step_tag2(uv, cur, v);
                    assert(update@ == (UpdateProposalV {
                        bootstrap_key_slots_percentage: Some(v),
                        ..uv
                    }));
                    assert(cur.skip(3) =~= all0.skip(ph + 3));
                }
            } else if tag == 3 {
                let w = match rb.get_u16() {
                    Ok(v) => v,
                    Err(e) => {
                        proof {
                            lemma_parse_payload_short(uv, cur, 3, 2);
                        }
                        return Err(e);
                    },
                };
                proof {
                    assert(cur.skip(2).take(2) =~= all0.subrange(ph + 2, ph + 4));
                    lemma_be2_val_of_u16(w);
                }
                let cv = match ConsensusVersion::from_u16(w) {
                    Some(cv) => cv,
                    None => {
                        proof {
                            lemma_step_tag3_bad(uv, cur);
                        }
                        return Err(
                            ReadError::StructureInvalid(StructureError::BadConsensusVersion),
                        );
                    },
                };
                update.consensus_version = Some(cv);
                proof {
                    lemma_step_tag3(uv, cur, cv);
                    assert(update@ == (UpdateProposalV { consensus_version: Some(cv), ..uv }));
                    assert(cur.skip(4) =~= all0.skip(ph + 4));
                }
            } else if tag == 4 {
                let n = match rb.get_u8() {
                    Ok(v) => v,
                    Err(e) => {
                        proof {
                            lemma_parse_payload_short(uv, cur, 4, 1);
                        }
                        return Err(e);
                    },
                };
                proof {
                    assert(cur.skip(2)[0] == all0[ph + 2]);
                    assert(cur.skip(3) =~= all0.skip(ph + 3));
                }
                let ghost lstart = rb.pos();
                let ls = match read_leader_list(rb, n) {
                    Ok(ls) => ls,
                    Err(e) => {
                        proof {
                            lemma_step_tag4(uv, cur, n);
                        }
                        return Err(e);
                    },
                };
                let ghost lc1 = rb.pos() - lstart;
                update.bft_leaders = Some(ls);
                proof {
                    lemma_step_tag4(uv, cur, n);
                    assert(parse_leaders(cur.skip(3), n as nat) == Some(
                        (leaders_view(ls@), lc1),
                    ));
                    assert(update@ == (UpdateProposalV {
                        bft_leaders: Some(leaders_view(ls@)),
                        ..uv
                    }));
                    assert(cur.skip(3 + lc1) =~= all0.skip(rb.pos()));
                }
            } else if tag == 5 {
                let v = match rb.get_u8() {
                    Ok(v) => v,
                    Err(e) => {
                        proof {
                            lemma_parse_payload_short(uv, cur, 5, 1);
                        }
                        return Err(e);
                    },
                };
                update.allow_account_creation = Some(v != 0);
                proof {
                    assert(cur.skip(2)[0] == all0[ph + 2]);
                    lemma_step_tag5(uv, cur, v);
                    assert(update@ == (UpdateProposalV {
                        allow_account_creation: Some(v != 0),
                        ..uv
                    }));
                    assert(cur.skip(3) =~= all0.skip(ph + 3));
                }
            } else if tag == 6 {
                let a = match rb.get_u64() {
                    Ok(v) => v,
                    Err(e) => {
                        proof {
                            lemma_parse_payload_short(uv, cur, 6, 24);
                        }
                        return Err(e);
                    },
                };
                let b = match rb.get_u64() {
                    Ok(v) => v,
                    Err(e) => {
                        proof {
                            lemma_parse_payload_short(uv, cur, 6, 24);
                        }
                        return Err(e);
                    },
                };
                let c = match rb.get_u64() {
                    Ok(v) => v,
                    Err(e) => {
                        proof {
                            lemma_parse_payload_short(uv, cur, 6, 24);
                        }
                        return Err(e);
                    },
                };
                proof {
                    assert(cur.skip(2).take(8) =~= all0.subrange(ph + 2, ph + 10));
                    assert(cur.skip(2).subrange(8, 16) =~= all0.subrange(ph + 10, ph + 18));
                    assert(cur.skip(2).subrange(16, 24) =~= all0.subrange(ph + 18, ph + 26));
                    lemma_be8_val_of_u64(a);
                    lemma_be8_val_of_u64(b);
                    lemma_be8_val_of_u64(c);
                }
                update.linear_fees = Some(LinearFee::new(a, b, c));
                proof {
                    lemma_step_tag6(uv, cur, a, b, c);
                    assert(update@ == (UpdateProposalV {
                        linear_fees: Some(
                            LinearFee { constant: a, coefficient: b, certificate: c },
                        ),
                        ..uv
                    }));
                    assert(cur.skip(26) =~= all0.skip(ph + 26));
                }
            } else if tag == 7 {
                let v = match rb.get_u8() {
                    Ok(v) => v,
                    Err(e) => {
                        proof {
                            lemma_parse_payload_short(uv, cur, 7, 1);
                        }
                        return Err(e);
                    },
                };
                update.slot_duration = Some(v);
                proof {
                    assert(cur.skip(2)[0] == all0[ph + 2]);
                    lemma_step_tag7(uv, cur, v);
                    assert(update@ == (UpdateProposalV { slot_duration: Some(v), ..uv }));
                    assert(cur.skip(3) =~= all0.skip(ph + 3));
                }
            } else if tag == 8 {
                let v = match rb.get_u32() {
                    Ok(v) => v,
                    Err(e) => {
                        proof {
                            lemma_parse_payload_short(uv, cur, 8, 4);
                        }
                        return Err(e);
                    },
                };
                proof {
                    assert(cur.skip(2).take(4) =~= all0.subrange(ph + 2, ph + 6));
                    lemma_be4_val_of_u32(v);
                }
                update.epoch_stability_depth = Some(v);
                proof {
                    lemma_step_tag8(uv, cur, v);
                    assert(update@ == (UpdateProposalV {
                        epoch_stability_depth: Some(v),
                        ..uv
                    }));
                    assert(cur.skip(6) =~= all0.skip(ph + 6));
                }
            } else {
                proof {
                    lemma_parse_unknown(uv, cur, tag as nat);
                }
                return Err(ReadError::UnknownTag(tag as u32));
            }
        }
    }
}

/// One chained record: a present field prepends its record, an absent
/// field prepends nothing.
proof fn lemma_chain1(u0: UpdateProposalV, v: Option<u32>, rest: Seq<u8>, fin: UpdateProposalV, c: int)
    requires
        parse_update_from(
            (match v {
                Some(x) => UpdateProposalV { max_number_of_transactions_per_block: Some(x), ..u0 },
                None => u0,
            }),
            rest,
        ) == Some((fin, c)),
    ensures
        parse_update_from(
            u0,
            (match v {
                Some(x) => u16_be(1) + u32_be(x),
                None => Seq::<u8>::empty(),
            }) + rest,
        ) == Some(
            (fin, (match v {
                Some(x) => u16_be(1) + u32_be(x),
                None => Seq::<u8>::empty(),
            }).len() + c),
        ),
{
    match v {
        Some(x) => {
            let s = (u16_be(1) + u32_be(x)) + rest;
            assert(s.take(2) =~= u16_be(1));
            lemma_be2_val_of_u16(1);
            assert(s.skip(2).take(4) =~= u32_be(x));
            lemma_be4_val_of_u32(x);
            assert(s.skip(6) =~= rest);
            lemma_step_tag1(u0, s, x);
        },
        None => {
            assert(Seq::<u8>::empty() + rest =~= rest);
        },
    }
}

proof fn lemma_chain2(u0: UpdateProposalV, v: Option<u8>, rest: Seq<u8>, fin: UpdateProposalV, c: int)
    requires
        parse_update_from(
            (match v {
                Some(x) => UpdateProposalV { bootstrap_key_slots_percentage: Some(x), ..u0 },
                None => u0,
            }),
            rest,
        ) == Some((fin, c)),
    ensures
        parse_update_from(
            u0,
            (match v {
                Some(x) => u16_be(2) + seq![x],
                None => Seq::<u8>::empty(),
            }) + rest,
        ) == Some(
            (fin, (match v {
                Some(x) => u16_be(2) + seq![x],
                None => Seq::<u8>::empty(),
            }).len() + c),
        ),
{
    match v {
        Some(x) => {
            let s = (u16_be(2) + seq![x]) + rest;
            assert(s.take(2) =~= u16_be(2));
            lemma_be2_val_of_u16(2);
            assert(s.skip(2)[0] == x);
            assert(s.skip(3) =~= rest);
            lemma_step_tag2(u0, s, x);
        },
        None => {
            assert(Seq::<u8>::empty() + rest =~= rest);
        },
    }
}

proof fn lemma_chain3(u0: UpdateProposalV, v: Option<ConsensusVersion>, rest: Seq<u8>, fin: UpdateProposalV, c: int)
    requires
        parse_update_from(
            (match v {
                Some(cv) => UpdateProposalV { consensus_version: Some(cv), ..u0 },
                None => u0,
            }),
            rest,
        ) == Some((fin, c)),
    ensures
        parse_update_from(
            u0,
            (match v {
                Some(cv) => u16_be(3) + u16_be(consensus_to_u16(cv)),
                None => Seq::<u8>::empty(),
            }) + rest,
        ) == Some(
            (fin, (match v {
                Some(cv) => u16_be(3) + u16_be(consensus_to_u16(cv)),
                None => Seq::<u8>::empty(),
            }).len() + c),
        ),
{
    match v {
        Some(cv) => {
            let s = (u16_be(3) + u16_be(consensus_to_u16(cv))) + rest;
            assert(s.take(2) =~= u16_be(3));
            lemma_be2_val_of_u16(3);
            assert(s.skip(2).take(2) =~= u16_be(consensus_to_u16(cv)));
            lemma_be2_val_of_u16(consensus_to_u16(cv));
            assert(consensus_from_u16(consensus_to_u16(cv) as nat) == Some(cv));
            assert(s.skip(4) =~= rest);
            lemma_step_tag3(u0, s, cv);
        },
        None => {
            assert(Seq::<u8>::empty() + rest =~= rest);
        },
    }
}

proof fn lemma_chain4(u0: UpdateProposalV, v: Option<Seq<Seq<u8>>>, rest: Seq<u8>, fin: UpdateProposalV, c: int)
    requires
        match v {
            Some(ls) => ls.len() < 256 && forall|i: int|
                0 <= i < ls.len() ==> (#[trigger] ls[i]).len() == PUBLIC_KEY_SIZE,
            None => true,
        },
        parse_update_from(
            (match v {
                Some(ls) => UpdateProposalV { bft_leaders: Some(ls), ..u0 },
                None => u0,
            }),
            rest,
        ) == Some((fin, c)),
    ensures
        parse_update_from(
            u0,
            (match v {
                Some(ls) => u16_be(4) + seq![ls.len() as u8] + leaders_enc(ls),
                None => Seq::<u8>::empty(),
            }) + rest,
        ) == Some(
            (fin, (match v {
                Some(ls) => u16_be(4) + seq![ls.len() as u8] + leaders_enc(ls),
                None => Seq::<u8>::empty(),
            }).len() + c),
        ),
{
    match v {
        Some(ls) => {
            let n = ls.len() as u8;
            let s = (u16_be(4) + seq![n] + leaders_enc(ls)) + rest;
            assert(s.take(2) =~= u16_be(4));
            lemma_be2_val_of_u16(4);
            assert(s.skip(2)[0] == n);
            lemma_leaders_rt(ls, rest);
            assert(s.skip(3) =~= leaders_enc(ls) + rest);
            assert(n as nat == ls.len());
            lemma_step_tag4(u0, s, n);
            assert(s.skip(3 + PUBLIC_KEY_SIZE * ls.len()) =~= rest);
        },
        None => {
            assert(Seq::<u8>::empty() + rest =~= rest);
        },
    }
}

proof fn lemma_chain5(u0: UpdateProposalV, v: Option<bool>, rest: Seq<u8>, fin: UpdateProposalV, c: int)
    requires
        parse_update_from(
            (match v {
                Some(b) => UpdateProposalV { allow_account_creation: Some(b), ..u0 },
                None => u0,
            }),
            rest,
        ) == Some((fin, c)),
    ensures
        parse_update_from(
            u0,
            (match v {
                Some(b) => u16_be(5) + seq![if b { 1u8 } else { 0u8 }],
                None => Seq::<u8>::empty(),
            }) + rest,
        ) == Some(
            (fin, (match v {
                Some(b) => u16_be(5) + seq![if b { 1u8 } else { 0u8 }],
                None => Seq::<u8>::empty(),
            }).len() + c),
        ),
{
    match v {
        Some(b) => {
            let x: u8 = if b { 1u8 } else { 0u8 };
            let s = (u16_be(5) + seq![x]) + rest;
            assert(s.take(2) =~= u16_be(5));
            lemma_be2_val_of_u16(5);
            assert(s.skip(2)[0] == x);
            assert(s.skip(3) =~= rest);
            lemma_step_tag5(u0, s, x);
            assert((x != 0) == b);
        },
        None => {
            assert(Seq::<u8>::empty() + rest =~= rest);
        },
    }
}

proof fn lemma_chain6(u0: UpdateProposalV, v: Option<LinearFee>, rest: Seq<u8>, fin: UpdateProposalV, c: int)
    requires
        parse_update_from(
            (match v {
                Some(f) => UpdateProposalV { linear_fees: Some(f), ..u0 },
                None => u0,
            }),
            rest,
        ) == Some((fin, c)),
    ensures
        parse_update_from(
            u0,
            (match v {
                Some(f) => u16_be(6) + u64_be(f.constant) + u64_be(f.coefficient) + u64_be(
                    f.certificate,
                ),
                None => Seq::<u8>::empty(),
            }) + rest,
        ) == Some(
            (fin, (match v {
                Some(f) => u16_be(6) + u64_be(f.constant) + u64_be(f.coefficient) + u64_be(
                    f.certificate,
                ),
                None => Seq::<u8>::empty(),
            }).len() + c),
        ),
{
    match v {
        Some(f) => {
            let s = (u16_be(6) + u64_be(f.constant) + u64_be(f.coefficient) + u64_be(
                f.certificate,
            )) + rest;
            assert(s.take(2) =~= u16_be(6));
            lemma_be2_val_of_u16(6);
            assert(s.skip(2).take(8) =~= u64_be(f.constant));
            assert(s.skip(2).subrange(8, 16) =~= u64_be(f.coefficient));
            assert(s.skip(2).subrange(16, 24) =~= u64_be(f.certificate));
            lemma_be8_val_of_u64(f.constant);
            lemma_be8_val_of_u64(f.coefficient);
            lemma_be8_val_of_u64(f.certificate);
            assert(s.skip(26) =~= rest);
            lemma_step_tag6(u0, s, f.constant, f.coefficient, f.certificate);
            assert((UpdateProposalV {
                linear_fees: Some(
                    LinearFee {
                        constant: f.constant,
                        coefficient: f.coefficient,
                        certificate: f.certificate,
                    },
                ),
                ..u0
            }) == (UpdateProposalV { linear_fees: Some(f), ..u0 }));
        },
        None => {
            assert(Seq::<u8>::empty() + rest =~= rest);
        },
    }
}

proof fn lemma_chain7(u0: UpdateProposalV, v: Option<u8>, rest: Seq<u8>, fin: UpdateProposalV, c: int)
    requires
        parse_update_from(
            (match v {
                Some(x) => UpdateProposalV { slot_duration: Some(x), ..u0 },
                None => u0,
            }),
            rest,
        ) == Some((fin, c)),
    ensures
        parse_update_from(
            u0,
            (match v {
                Some(x) => u16_be(7) + seq![x],
                None => Seq::<u8>::empty(),
            }) + rest,
        ) == Some(
            (fin, (match v {
                Some(x) => u16_be(7) + seq![x],
                None => Seq::<u8>::empty(),
            }).len() + c),
        ),
{
    match v {
        Some(x) => {
            let s = (u16_be(7) + seq![x]) + rest;
            assert(s.take(2) =~= u16_be(7));
            lemma_be2_val_of_u16(7);
            assert(s.skip(2)[0] == x);
            assert(s.skip(3) =~= rest);
            lemma_step_tag7(u0, s, x);
        },
        None => {
            assert(Seq::<u8>::empty() + rest =~= rest);
        },
    }
}

proof fn lemma_chain8(u0: UpdateProposalV, v: Option<u32>, rest: Seq<u8>, fin: UpdateProposalV, c: int)
    requires
        parse_update_from(
            (match v {
                Some(x) => UpdateProposalV { epoch_stability_depth: Some(x), ..u0 },
                None => u0,
            }),
            rest,
        ) == Some((fin, c)),
    ensures
        parse_update_from(
            u0,
            (match v {
                Some(x) => u16_be(8) + u32_be(x),
                None => Seq::<u8>::empty(),
            }) + rest,
        ) == Some(
            (fin, (match v {
                Some(x) => u16_be(8) + u32_be(x),
                None => Seq::<u8>::empty(),
            }).len() + c),
        ),
{
    match v {
        Some(x) => {
            let s = (u16_be(8) + u32_be(x)) + rest;
            assert(s.take(2) =~= u16_be(8));
            lemma_be2_val_of_u16(8);
            assert(s.skip(2).take(4) =~= u32_be(x));
            lemma_be4_val_of_u32(x);
            assert(s.skip(6) =~= rest);
            lemma_step_tag8(u0, s, x);
        },
        None => {
            assert(Seq::<u8>::empty() + rest =~= rest);
        },
    }
}

/// Serialization bijection for proposals: decoding an encoded proposal
/// gives the proposal back, consuming exactly its bytes.  (The converse
/// does not hold of every decodable input: a reader also accepts records
/// out of order or repeated, which re-encode in canonical order.)
#[verifier::rlimit(100)]
pub proof fn lemma_update_round_trip(u: UpdateProposalV)
    requires
        update_wf(u),
    ensures
        parse_update_from(empty_update(), update_enc(u)) == Some(
            (u, update_enc(u).len() as int),
        ),
{
    let e1 = (match u.max_number_of_transactions_per_block {
        Some(v) => u16_be(1) + u32_be(v),
        None => Seq::<u8>::empty(),
    });
    let e2 = (match u.bootstrap_key_slots_percentage {
        Some(v) => u16_be(2) + seq![v],
        None => Seq::<u8>::empty(),
    });
    let e3 = (match u.consensus_version {
        Some(cv) => u16_be(3) + u16_be(consensus_to_u16(cv)),
        None => Seq::<u8>::empty(),
    });
    let e4 = (match u.bft_leaders {
        Some(ls) => u16_be(4) + seq![ls.len() as u8] + leaders_enc(ls),
        None => Seq::<u8>::empty(),
    });
    let e5 = (match u.allow_account_creation {
        Some(b) => u16_be(5) + seq![if b { 1u8 } else { 0u8 }],
        None => Seq::<u8>::empty(),
    });
    let e6 = (match u.linear_fees {
        Some(f) => u16_be(6) + u64_be(f.constant) + u64_be(f.coefficient) + u64_be(
            f.certificate,
        ),
        None => Seq::<u8>::empty(),
    });
    let e7 = (match u.slot_duration {
        Some(v) => u16_be(7) + seq![v],
        None => Seq::<u8>::empty(),
    });
    let e8 = (match u.epoch_stability_depth {
        Some(v) => u16_be(8) + u32_be(v),
        None => Seq::<u8>::empty(),
    });
    let t9 = u16_be(0);
    let t8 = e8 + t9;
    let t7 = e7 + t8;
    let t6 = e6 + t7;
    let t5 = e5 + t6;
    let t4 = e4 + t5;
    let t3 = e3 + t4;
    let t2 = e2 + t3;
    let t1 = e1 + t2;
    let p1 = e1;
    let p2 = p1 + e2;
    let p3 = p2 + e3;
    let p4 = p3 + e4;
    let p5 = p4 + e5;
    let p6 = p5 + e6;
    let p7 = p6 + e7;
    let p8 = p7 + e8;
    assert(update_enc(u) == p8 + t9);
    lemma_seq_assoc(p7, e8, t9);
    lemma_seq_assoc(p6, e7, t8);
    lemma_seq_assoc(p5, e6, t7);
    lemma_seq_assoc(p4, e5, t6);
    lemma_seq_assoc(p3, e4, t5);
    lemma_seq_assoc(p2, e3, t4);
    lemma_seq_assoc(p1, e2, t3);
    assert(update_enc(u) == t1);
    let u0 = empty_update();
    let u1 = (match u.max_number_of_transactions_per_block {
        Some(v) => UpdateProposalV { max_number_of_transactions_per_block: Some(v), ..u0 },
        None => u0,
    });
    let u2 = (match u.bootstrap_key_slots_percentage {
        Some(v) => UpdateProposalV { bootstrap_key_slots_percentage: Some(v), ..u1 },
        None => u1,
    });
    let u3 = (match u.consensus_version {
        Some(cv) => UpdateProposalV { consensus_version: Some(cv), ..u2 },
        None => u2,
    });
    let u4 = (match u.bft_leaders {
        Some(ls) => UpdateProposalV { bft_leaders: Some(ls), ..u3 },
        None => u3,
    });
    let u5 = (match u.allow_account_creation {
        Some(b) => UpdateProposalV { allow_account_creation: Some(b), ..u4 },
        None => u4,
    });
    let u6 = (match u.linear_fees {
        Some(f) => UpdateProposalV { linear_fees: Some(f), ..u5 },
        None => u5,
    });
    let u7 = (match u.slot_duration {
        Some(v) => UpdateProposalV { slot_duration: Some(v), ..u6 },
        None => u6,
    });
    let u8v = (match u.epoch_stability_depth {
        Some(v) => UpdateProposalV { epoch_stability_depth: Some(v), ..u7 },
        None => u7,
    });
    assert(u8v == u);
    let l8 = e8.len() as int;
    let l7 = e7.len() as int;
    let l6 = e6.len() as int;
    let l5 = e5.len() as int;
    let l4 = e4.len() as int;
    let l3 = e3.len() as int;
    let l2 = e2.len() as int;
    let l1 = e1.len() as int;
    lemma_parse_end(u8v, t9);
    lemma_chain8(u7, u.epoch_stability_depth, t9, u8v, 2);
    lemma_chain7(u6, u.slot_duration, t8, u8v, l8 + 2);
    lemma_chain6(u5, u.linear_fees, t7, u8v, l7 + (l8 + 2));
    lemma_chain5(u4, u.allow_account_creation, t6, u8v, l6 + (l7 + (l8 + 2)));
    lemma_chain4(u3, u.bft_leaders, t5, u8v, l5 + (l6 + (l7 + (l8 + 2))));
    lemma_chain3(u2, u.consensus_version, t4, u8v, l4 + (l5 + (l6 + (l7 + (l8 + 2)))));
    lemma_chain2(u1, u.bootstrap_key_slots_percentage, t3, u8v, l3 + (l4 + (l5 + (l6 + (l7
        + (l8 + 2))))));
    lemma_chain1(u0, u.max_number_of_transactions_per_block, t2, u8v, l2 + (l3 + (l4 + (l5
        + (l6 + (l7 + (l8 + 2)))))));
    assert(update_enc(u).len() as int == l1 + (l2 + (l3 + (l4 + (l5 + (l6 + (l7 + (l8
        + 2))))))));
}

/// Copy a leader list element by element.
fn clone_leaders(v: &Vec<LeaderId>) -> (r: Vec<LeaderId>)
    ensures
        leaders_view(r@) == leaders_view(v@),
{
    let mut r: Vec<LeaderId> = Vec::new();
    let mut i: usize = 0;
    while i < v.len()
        invariant
            0 <= i <= v@.len(),
            r@.len() == i,
            forall|j: int| 0 <= j < i ==> (#[trigger] r@[j])@ == v@[j]@,
        decreases v@.len() - i,
    {
        r.push(v[i].clone());
        i = i + 1;
    }
    proof {
        assert(leaders_view(r@) =~= leaders_view(v@));
    }
    r
}

/// The bootstrap-era slot percentage scale: percentages run 0 to 100.
pub const SLOTS_PERCENTAGE_RANGE: u8 = 100;

/// The blockchain settings record.  A value object: `apply` produces a new
/// record rather than mutating.
#[derive(Debug)]
pub struct Settings {
    pub max_number_of_transactions_per_block: u32,
    pub bootstrap_key_slots_percentage: u8,
    pub consensus_version: ConsensusVersion,
    pub bft_leaders: Vec<LeaderId>,
    pub allow_account_creation: bool,
    pub linear_fees: LinearFee,
    pub slot_duration: u8,
    pub epoch_stability_depth: usize,
}

impl Settings {
    /// The defaults of a fresh settings record.
    pub fn new() -> (r: Self)
        ensures
            r.max_number_of_transactions_per_block == 100,
            r.bootstrap_key_slots_percentage == SLOTS_PERCENTAGE_RANGE,
            r.consensus_version == ConsensusVersion::Bft,
            r.bft_leaders@.len() == 0,
            r.allow_account_creation == false,
            r.linear_fees == (LinearFee { constant: 0, coefficient: 0, certificate: 0 }),
            r.slot_duration == 10,
            r.epoch_stability_depth == 10,
    {
        Settings {
            max_number_of_transactions_per_block: 100,
            bootstrap_key_slots_percentage: SLOTS_PERCENTAGE_RANGE,
            consensus_version: ConsensusVersion::Bft,
            bft_leaders: Vec::new(),
            allow_account_creation: false,
            linear_fees: LinearFee::new(0, 0, 0),
            slot_duration: 10,
            epoch_stability_depth: 10,
        }
    }

    pub fn allow_account_creation(&self) -> (r: bool)
        ensures
            r == self.allow_account_creation,
    {
        self.allow_account_creation
    }

    pub fn linear_fees(&self) -> (r: LinearFee)
        ensures
            r == self.linear_fees,
    {
        self.linear_fees
    }

    /// Copy these settings, overwriting exactly the fields the proposal
    /// carries: an absent field leaves the setting as it was.
    pub fn apply(&self, update: &UpdateProposal) -> (r: Self)
        ensures
            r.max_number_of_transactions_per_block == (match update
                .max_number_of_transactions_per_block {
                Some(v) => v,
                None => self.max_number_of_transactions_per_block,
            }),
            r.bootstrap_key_slots_percentage == (match update.bootstrap_key_slots_percentage {
                Some(v) => v,
                None => self.bootstrap_key_slots_percentage,
            }),
            r.consensus_version == (match update.consensus_version {
                Some(v) => v,
                None => self.consensus_version,
            }),
            leaders_view(r.bft_leaders@) == (match update@.bft_leaders {
                Some(ls) => ls,
                None => leaders_view(self.bft_leaders@),
            }),
            r.allow_account_creation == (match update.allow_account_creation {
                Some(v) => v,
                None => self.allow_account_creation,
            }),
            r.linear_fees == (match update.linear_fees {
                Some(v) => v,
                None => self.linear_fees,
            }),
            r.slot_duration == (match update.slot_duration {
                Some(v) => v,
                None => self.slot_duration,
            }),
            r.epoch_stability_depth == (match update.epoch_stability_depth {
                Some(v) => v as usize,
                None => self.epoch_stability_depth,
            }),
    {
        let max_number_of_transactions_per_block = match update
            .max_number_of_transactions_per_block {
            Some(v) => v,
            None => self.max_number_of_transactions_per_block,
        };
        let bootstrap_key_slots_percentage = match update.bootstrap_key_slots_percentage {
            Some(v) => v,
            None => self.bootstrap_key_slots_percentage,
        };
        let consensus_version = match update.consensus_version {
            Some(v) => v,
            None => self.consensus_version,
        };
        let bft_leaders = match &update.bft_leaders {
            Some(ls) => clone_leaders(ls),
            None => clone_leaders(&self.bft_leaders),
        };
        let allow_account_creation = match update.allow_account_creation {
            Some(v) => v,
            None => self.allow_account_creation,
        };
        let linear_fees = match update.linear_fees {
            Some(v) => v,
            None => self.linear_fees,
        };
        let slot_duration = match update.slot_duration {
            Some(v) => v,
            None => self.slot_duration,
        };
        let epoch_stability_depth = match update.epoch_stability_depth {
            Some(v) => v as usize,
            None => self.epoch_stability_depth,
        };
        Settings {
            max_number_of_transactions_per_block,
            bootstrap_key_slots_percentage,
            consensus_version,
            bft_leaders,
            allow_account_creation,
            linear_fees,
            slot_duration,
            epoch_stability_depth,
        }
    }
}

/// Logic errors of applying an update against the chain state.
#[derive(Debug)]
pub enum Error {
    /// An update offered against the wrong chain tip: the expected tip and
    /// the one received.
    InvalidCurrentBlockId(crate::hash::Hash, crate::hash::Hash),
    /// A proposal that semantic checks reject.
    UpdateIsInvalid,
}

} // verus!

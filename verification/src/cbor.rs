//! Self-describing tag codec: the subset of CBOR used by the HD address
//! payload.  Supported items: unsigned integers (major type 0) in their
//! shortest form, definite-length byte strings (major type 2), indefinite
//! arrays (major type 4, closed by the break byte `0xff`), and a byte
//! string whose payload is itself an encoded item.
//!
//! The encoder is length-minimal; the decoder rejects any longer form, so
//! that every decodable input is exactly the encoder's output.

use vstd::prelude::*;
use crate::packer::{
    u16_be, u32_be, u64_be, lemma_u16_be_recompose, lemma_u32_be_recompose,
    lemma_u64_be_recompose, extend_bytes, ReadBuf, ReadError, StructureError, put_u8, put_u16,
    put_u32, put_u64,
};

verus! {

broadcast use vstd::group_vstd_default;

/// First byte that opens an indefinite array (major 4, indefinite length).
pub const ARRAY_INDEFINITE: u8 = 0x9f;

/// The break byte that closes an indefinite item.
pub const BREAK: u8 = 0xff;

/// Value of two big-endian bytes.
pub open spec fn be2_val(s: Seq<u8>) -> nat
    recommends
        s.len() == 2,
{
    (s[0] as nat) * 0x100 + (s[1] as nat)
}

/// Value of four big-endian bytes.
pub open spec fn be4_val(s: Seq<u8>) -> nat
    recommends
        s.len() == 4,
{
    be2_val(s.subrange(0, 2)) * 0x10000 + be2_val(s.subrange(2, 4))
}

/// Value of eight big-endian bytes.
pub open spec fn be8_val(s: Seq<u8>) -> nat
    recommends
        s.len() == 8,
{
    be4_val(s.subrange(0, 4)) * 0x100000000 + be4_val(s.subrange(4, 8))
}

pub proof fn lemma_be2_val_of_u16(v: u16)
    ensures
        be2_val(u16_be(v)) == v,
{
}

pub proof fn lemma_u16_be_of_be2(s: Seq<u8>)
    requires
        s.len() == 2,
    ensures
        be2_val(s) < 0x10000,
        u16_be(be2_val(s) as u16) == s,
{
    lemma_u16_be_recompose(be2_val(s) as u16, s[0], s[1]);
    assert(u16_be(be2_val(s) as u16) =~= s);
}

pub proof fn lemma_be4_val_of_u32(v: u32)
    ensures
        be4_val(u32_be(v)) == v,
{
    let hi = (v / 0x10000) as u16;
    let lo = (v % 0x10000) as u16;
    assert(u32_be(v).subrange(0, 2) =~= u16_be(hi));
    assert(u32_be(v).subrange(2, 4) =~= u16_be(lo));
    lemma_be2_val_of_u16(hi);
    lemma_be2_val_of_u16(lo);
}

pub proof fn lemma_u32_be_of_be4(s: Seq<u8>)
    requires
        s.len() == 4,
    ensures
        be4_val(s) < 0x100000000,
        u32_be(be4_val(s) as u32) == s,
{
    let hi = s.subrange(0, 2);
    let lo = s.subrange(2, 4);
    lemma_u16_be_of_be2(hi);
    lemma_u16_be_of_be2(lo);
    lemma_u32_be_recompose(be4_val(s) as u32, be2_val(hi) as u16, be2_val(lo) as u16);
    assert(u32_be(be4_val(s) as u32) =~= s);
}

pub proof fn lemma_be8_val_of_u64(v: u64)
    ensures
        be8_val(u64_be(v)) == v,
{
    let hi = (v / 0x100000000) as u32;
    let lo = (v % 0x100000000) as u32;
    assert(u64_be(v).subrange(0, 4) =~= u32_be(hi));
    assert(u64_be(v).subrange(4, 8) =~= u32_be(lo));
    lemma_be4_val_of_u32(hi);
    lemma_be4_val_of_u32(lo);
}

pub proof fn lemma_u64_be_of_be8(s: Seq<u8>)
    requires
        s.len() == 8,
    ensures
        be8_val(s) < 0x10000000000000000,
        u64_be(be8_val(s) as u64) == s,
{
    let hi = s.subrange(0, 4);
    let lo = s.subrange(4, 8);
    lemma_u32_be_of_be4(hi);
    lemma_u32_be_of_be4(lo);
    lemma_u64_be_recompose(be8_val(s) as u64, be4_val(hi) as u32, be4_val(lo) as u32);
    assert(u64_be(be8_val(s) as u64) =~= s);
}

/// Shortest-form head of an item: major type in the three top bits of the
/// first byte, the item's unsigned argument in the remaining bits or in the
/// following 1, 2, 4 or 8 big-endian bytes.
pub open spec fn cbor_head(major: u8, v: nat) -> Seq<u8>
    recommends
        major < 8,
        v < 0x10000000000000000,
{
    if v < 24 {
        seq![((major as nat) * 0x20 + v) as u8]
    } else if v < 0x100 {
        seq![((major as nat) * 0x20 + 0x18) as u8, v as u8]
    } else if v < 0x10000 {
        seq![((major as nat) * 0x20 + 0x19) as u8] + u16_be(v as u16)
    } else if v < 0x100000000 {
        seq![((major as nat) * 0x20 + 0x1a) as u8] + u32_be(v as u32)
    } else {
        seq![((major as nat) * 0x20 + 0x1b) as u8] + u64_be(v as u64)
    }
}

/// Parse a head of the given major type: the argument value and the bytes
/// consumed.  `None` on a different major type, a non-shortest form, or a
/// truncated input.
pub open spec fn parse_head(major: u8, s: Seq<u8>) -> Option<(nat, int)>
    recommends
        major < 8,
{
    if s.len() < 1 {
        None
    } else {
        let b = s[0];
        if b / 0x20 != major {
            None
        } else {
            let ai = b % 0x20;
            if ai < 24 {
                Some(((ai as nat), 1))
            } else if ai == 24 {
                if s.len() >= 2 && s[1] >= 24 {
                    Some(((s[1] as nat), 2))
                } else {
                    None
                }
            } else if ai == 25 {
                if s.len() >= 3 && be2_val(s.subrange(1, 3)) >= 0x100 {
                    Some((be2_val(s.subrange(1, 3)), 3))
                } else {
                    None
                }
            } else if ai == 26 {
                if s.len() >= 5 && be4_val(s.subrange(1, 5)) >= 0x10000 {
                    Some((be4_val(s.subrange(1, 5)), 5))
                } else {
                    None
                }
            } else if ai == 27 {
                if s.len() >= 9 && be8_val(s.subrange(1, 9)) >= 0x100000000 {
                    Some((be8_val(s.subrange(1, 9)), 9))
                } else {
                    None
                }
            } else {
                None
            }
        }
    }
}

/// The first byte of a head splits back into its major type and argument bits.
proof fn lemma_head_first_byte(major: u8, ai: u8)
    requires
        major < 8,
        ai < 0x20,
    ensures
        ((major as nat) * 0x20 + ai) as u8 / 0x20 == major,
        ((major as nat) * 0x20 + ai) as u8 % 0x20 == ai,
{
    crate::packer::lemma_split_parts(major as int, ai as int, 0x20);
}

/// Parsing a freshly encoded head gives the encoded value back, whatever
/// follows it.
pub proof fn lemma_head_rt(major: u8, v: nat, rest: Seq<u8>)
    requires
        major < 8,
        v < 0x10000000000000000,
    ensures
        cbor_head(major, v).len() >= 1,
        parse_head(major, cbor_head(major, v) + rest) == Some((v, cbor_head(major, v).len() as int)),
{
    let s = cbor_head(major, v) + rest;
    if v < 24 {
        lemma_head_first_byte(major, v as u8);
        assert(s[0] == ((major as nat) * 0x20 + v) as u8);
    } else if v < 0x100 {
        lemma_head_first_byte(major, 0x18);
        assert(s[0] == ((major as nat) * 0x20 + 0x18) as u8);
        assert(s[1] == v as u8);
    } else if v < 0x10000 {
        lemma_head_first_byte(major, 0x19);
        assert(s.subrange(1, 3) =~= u16_be(v as u16));
        lemma_be2_val_of_u16(v as u16);
    } else if v < 0x100000000 {
        lemma_head_first_byte(major, 0x1a);
        assert(s.subrange(1, 5) =~= u32_be(v as u32));
        lemma_be4_val_of_u32(v as u32);
    } else {
        lemma_head_first_byte(major, 0x1b);
        assert(s.subrange(1, 9) =~= u64_be(v as u64));
        lemma_be8_val_of_u64(v as u64);
    }
}

/// A parsed head re-encodes to exactly the bytes it was parsed from.
pub proof fn lemma_head_canon(major: u8, s: Seq<u8>, v: nat, n: int)
    requires
        major < 8,
        parse_head(major, s) == Some((v, n)),
    ensures
        1 <= n <= 9,
        n <= s.len(),
        v < 0x10000000000000000,
        cbor_head(major, v) == s.subrange(0, n),
{
    let b = s[0];
    let ai = b % 0x20;
    assert(b == (b / 0x20) * 0x20 + b % 0x20);
    if ai < 24 {
        assert(cbor_head(major, v) =~= s.subrange(0, 1));
    } else if ai == 24 {
        assert(v == s[1] as nat);
        assert(cbor_head(major, v) =~= s.subrange(0, 2));
    } else if ai == 25 {
        lemma_u16_be_of_be2(s.subrange(1, 3));
        assert(cbor_head(major, v) =~= seq![b] + u16_be(v as u16));
        assert(cbor_head(major, v) =~= s.subrange(0, 3));
    } else if ai == 26 {
        lemma_u32_be_of_be4(s.subrange(1, 5));
        assert(cbor_head(major, v) =~= seq![b] + u32_be(v as u32));
        assert(cbor_head(major, v) =~= s.subrange(0, 5));
    } else {
        assert(ai == 27);
        lemma_u64_be_of_be8(s.subrange(1, 9));
        assert(cbor_head(major, v) =~= seq![b] + u64_be(v as u64));
        assert(cbor_head(major, v) =~= s.subrange(0, 9));
    }
}

/// Append the shortest-form head for `(major, v)` to a byte sink.
pub fn write_head(out: &mut Vec<u8>, major: u8, v: u64)
    requires
        major < 8,
    ensures
        final(out)@ == old(out)@ + cbor_head(major, v as nat),
{
    if v < 24 {
        put_u8(out, major * 0x20 + v as u8);
        assert(out@ =~= old(out)@ + cbor_head(major, v as nat));
    } else if v < 0x100 {
        put_u8(out, major * 0x20 + 0x18);
        put_u8(out, v as u8);
        assert(out@ =~= old(out)@ + cbor_head(major, v as nat));
    } else if v < 0x10000 {
        put_u8(out, major * 0x20 + 0x19);
        put_u16(out, v as u16);
        assert(out@ =~= old(out)@ + cbor_head(major, v as nat));
    } else if v < 0x100000000 {
        put_u8(out, major * 0x20 + 0x1a);
        put_u32(out, v as u32);
        assert(out@ =~= old(out)@ + cbor_head(major, v as nat));
    } else {
        put_u8(out, major * 0x20 + 0x1b);
        put_u64(out, v);
        assert(out@ =~= old(out)@ + cbor_head(major, v as nat));
    }
}

/// Read a head of the given major type, rejecting any non-shortest form.
pub fn read_head(rb: &mut ReadBuf, major: u8) -> (r: Result<u64, ReadError>)
    requires
        major < 8,
    ensures
        final(rb).all_bytes() == old(rb).all_bytes(),
        final(rb).pos() >= old(rb).pos(),
        0 <= old(rb).pos(),
        final(rb).pos() <= final(rb).all_bytes().len(),
        match r {
            Ok(v) => parse_head(major, old(rb).suffix()) == Some(
                ((v as nat), final(rb).pos() - old(rb).pos()),
            ),
            Err(_) => parse_head(major, old(rb).suffix()) is None,
        },
{
    let ghost s = rb.suffix();
    let ghost all0 = rb.all_bytes();
    let ghost p0 = rb.pos();
    let r0 = rb.get_u8();
    let b = match r0 {
        Ok(b) => b,
        Err(e) => {
            return Err(e);
        },
    };
    proof {
        assert(s.len() >= 1);
        assert(p0 < all0.len());
        assert(s =~= all0.skip(p0));
        assert(s[0] == all0.skip(p0)[0]);
        assert(all0.skip(p0)[0] == all0[p0 + 0]);
        assert(b == s[0]);
    }
    if b / 0x20 != major {
        return Err(ReadError::StructureInvalid(StructureError::UnexpectedType));
    }
    let ai = b % 0x20;
    if ai < 24 {
        Ok(ai as u64)
    } else if ai == 24 {
        let r1 = rb.get_u8();
        let x = match r1 {
            Ok(x) => x,
            Err(e) => {
                assert(s.len() < 2);
                return Err(e);
            },
        };
        proof {
            assert(s.len() >= 2);
            assert(s[1] == all0.skip(p0)[1]);
            assert(all0.skip(p0)[1] == all0[p0 + 1]);
            assert(x == s[1]);
        }
        if x < 24 {
            Err(ReadError::StructureInvalid(StructureError::NonMinimalInt))
        } else {
            Ok(x as u64)
        }
    } else if ai == 25 {
        let r1 = rb.get_u16();
        let x = match r1 {
            Ok(x) => x,
            Err(e) => {
                assert(s.len() < 3);
                return Err(e);
            },
        };
        proof {
            assert(s.subrange(1, 3) =~= all0.subrange(p0 + 1, p0 + 3));
            lemma_be2_val_of_u16(x);
        }
        if x < 0x100 {
            Err(ReadError::StructureInvalid(StructureError::NonMinimalInt))
        } else {
            Ok(x as u64)
        }
    } else if ai == 26 {
        let r1 = rb.get_u32();
        let x = match r1 {
            Ok(x) => x,
            Err(e) => {
                assert(s.len() < 5);
                return Err(e);
            },
        };
        proof {
            assert(s.subrange(1, 5) =~= all0.subrange(p0 + 1, p0 + 5));
            lemma_be4_val_of_u32(x);
        }
        if x < 0x10000 {
            Err(ReadError::StructureInvalid(StructureError::NonMinimalInt))
        } else {
            Ok(x as u64)
        }
    } else if ai == 27 {
        let r1 = rb.get_u64();
        let x = match r1 {
            Ok(x) => x,
            Err(e) => {
                assert(s.len() < 9);
                return Err(e);
            },
        };
        proof {
            assert(s.subrange(1, 9) =~= all0.subrange(p0 + 1, p0 + 9));
            lemma_be8_val_of_u64(x);
        }
        if x < 0x100000000 {
            Err(ReadError::StructureInvalid(StructureError::NonMinimalInt))
        } else {
            Ok(x)
        }
    } else {
        Err(ReadError::StructureInvalid(StructureError::UnexpectedType))
    }
}

/// Encoding of a definite-length byte string: a major-2 head carrying the
/// length, then the bytes themselves.
pub open spec fn cbor_bytes_enc(b: Seq<u8>) -> Seq<u8> {
    cbor_head(2, b.len()) + b
}

/// Parse a definite-length byte string: its payload and the bytes consumed.
pub open spec fn parse_cbor_bytes(s: Seq<u8>) -> Option<(Seq<u8>, int)> {
    match parse_head(2, s) {
        Some((len, n)) => if n + len <= s.len() {
            Some((s.subrange(n, n + len), n + len))
        } else {
            None
        },
        None => None,
    }
}

/// Parsing a freshly encoded byte string gives the payload back.
pub proof fn lemma_bytes_rt(b: Seq<u8>, rest: Seq<u8>)
    requires
        b.len() < 0x10000000000000000,
    ensures
        parse_cbor_bytes(cbor_bytes_enc(b) + rest) == Some((b, cbor_bytes_enc(b).len() as int)),
{
    let s = cbor_bytes_enc(b) + rest;
    lemma_head_rt(2, b.len(), b + rest);
    assert(s =~= cbor_head(2, b.len()) + (b + rest));
    let n = cbor_head(2, b.len()).len() as int;
    assert(parse_head(2, s) == Some((b.len(), n)));
    assert(s.subrange(n, n + b.len()) =~= b);
}

/// A parsed byte string re-encodes to exactly the bytes consumed.
pub proof fn lemma_bytes_canon(s: Seq<u8>, b: Seq<u8>, m: int)
    requires
        parse_cbor_bytes(s) == Some((b, m)),
    ensures
        1 <= m <= s.len(),
        b.len() < 0x10000000000000000,
        cbor_bytes_enc(b) == s.subrange(0, m),
{
    let (len, n) = parse_head(2, s).unwrap();
    lemma_head_canon(2, s, len, n);
    assert(b.len() == len);
    assert(cbor_bytes_enc(b) =~= s.subrange(0, m));
}

/// Append the encoding of `b` as a definite-length byte string.
pub fn write_bytes(out: &mut Vec<u8>, b: &[u8])
    ensures
        final(out)@ == old(out)@ + cbor_bytes_enc(b@),
{
    write_head(out, 2, b.len() as u64);
    extend_bytes(out, b);
    assert(out@ =~= old(out)@ + cbor_bytes_enc(b@));
}

/// Read a definite-length byte string.
pub fn read_bytes(rb: &mut ReadBuf) -> (r: Result<Vec<u8>, ReadError>)
    ensures
        final(rb).all_bytes() == old(rb).all_bytes(),
        final(rb).pos() >= old(rb).pos(),
        match r {
            Ok(v) => parse_cbor_bytes(old(rb).suffix()) == Some(
                (v@, final(rb).pos() - old(rb).pos()),
            ),
            Err(_) => parse_cbor_bytes(old(rb).suffix()) is None,
        },
{
    let ghost p0 = rb.pos();
    let ghost all0 = rb.all_bytes();
    let ghost s = rb.suffix();
    let v = match read_head(rb, 2) {
        Ok(v) => v,
        Err(e) => {
            return Err(e);
        },
    };
    let ghost n = rb.pos() - p0;
    proof {
        assert(s =~= all0.skip(p0));
    }
    let rem = rb.remaining();
    proof {
        assert(s.len() == n + rem);
    }
    if v > rem as u64 {
        return Err(ReadError::NotEnough {
            requested: if v > usize::MAX as u64 {
                usize::MAX
            } else {
                v as usize
            },
            remaining: rem,
        });
    }
    let sl = match rb.get_slice(v as usize) {
        Ok(sl) => sl,
        Err(_) => vstd::pervasive::unreached(),
    };
    proof {
        assert(sl@ =~= s.subrange(n, n + v));
    }
    Ok(vstd::slice::slice_to_vec(sl))
}

/// Encoding of the list items of an indefinite array of 32-bit unsigned
/// integers, without the opening byte and without the break.
pub open spec fn cbor_u32s_enc(p: Seq<u32>) -> Seq<u8>
    decreases p.len(),
{
    if p.len() == 0 {
        Seq::empty()
    } else {
        cbor_head(0, p[0] as nat) + cbor_u32s_enc(p.skip(1))
    }
}

/// Parse items of an indefinite array of 32-bit unsigned integers up to and
/// including the break byte: the items and the bytes consumed.
pub open spec fn parse_u32s(s: Seq<u8>) -> Option<(Seq<u32>, int)>
    decreases s.len(),
{
    if s.len() < 1 {
        None
    } else if s[0] == BREAK {
        Some((Seq::empty(), 1))
    } else {
        match parse_head(0, s) {
            Some((v, n)) => if v <= 0xffffffff && 1 <= n <= s.len() {
                match parse_u32s(s.skip(n)) {
                    Some((tail, m)) => Some((seq![v as u32] + tail, n + m)),
                    None => None,
                }
            } else {
                None
            },
            None => None,
        }
    }
}

/// The head of an unsigned integer never begins with the break byte.
proof fn lemma_uint_head_no_break(v: nat)
    requires
        v < 0x10000000000000000,
    ensures
        cbor_head(0, v).len() >= 1,
        cbor_head(0, v)[0] != BREAK,
{
}

/// Parsing freshly encoded array items, a break byte, and anything after
/// gives the items back.
pub proof fn lemma_u32s_rt(p: Seq<u32>, rest: Seq<u8>)
    ensures
        parse_u32s(cbor_u32s_enc(p) + seq![BREAK] + rest) == Some(
            (p, cbor_u32s_enc(p).len() + 1int),
        ),
    decreases p.len(),
{
    let s = cbor_u32s_enc(p) + seq![BREAK] + rest;
    if p.len() == 0 {
        assert(s =~= seq![BREAK] + rest);
        assert(s[0] == BREAK);
        assert(p =~= Seq::<u32>::empty());
    } else {
        let v = p[0] as nat;
        let tail_enc = cbor_u32s_enc(p.skip(1)) + seq![BREAK] + rest;
        lemma_uint_head_no_break(v);
        assert(s =~= cbor_head(0, v) + tail_enc);
        lemma_head_rt(0, v, tail_enc);
        assert(s[0] == cbor_head(0, v)[0]);
        assert(s[0] != BREAK);
        let n = cbor_head(0, v).len() as int;
        assert(parse_head(0, s) == Some((v, n)));
        assert(s.skip(n) =~= tail_enc);
        lemma_u32s_rt(p.skip(1), rest);
        assert(seq![p[0]] + p.skip(1) =~= p);
    }
}

/// Parsed array items re-encode, with their break, to exactly the bytes
/// consumed.
pub proof fn lemma_u32s_canon(s: Seq<u8>, p: Seq<u32>, m: int)
    requires
        parse_u32s(s) == Some((p, m)),
    ensures
        1 <= m <= s.len(),
        cbor_u32s_enc(p) + seq![BREAK] == s.subrange(0, m),
    decreases s.len(),
{
    if s[0] == BREAK {
        assert(cbor_u32s_enc(p) + seq![BREAK] =~= s.subrange(0, 1));
    } else {
        let (v, n) = parse_head(0, s).unwrap();
        lemma_head_canon(0, s, v, n);
        let (tail, m2) = parse_u32s(s.skip(n)).unwrap();
        lemma_u32s_canon(s.skip(n), tail, m2);
        assert(p == seq![v as u32] + tail);
        assert(p.len() >= 1);
        assert(p[0] == v as u32);
        assert(p.skip(1) =~= tail);
        assert((p[0] as nat) == v);
        assert(cbor_u32s_enc(p) == cbor_head(0, v) + cbor_u32s_enc(tail));
        assert(s.skip(n).subrange(0, m2) =~= s.subrange(n, n + m2));
        assert(cbor_u32s_enc(p) + seq![BREAK] =~= s.subrange(0, n) + s.subrange(n, n + m2));
        assert(s.subrange(0, n) + s.subrange(n, n + m2) =~= s.subrange(0, m));
    }
}

/// Appending one more item extends the item encoding at its end.
pub proof fn lemma_u32s_enc_snoc(p: Seq<u32>, i: int)
    requires
        0 <= i < p.len(),
    ensures
        cbor_u32s_enc(p.take(i + 1)) == cbor_u32s_enc(p.take(i)) + cbor_head(0, p[i] as nat),
    decreases i,
{
    if i == 0 {
        assert(p.take(1) =~= seq![p[0]]);
        assert(p.take(1).skip(1) =~= Seq::<u32>::empty());
        assert(p.take(0) =~= Seq::<u32>::empty());
        assert(cbor_u32s_enc(p.take(1)) =~= cbor_u32s_enc(p.take(0)) + cbor_head(
            0,
            p[0] as nat,
        ));
    } else {
        lemma_u32s_enc_snoc(p.skip(1), i - 1);
        assert(p.take(i + 1).skip(1) =~= p.skip(1).take(i));
        assert(p.take(i).skip(1) =~= p.skip(1).take(i - 1));
        assert(p.take(i + 1)[0] == p[0]);
        assert(p.take(i)[0] == p[0]);
        assert(p.skip(1)[i - 1] == p[i]);
        assert(cbor_u32s_enc(p.take(i + 1)) == cbor_head(0, p[0] as nat) + cbor_u32s_enc(
            p.skip(1).take(i),
        ));
        assert(cbor_u32s_enc(p.take(i)) == cbor_head(0, p[0] as nat) + cbor_u32s_enc(
            p.skip(1).take(i - 1),
        ));
        assert(cbor_u32s_enc(p.take(i)) + cbor_head(0, p[i] as nat) =~= cbor_head(
            0,
            p[0] as nat,
        ) + (cbor_u32s_enc(p.skip(1).take(i - 1)) + cbor_head(0, p.skip(1)[i - 1] as nat)));
    }
}

/// Append the items of `items` as unsigned-integer heads.
pub fn write_u32s(out: &mut Vec<u8>, items: &Vec<u32>)
    ensures
        final(out)@ == old(out)@ + cbor_u32s_enc(items@),
{
    let ghost base = out@;
    let mut i: usize = 0;
    while i < items.len()
        invariant
            0 <= i <= items@.len(),
            out@ == base + cbor_u32s_enc(items@.take(i as int)),
        decreases items@.len() - i,
    {
        write_head(out, 0, items[i] as u64);
        proof {
            lemma_u32s_enc_snoc(items@, i as int);
        }
        i = i + 1;
    }
    assert(items@.take(items@.len() as int) =~= items@);
}

/// Read the items of an indefinite array of 32-bit unsigned integers, up to
/// and including the break byte.
pub fn read_u32s(rb: &mut ReadBuf) -> (r: Result<Vec<u32>, ReadError>)
    ensures
        final(rb).all_bytes() == old(rb).all_bytes(),
        final(rb).pos() >= old(rb).pos(),
        0 <= old(rb).pos(),
        final(rb).pos() <= final(rb).all_bytes().len(),
        match r {
            Ok(v) => parse_u32s(old(rb).suffix()) == Some(
                (v@, final(rb).pos() - old(rb).pos()),
            ),
            Err(_) => parse_u32s(old(rb).suffix()) is None,
        },
{
    let _rem0 = rb.remaining();
    let ghost all0 = rb.all_bytes();
    let ghost p0 = rb.pos();
    let ghost s0 = rb.suffix();
    let mut acc: Vec<u32> = Vec::new();
    loop
        invariant
            all0 == old(rb).all_bytes(),
            p0 == old(rb).pos(),
            s0 == old(rb).suffix(),
            rb.all_bytes() == all0,
            0 <= p0 <= rb.pos() <= all0.len(),
            s0 == all0.skip(p0),
            match parse_u32s(all0.skip(rb.pos())) {
                Some(tm) => parse_u32s(s0) == Some(
                    (acc@ + tm.0, rb.pos() - p0 + tm.1),
                ),
                None => parse_u32s(s0) is None,
            },
        decreases rb.remaining_spec(),
    {
        let ghost ph = rb.pos();
        let ghost cur = rb.suffix();
        let pk = rb.peek_u8();
        match pk {
            None => {
                return Err(ReadError::NotEnough { requested: 1, remaining: 0 });
            },
            Some(b) => {
                if b == BREAK {
                    let _break_byte = rb.get_u8();
                    proof {
                        assert(cur.len() >= 1 && cur[0] == BREAK);
                        assert(parse_u32s(cur) == Some((Seq::<u32>::empty(), 1int)));
                        assert(acc@ + Seq::<u32>::empty() =~= acc@);
                    }
                    return Ok(acc);
                }
                let hd = read_head(rb, 0);
                let v = match hd {
                    Ok(v) => v,
                    Err(e) => {
                        proof {
                            assert(cur[0] != BREAK);
                        }
                        return Err(e);
                    },
                };
                if v > 0xffffffff {
                    return Err(ReadError::StructureInvalid(StructureError::ValueTooBig));
                }
                let ghost n = rb.pos() - ph;
                proof {
                    lemma_head_canon(0, cur, v as nat, n);
                    assert(all0.skip(rb.pos()) =~= cur.skip(n));
                }
                acc.push(v as u32);
                proof {
                    if parse_u32s(cur.skip(n)) is Some {
                        let (tail2, m2) = parse_u32s(cur.skip(n)).unwrap();
                        assert(parse_u32s(cur) == Some((seq![v as u32] + tail2, n + m2)));
                        assert(acc@ + tail2 =~= acc@.take(acc@.len() - 1) + (seq![v as u32]
                            + tail2));
                    }
                }
            },
        }
    }
}

/// Encoding of a derivation path: an indefinite array of 32-bit unsigned
/// integers between the opening byte and the break.
pub open spec fn path_enc(p: Seq<u32>) -> Seq<u8> {
    seq![ARRAY_INDEFINITE] + cbor_u32s_enc(p) + seq![BREAK]
}

/// Parse a whole derivation path; the input must hold exactly one array.
pub open spec fn parse_path(s: Seq<u8>) -> Option<Seq<u32>> {
    if s.len() >= 1 && s[0] == ARRAY_INDEFINITE {
        match parse_u32s(s.skip(1)) {
            Some(pm) => if pm.1 == s.len() - 1 {
                Some(pm.0)
            } else {
                None
            },
            None => None,
        }
    } else {
        None
    }
}

/// Decoding inverts encoding: every path comes back from its own bytes.
pub proof fn lemma_path_round_trip(p: Seq<u32>)
    ensures
        parse_path(path_enc(p)) == Some(p),
{
    let s = path_enc(p);
    lemma_u32s_rt(p, Seq::empty());
    assert(s.skip(1) =~= cbor_u32s_enc(p) + seq![BREAK] + Seq::<u8>::empty());
    assert(s[0] == ARRAY_INDEFINITE);
}

/// Encoding is canonical: whatever decodes, re-encodes to the same bytes.
pub proof fn lemma_path_canonical(s: Seq<u8>, p: Seq<u32>)
    requires
        parse_path(s) == Some(p),
    ensures
        path_enc(p) == s,
{
    let (q, m) = parse_u32s(s.skip(1)).unwrap();
    lemma_u32s_canon(s.skip(1), q, m);
    assert(s.skip(1).subrange(0, m) =~= s.skip(1));
    assert(path_enc(p) =~= seq![s[0]] + s.skip(1));
    assert(seq![s[0]] + s.skip(1) =~= s);
}

/// Append a whole derivation-path array.
pub fn write_path(out: &mut Vec<u8>, items: &Vec<u32>)
    ensures
        final(out)@ == old(out)@ + path_enc(items@),
{
    put_u8(out, ARRAY_INDEFINITE);
    write_u32s(out, items);
    put_u8(out, BREAK);
    assert(out@ =~= old(out)@ + path_enc(items@));
}

/// Read a whole derivation-path array; the input must hold nothing else.
pub fn read_path(bytes: &[u8]) -> (r: Result<Vec<u32>, ReadError>)
    ensures
        match r {
            Ok(v) => parse_path(bytes@) == Some(v@),
            Err(_) => parse_path(bytes@) is None,
        },
{
    let mut rb = ReadBuf::new(bytes);
    let b0 = match rb.get_u8() {
        Ok(b) => b,
        Err(e) => {
            return Err(e);
        },
    };
    if b0 != ARRAY_INDEFINITE {
        return Err(ReadError::StructureInvalid(StructureError::UnexpectedType));
    }
    let ghost s1 = rb.suffix();
    proof {
        assert(s1 =~= bytes@.skip(1));
    }
    let items = match read_u32s(&mut rb) {
        Ok(v) => v,
        Err(e) => {
            return Err(e);
        },
    };
    if !rb.is_end() {
        return Err(ReadError::StructureInvalid(StructureError::TrailingData));
    }
    Ok(items)
}

/// Encoding of an item wrapped in a byte string: the byte string holding
/// the encoding of the inner byte string.
pub open spec fn nested_bytes_enc(b: Seq<u8>) -> Seq<u8> {
    cbor_bytes_enc(cbor_bytes_enc(b))
}

/// Parse a byte-string-wrapped byte string; the wrapper's payload must hold
/// exactly the inner item.
pub open spec fn parse_nested_bytes(s: Seq<u8>) -> Option<(Seq<u8>, int)> {
    match parse_cbor_bytes(s) {
        Some(inner) => match parse_cbor_bytes(inner.0) {
            Some(pay) => if pay.1 == inner.0.len() {
                Some((pay.0, inner.1))
            } else {
                None
            },
            None => None,
        },
        None => None,
    }
}

/// Decoding inverts encoding for byte-string-wrapped byte strings.
pub proof fn lemma_nested_bytes_rt(b: Seq<u8>, rest: Seq<u8>)
    requires
        b.len() + 9 < 0x10000000000000000,
    ensures
        parse_nested_bytes(nested_bytes_enc(b) + rest) == Some(
            (b, nested_bytes_enc(b).len() as int),
        ),
{
    lemma_bytes_rt(b, Seq::empty());
    assert(cbor_bytes_enc(b) + Seq::<u8>::empty() =~= cbor_bytes_enc(b));
    lemma_bytes_rt(cbor_bytes_enc(b), rest);
}

/// A parsed byte-string-wrapped byte string re-encodes to the bytes consumed.
pub proof fn lemma_nested_bytes_canon(s: Seq<u8>, b: Seq<u8>, m: int)
    requires
        parse_nested_bytes(s) == Some((b, m)),
    ensures
        1 <= m <= s.len(),
        nested_bytes_enc(b) == s.subrange(0, m),
{
    let (inner, n) = parse_cbor_bytes(s).unwrap();
    lemma_bytes_canon(s, inner, n);
    let (pay, k) = parse_cbor_bytes(inner).unwrap();
    lemma_bytes_canon(inner, pay, k);
    assert(cbor_bytes_enc(b) =~= inner);
}

/// Append `b` wrapped as a byte string inside a byte string.
pub fn write_nested_bytes(out: &mut Vec<u8>, b: &[u8])
    ensures
        final(out)@ == old(out)@ + nested_bytes_enc(b@),
{
    let mut inner: Vec<u8> = Vec::new();
    write_bytes(&mut inner, b);
    write_bytes(out, inner.as_slice());
}

/// Read a byte string wrapped inside a byte string.
#[verifier::rlimit(60)]
pub fn read_nested_bytes(rb: &mut ReadBuf) -> (r: Result<Vec<u8>, ReadError>)
    ensures
        final(rb).all_bytes() == old(rb).all_bytes(),
        final(rb).pos() >= old(rb).pos(),
        match r {
            Ok(v) => parse_nested_bytes(old(rb).suffix()) == Some(
                (v@, final(rb).pos() - old(rb).pos()),
            ),
            Err(_) => parse_nested_bytes(old(rb).suffix()) is None,
        },
{
    let inner = match read_bytes(rb) {
        Ok(v) => v,
        Err(e) => {
            return Err(e);
        },
    };
    let mut rb2 = ReadBuf::new(inner.as_slice());
    let pay = match read_bytes(&mut rb2) {
        Ok(v) => v,
        Err(e) => {
            return Err(e);
        },
    };
    if !rb2.is_end() {
        return Err(ReadError::StructureInvalid(StructureError::TrailingData));
    }
    Ok(pay)
}

/// Value of sixteen big-endian bytes.
pub open spec fn be16_val(s: Seq<u8>) -> nat
    recommends
        s.len() == 16,
{
    be8_val(s.subrange(0, 8)) * 0x10000000000000000 + be8_val(s.subrange(8, 16))
}

#[verifier::rlimit(100)]
pub proof fn lemma_be16_val_of_u128(v: u128)
    ensures
        be16_val(crate::packer::u128_be(v)) == v,
{
    let hi = (v / 0x10000000000000000) as u64;
    let lo = (v % 0x10000000000000000) as u64;
    assert(crate::packer::u128_be(v).subrange(0, 8) =~= u64_be(hi));
    assert(crate::packer::u128_be(v).subrange(8, 16) =~= u64_be(lo));
    lemma_be8_val_of_u64(hi);
    lemma_be8_val_of_u64(lo);
}

#[verifier::rlimit(100)]
pub proof fn lemma_u128_be_of_be16(s: Seq<u8>)
    requires
        s.len() == 16,
    ensures
        be16_val(s) < 0x100000000000000000000000000000000,
        crate::packer::u128_be(be16_val(s) as u128) == s,
{
    let hi = s.subrange(0, 8);
    let lo = s.subrange(8, 16);
    lemma_u64_be_of_be8(hi);
    lemma_u64_be_of_be8(lo);
    crate::packer::lemma_u128_be_recompose(
        be16_val(s) as u128,
        be8_val(hi) as u64,
        be8_val(lo) as u64,
    );
    assert(crate::packer::u128_be(be16_val(s) as u128) =~= s);
}

} // verus!

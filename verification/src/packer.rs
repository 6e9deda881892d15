//! Big-endian fixed-width integer I/O: a length-checked buffered reader
//! (`ReadBuf`) over a borrowed byte slice, and the symmetric `put_uN`
//! writers over a growable byte sink.
//!
//! Readers never read past the declared limit: every `get_uN` either
//! consumes exactly `N` bytes or fails with `NotEnough` and leaves the
//! cursor where it was.

use vstd::prelude::*;

verus! {

/// The precise shape of a `StructureInvalid` decode failure.
#[derive(Clone, Copy, Debug, PartialEq, Eq, Structural)]
pub enum StructureError {
    /// A message claims more bytes than the enclosing frame has left.
    Overrun,
    /// An integer was encoded in more bytes than its shortest form.
    NonMinimalInt,
    /// A self-describing item of an unexpected major type.
    UnexpectedType,
    /// Input continues past the end of the decoded item.
    TrailingData,
    /// A consensus version outside the closed registry.
    BadConsensusVersion,
    /// A header whose declared content hash disagrees with the contents.
    ContentHashMismatch,
    /// A frame whose inner decoder consumed fewer bytes than declared.
    FrameUnderrun,
    /// A decoded integer does not fit the field it is meant for.
    ValueTooBig,
}

/// Errors surfaced by every decoder; none may panic on malformed input.
#[derive(Clone, Copy, Debug, PartialEq, Eq, Structural)]
pub enum ReadError {
    /// A read of `requested` bytes found only `remaining`.
    NotEnough { requested: usize, remaining: usize },
    /// The bytes do not have the structure the format demands.
    StructureInvalid(StructureError),
    /// A tag outside the closed registry of the format.
    UnknownTag(u32),
    /// A declared size too large to honour.
    SizeTooBig,
    /// A signature of the wrong width or shape.
    InvalidSignature,
}

/// Big-endian bytes of a `u16`, most significant first.
pub open spec fn u16_be(v: u16) -> Seq<u8> {
    seq![(v / 0x100) as u8, (v % 0x100) as u8]
}

/// Big-endian bytes of a `u32`.
pub open spec fn u32_be(v: u32) -> Seq<u8> {
    u16_be((v / 0x10000) as u16) + u16_be((v % 0x10000) as u16)
}

/// Big-endian bytes of a `u64`.
pub open spec fn u64_be(v: u64) -> Seq<u8> {
    u32_be((v / 0x100000000) as u32) + u32_be((v % 0x100000000) as u32)
}

/// Big-endian bytes of a `u128`.
pub open spec fn u128_be(v: u128) -> Seq<u8> {
    u64_be((v / 0x10000000000000000) as u64) + u64_be((v % 0x10000000000000000) as u64)
}

/// Splitting `hi * m + lo` by `m` recovers `hi` and `lo`.
pub proof fn lemma_split_parts(hi: int, lo: int, m: int)
    by (nonlinear_arith)
    requires
        m > 0,
        0 <= lo < m,
        0 <= hi,
    ensures
        (hi * m + lo) / m == hi,
        (hi * m + lo) % m == lo,
{
}

/// `u16_be` of a value recomposed from two bytes gives those bytes back.
pub proof fn lemma_u16_be_recompose(v: u16, b0: u8, b1: u8)
    requires
        v == (b0 as int) * 0x100 + (b1 as int),
    ensures
        u16_be(v) == seq![b0, b1],
{
    lemma_split_parts(b0 as int, b1 as int, 0x100);
    assert(u16_be(v) =~= seq![b0, b1]);
}

/// `u32_be` of a value recomposed from two half-words gives their bytes back.
pub proof fn lemma_u32_be_recompose(v: u32, hi: u16, lo: u16)
    requires
        v == (hi as int) * 0x10000 + (lo as int),
    ensures
        u32_be(v) == u16_be(hi) + u16_be(lo),
{
    lemma_split_parts(hi as int, lo as int, 0x10000);
    assert((v / 0x10000) as u16 == hi);
    assert((v % 0x10000) as u16 == lo);
}

/// `u64_be` of a value recomposed from two words gives their bytes back.
pub proof fn lemma_u64_be_recompose(v: u64, hi: u32, lo: u32)
    requires
        v == (hi as int) * 0x100000000 + (lo as int),
    ensures
        u64_be(v) == u32_be(hi) + u32_be(lo),
{
    lemma_split_parts(hi as int, lo as int, 0x100000000);
    assert((v / 0x100000000) as u32 == hi);
    assert((v % 0x100000000) as u32 == lo);
}

/// `u128_be` of a value recomposed from two double-words gives their bytes back.
pub proof fn lemma_u128_be_recompose(v: u128, hi: u64, lo: u64)
    requires
        v == (hi as int) * 0x10000000000000000 + (lo as int),
    ensures
        u128_be(v) == u64_be(hi) + u64_be(lo),
{
    lemma_split_parts(hi as int, lo as int, 0x10000000000000000);
    assert((v / 0x10000000000000000) as u64 == hi);
    assert((v % 0x10000000000000000) as u64 == lo);
}

/// Four bytes read as two half-words recompose into one `u32` window.
pub proof fn lemma_be_combine_32(all: Seq<u8>, p: int, v: u32, hi: u16, lo: u16)
    requires
        v == (hi as int) * 0x10000 + (lo as int),
        0 <= p,
        p + 4 <= all.len(),
        u16_be(hi) == all.subrange(p, p + 2),
        u16_be(lo) == all.subrange(p + 2, p + 4),
    ensures
        u32_be(v) == all.subrange(p, p + 4),
{
    lemma_u32_be_recompose(v, hi, lo);
    assert(all.subrange(p, p + 4) =~= all.subrange(p, p + 2) + all.subrange(p + 2, p + 4));
}

/// Eight bytes read as two words recompose into one `u64` window.
pub proof fn lemma_be_combine_64(all: Seq<u8>, p: int, v: u64, hi: u32, lo: u32)
    requires
        v == (hi as int) * 0x100000000 + (lo as int),
        0 <= p,
        p + 8 <= all.len(),
        u32_be(hi) == all.subrange(p, p + 4),
        u32_be(lo) == all.subrange(p + 4, p + 8),
    ensures
        u64_be(v) == all.subrange(p, p + 8),
{
    lemma_u64_be_recompose(v, hi, lo);
    assert(all.subrange(p, p + 8) =~= all.subrange(p, p + 4) + all.subrange(p + 4, p + 8));
}

/// Sixteen bytes read as two double-words recompose into one `u128` window.
pub proof fn lemma_be_combine_128(all: Seq<u8>, p: int, v: u128, hi: u64, lo: u64)
    requires
        v == (hi as int) * 0x10000000000000000 + (lo as int),
        0 <= p,
        p + 16 <= all.len(),
        u64_be(hi) == all.subrange(p, p + 8),
        u64_be(lo) == all.subrange(p + 8, p + 16),
    ensures
        u128_be(v) == all.subrange(p, p + 16),
{
    lemma_u128_be_recompose(v, hi, lo);
    assert(all.subrange(p, p + 16) =~= all.subrange(p, p + 8) + all.subrange(p + 8, p + 16));
}

/// Append one byte to a byte sink.
pub fn put_u8(out: &mut Vec<u8>, v: u8)
    ensures
        final(out)@ == old(out)@ + seq![v],
{
    out.push(v);
    assert(out@ =~= old(out)@ + seq![v]);
}

/// Append a `u16` in big-endian order.
pub fn put_u16(out: &mut Vec<u8>, v: u16)
    ensures
        final(out)@ == old(out)@ + u16_be(v),
{
    out.push((v / 0x100) as u8);
    out.push((v % 0x100) as u8);
    assert(out@ =~= old(out)@ + u16_be(v));
}

/// Append a `u32` in big-endian order.
pub fn put_u32(out: &mut Vec<u8>, v: u32)
    ensures
        final(out)@ == old(out)@ + u32_be(v),
{
    put_u16(out, (v / 0x10000) as u16);
    put_u16(out, (v % 0x10000) as u16);
    assert(out@ =~= old(out)@ + u32_be(v));
}

/// Append a `u64` in big-endian order.
pub fn put_u64(out: &mut Vec<u8>, v: u64)
    ensures
        final(out)@ == old(out)@ + u64_be(v),
{
    put_u32(out, (v / 0x100000000) as u32);
    put_u32(out, (v % 0x100000000) as u32);
    assert(out@ =~= old(out)@ + u64_be(v));
}

/// Append a `u128` in big-endian order.
pub fn put_u128(out: &mut Vec<u8>, v: u128)
    ensures
        final(out)@ == old(out)@ + u128_be(v),
{
    put_u64(out, (v / 0x10000000000000000) as u64);
    put_u64(out, (v % 0x10000000000000000) as u64);
    assert(out@ =~= old(out)@ + u128_be(v));
}

/// Append every byte of `b` to `out`.
pub fn extend_bytes(out: &mut Vec<u8>, b: &[u8])
    ensures
        final(out)@ == old(out)@ + b@,
{
    let ghost base = out@;
    let mut i: usize = 0;
    while i < b.len()
        invariant
            0 <= i <= b@.len(),
            out@ == base + b@.take(i as int),
        decreases b@.len() - i,
    {
        out.push(*vstd::slice::slice_index_get(b, i));
        i = i + 1;
        assert(out@ =~= base + b@.take(i as int));
    }
    assert(out@ =~= base + b@);
}

/// Whether two byte vectors hold the same bytes.
pub fn bytes_eq(a: &Vec<u8>, b: &Vec<u8>) -> (r: bool)
    ensures
        r == (a@ == b@),
{
    if a.len() != b.len() {
        proof {
            assert(a@ != b@);
        }
        return false;
    }
    let mut i: usize = 0;
    while i < a.len()
        invariant
            0 <= i <= a@.len(),
            a@.len() == b@.len(),
            forall|j: int| 0 <= j < i ==> a@[j] == b@[j],
        decreases a@.len() - i,
    {
        if a[i] != b[i] {
            return false;
        }
        i = i + 1;
    }
    proof {
        assert(a@ =~= b@);
    }
    true
}

/// A length-checked cursor over a borrowed byte slice.
pub struct ReadBuf<'a> {
    data: &'a [u8],
    offset: usize,
}

impl<'a> ReadBuf<'a> {
    #[verifier::type_invariant]
    closed spec fn wf(self) -> bool {
        self.offset <= self.data@.len()
    }

    /// The whole underlying byte sequence, independent of the cursor.
    pub closed spec fn all_bytes(&self) -> Seq<u8> {
        self.data@
    }

    /// The cursor: how many bytes have been consumed.
    pub closed spec fn pos(&self) -> int {
        self.offset as int
    }

    /// How many bytes are left before the limit.
    pub open spec fn remaining_spec(&self) -> int {
        if self.pos() <= self.all_bytes().len() {
            self.all_bytes().len() - self.pos()
        } else {
            0
        }
    }

    /// The bytes not yet consumed.
    pub open spec fn suffix(&self) -> Seq<u8> {
        if self.pos() <= self.all_bytes().len() {
            self.all_bytes().skip(self.pos())
        } else {
            Seq::empty()
        }
    }

    pub fn new(data: &'a [u8]) -> (r: Self)
        ensures
            r.all_bytes() == data@,
            r.pos() == 0,
    {
        ReadBuf { data, offset: 0 }
    }

    pub fn remaining(&self) -> (r: usize)
        ensures
            r == self.remaining_spec(),
            0 <= self.pos() <= self.all_bytes().len(),
            self.all_bytes().len() <= usize::MAX,
    {
        proof {
            use_type_invariant(&*self);
        }
        self.data.len() - self.offset
    }

    /// Whether the cursor stands at the limit.
    pub fn is_end(&self) -> (r: bool)
        ensures
            r == (self.remaining_spec() == 0),
    {
        self.remaining() == 0
    }

    /// Look at the next byte without consuming it.
    pub fn peek_u8(&self) -> (r: Option<u8>)
        ensures
            0 <= self.pos(),
            match r {
                Some(v) => self.remaining_spec() >= 1 && v == self.all_bytes()[self.pos()],
                None => self.remaining_spec() == 0,
            },
    {
        let rem = self.remaining();
        if rem < 1 {
            None
        } else {
            Some(*vstd::slice::slice_index_get(self.data, self.offset))
        }
    }

    /// Consume one byte.
    pub fn get_u8(&mut self) -> (r: Result<u8, ReadError>)
        ensures
            final(self).all_bytes() == old(self).all_bytes(),
            0 <= old(self).pos(),
            final(self).pos() <= final(self).all_bytes().len(),
            match r {
                Ok(v) => {
                    &&& old(self).remaining_spec() >= 1
                    &&& final(self).pos() == old(self).pos() + 1
                    &&& v == old(self).all_bytes()[old(self).pos()]
                },
                Err(e) => {
                    &&& old(self).remaining_spec() < 1
                    &&& final(self).pos() == old(self).pos()
                    &&& e == (ReadError::NotEnough {
                        requested: 1,
                        remaining: old(self).remaining_spec() as usize,
                    })
                },
            },
    {
        proof {
            use_type_invariant(&*self);
        }
        let rem = self.remaining();
        if rem < 1 {
            return Err(ReadError::NotEnough { requested: 1, remaining: rem });
        }
        let b = *vstd::slice::slice_index_get(self.data, self.offset);
        self.offset = self.offset + 1;
        Ok(b)
    }

    /// Consume two bytes as a big-endian `u16`.
    pub fn get_u16(&mut self) -> (r: Result<u16, ReadError>)
        ensures
            final(self).all_bytes() == old(self).all_bytes(),
            0 <= old(self).pos(),
            final(self).pos() <= final(self).all_bytes().len(),
            match r {
                Ok(v) => {
                    &&& old(self).remaining_spec() >= 2
                    &&& final(self).pos() == old(self).pos() + 2
                    &&& u16_be(v) == old(self).all_bytes().subrange(
                        old(self).pos(),
                        old(self).pos() + 2,
                    )
                },
                Err(e) => {
                    &&& old(self).remaining_spec() < 2
                    &&& final(self).pos() == old(self).pos()
                    &&& e == (ReadError::NotEnough {
                        requested: 2,
                        remaining: old(self).remaining_spec() as usize,
                    })
                },
            },
    {
        proof {
            use_type_invariant(&*self);
        }
        let rem = self.remaining();
        if rem < 2 {
            return Err(ReadError::NotEnough { requested: 2, remaining: rem });
        }
        let b0 = *vstd::slice::slice_index_get(self.data, self.offset);
        let b1 = *vstd::slice::slice_index_get(self.data, self.offset + 1);
        let v: u16 = (b0 as u16) * 0x100 + (b1 as u16);
        self.offset = self.offset + 2;
        proof {
            lemma_u16_be_recompose(v, b0, b1);
            assert(u16_be(v) =~= old(self).all_bytes().subrange(
                old(self).pos(),
                old(self).pos() + 2,
            ));
        }
        Ok(v)
    }

    /// Consume four bytes as a big-endian `u32`.
    pub fn get_u32(&mut self) -> (r: Result<u32, ReadError>)
        ensures
            final(self).all_bytes() == old(self).all_bytes(),
            0 <= old(self).pos(),
            final(self).pos() <= final(self).all_bytes().len(),
            match r {
                Ok(v) => {
                    &&& old(self).remaining_spec() >= 4
                    &&& final(self).pos() == old(self).pos() + 4
                    &&& u32_be(v) == old(self).all_bytes().subrange(
                        old(self).pos(),
                        old(self).pos() + 4,
                    )
                },
                Err(e) => {
                    &&& old(self).remaining_spec() < 4
                    &&& final(self).pos() == old(self).pos()
                    &&& e == (ReadError::NotEnough {
                        requested: 4,
                        remaining: old(self).remaining_spec() as usize,
                    })
                },
            },
    {
        let rem = self.remaining();
        if rem < 4 {
            return Err(ReadError::NotEnough { requested: 4, remaining: rem });
        }
        let hi = match self.get_u16() {
            Ok(v) => v,
            Err(_) => vstd::pervasive::unreached(),
        };
        let lo = match self.get_u16() {
            Ok(v) => v,
            Err(_) => vstd::pervasive::unreached(),
        };
        let v: u32 = (hi as u32) * 0x10000 + (lo as u32);
        proof {
            lemma_be_combine_32(old(self).all_bytes(), old(self).pos(), v, hi, lo);
        }
        Ok(v)
    }

    /// Consume eight bytes as a big-endian `u64`.
    #[verifier::rlimit(100)]
    pub fn get_u64(&mut self) -> (r: Result<u64, ReadError>)
        ensures
            final(self).all_bytes() == old(self).all_bytes(),
            0 <= old(self).pos(),
            final(self).pos() <= final(self).all_bytes().len(),
            match r {
                Ok(v) => {
                    &&& old(self).remaining_spec() >= 8
                    &&& final(self).pos() == old(self).pos() + 8
                    &&& u64_be(v) == old(self).all_bytes().subrange(
                        old(self).pos(),
                        old(self).pos() + 8,
                    )
                },
                Err(e) => {
                    &&& old(self).remaining_spec() < 8
                    &&& final(self).pos() == old(self).pos()
                    &&& e == (ReadError::NotEnough {
                        requested: 8,
                        remaining: old(self).remaining_spec() as usize,
                    })
                },
            },
    {
        let rem = self.remaining();
        if rem < 8 {
            return Err(ReadError::NotEnough { requested: 8, remaining: rem });
        }
        let hi = match self.get_u32() {
            Ok(v) => v,
            Err(_) => vstd::pervasive::unreached(),
        };
        let lo = match self.get_u32() {
            Ok(v) => v,
            Err(_) => vstd::pervasive::unreached(),
        };
        let v: u64 = (hi as u64) * 0x100000000 + (lo as u64);
        proof {
            lemma_be_combine_64(old(self).all_bytes(), old(self).pos(), v, hi, lo);
        }
        Ok(v)
    }

    /// Consume sixteen bytes as a big-endian `u128`.
    #[verifier::rlimit(100)]
    pub fn get_u128(&mut self) -> (r: Result<u128, ReadError>)
        ensures
            final(self).all_bytes() == old(self).all_bytes(),
            0 <= old(self).pos(),
            final(self).pos() <= final(self).all_bytes().len(),
            match r {
                Ok(v) => {
                    &&& old(self).remaining_spec() >= 16
                    &&& final(self).pos() == old(self).pos() + 16
                    &&& u128_be(v) == old(self).all_bytes().subrange(
                        old(self).pos(),
                        old(self).pos() + 16,
                    )
                },
                Err(e) => {
                    &&& old(self).remaining_spec() < 16
                    &&& final(self).pos() == old(self).pos()
                    &&& e == (ReadError::NotEnough {
                        requested: 16,
                        remaining: old(self).remaining_spec() as usize,
                    })
                },
            },
    {
        let rem = self.remaining();
        if rem < 16 {
            return Err(ReadError::NotEnough { requested: 16, remaining: rem });
        }
        let hi = match self.get_u64() {
            Ok(v) => v,
            Err(_) => vstd::pervasive::unreached(),
        };
        let lo = match self.get_u64() {
            Ok(v) => v,
            Err(_) => vstd::pervasive::unreached(),
        };
        let v: u128 = (hi as u128) * 0x10000000000000000 + (lo as u128);
        proof {
            lemma_be_combine_128(old(self).all_bytes(), old(self).pos(), v, hi, lo);
        }
        Ok(v)
    }

    /// Consume `n` bytes and return them as a borrowed window.
    pub fn get_slice(&mut self, n: usize) -> (r: Result<&'a [u8], ReadError>)
        ensures
            final(self).all_bytes() == old(self).all_bytes(),
            0 <= old(self).pos(),
            final(self).pos() <= final(self).all_bytes().len(),
            match r {
                Ok(s) => {
                    &&& old(self).remaining_spec() >= n
                    &&& final(self).pos() == old(self).pos() + n
                    &&& s@ == old(self).all_bytes().subrange(
                        old(self).pos(),
                        old(self).pos() + n,
                    )
                },
                Err(e) => {
                    &&& old(self).remaining_spec() < n
                    &&& final(self).pos() == old(self).pos()
                    &&& e == (ReadError::NotEnough {
                        requested: n,
                        remaining: old(self).remaining_spec() as usize,
                    })
                },
            },
    {
        proof {
            use_type_invariant(&*self);
        }
        let rem = self.remaining();
        if rem < n {
            return Err(ReadError::NotEnough { requested: n, remaining: rem });
        }
        let s = vstd::slice::slice_subrange(self.data, self.offset, self.offset + n);
        self.offset = self.offset + n;
        Ok(s)
    }
}

} // verus!

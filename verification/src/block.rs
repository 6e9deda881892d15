//! Blocks: an ordered sequence of messages behind a header that declares
//! their hash and size.
//!
//! Framing: the header rides in a two-byte length prefix; the messages
//! follow with no count — the header's declared content size bounds their
//! consumption.  Decoding is strict: a message that would overrun the
//! declared size, a shortfall, and a content hash that disagrees with the
//! assembled messages are all fatal.

use vstd::prelude::*;
use crate::packer::{u16_be, bytes_eq, ReadBuf, ReadError, StructureError};
use crate::cbor::be2_val;
use crate::hash::{blake2b_256_of, HASH_SIZE};
use crate::header::{
    header_enc, parse_header, header_wf, lemma_header_round_trip, lemma_header_canonical,
    Header, HeaderRaw, BlockDate, BlockVersion,
};
use crate::message::{
    msg_wf, msg_raw_enc, parse_message, lemma_message_round_trip, lemma_message_canonical,
    Message, MessageRaw, MessageV,
};

verus! {

broadcast use vstd::group_vstd_default;

/// The mathematical shape of a block.
pub struct BlockV {
    pub header: crate::header::HeaderV,
    pub contents: Seq<MessageV>,
}

/// The views of a message list.
pub open spec fn msgs_view(v: Seq<Message>) -> Seq<MessageV> {
    Seq::new(v.len(), |i: int| v[i]@)
}

/// The concatenated raw wire bytes of a message list.
pub open spec fn contents_enc(ms: Seq<MessageV>) -> Seq<u8>
    decreases ms.len(),
{
    if ms.len() == 0 {
        Seq::empty()
    } else {
        msg_raw_enc(ms[0]) + contents_enc(ms.skip(1))
    }
}

/// Every message of the list fits the wire format.
pub open spec fn contents_wf(ms: Seq<MessageV>) -> bool {
    forall|i: int| 0 <= i < ms.len() ==> msg_wf(#[trigger] ms[i])
}

/// The block consistency invariant: the header's declared content hash is
/// the digest of the serialized messages, and its declared content size is
/// their exact byte length.
pub open spec fn block_consistent(b: BlockV) -> bool {
    &&& b.header.content_hash == blake2b_256_of(contents_enc(b.contents))
    &&& b.header.content_size as int == contents_enc(b.contents).len()
}

/// The wire bytes of a block: the length-prefixed header, then the
/// messages, with no message count.
pub open spec fn block_enc(b: BlockV) -> Seq<u8> {
    u16_be(header_enc(b.header).len() as u16) + header_enc(b.header) + contents_enc(b.contents)
}

/// Parse messages until exactly `rem` bytes are consumed: the messages and
/// the bytes consumed.  A message reaching past `rem` is an overrun; a
/// shortfall fails inside the message parser.
pub open spec fn parse_messages(s: Seq<u8>, rem: nat) -> Option<(Seq<MessageV>, int)>
    decreases rem,
{
    if rem == 0 {
        Some((Seq::empty(), 0))
    } else {
        match parse_message(s) {
            Some(mn) => if 1 <= mn.1 <= rem {
                match parse_messages(s.skip(mn.1), (rem - mn.1) as nat) {
                    Some(tc) => Some((seq![mn.0] + tc.0, mn.1 + tc.1)),
                    None => None,
                }
            } else {
                None
            },
            None => None,
        }
    }
}

/// Parse one block: the header in its frame, the messages filling exactly
/// the declared content size, and the consistency check.
pub open spec fn parse_block(s: Seq<u8>) -> Option<(BlockV, int)> {
    if s.len() < 2 {
        None
    } else {
        let hlen = be2_val(s.take(2));
        if s.len() >= 2 + hlen {
            match parse_header(s.subrange(2, 2 + hlen as int)) {
                Some(hc) => if hc.1 == hlen {
                    match parse_messages(s.skip(2 + hlen as int), hc.0.content_size as nat) {
                        Some(tc) => if hc.0.content_hash == blake2b_256_of(contents_enc(tc.0)) {
                            Some((BlockV { header: hc.0, contents: tc.0 }, 2 + hlen + tc.1))
                        } else {
                            None
                        },
                        None => None,
                    }
                } else {
                    None
                },
                None => None,
            }
        } else {
            None
        }
    }
}

/// Appending a message extends the contents encoding at its end.
pub proof fn lemma_contents_enc_snoc(ms: Seq<MessageV>, i: int)
    requires
        0 <= i < ms.len(),
    ensures
        contents_enc(ms.take(i + 1)) == contents_enc(ms.take(i)) + msg_raw_enc(ms[i]),
    decreases i,
{
    if i == 0 {
        assert(ms.take(1) =~= seq![ms[0]]);
        assert(ms.take(1).skip(1) =~= Seq::<MessageV>::empty());
        assert(ms.take(0) =~= Seq::<MessageV>::empty());
        assert(contents_enc(ms.take(1)) =~= contents_enc(ms.take(0)) + msg_raw_enc(ms[0]));
    } else {
        lemma_contents_enc_snoc(ms.skip(1), i - 1);
        assert(ms.take(i + 1).skip(1) =~= ms.skip(1).take(i));
        assert(ms.take(i).skip(1) =~= ms.skip(1).take(i - 1));
        assert(ms.take(i + 1)[0] == ms[0]);
        assert(ms.take(i)[0] == ms[0]);
        assert(ms.skip(1)[i - 1] == ms[i]);
        assert(contents_enc(ms.take(i)) + msg_raw_enc(ms[i]) =~= msg_raw_enc(ms[0]) + (
        contents_enc(ms.skip(1).take(i - 1)) + msg_raw_enc(ms.skip(1)[i - 1])));
    }
}

/// Serialization bijection for message lists, one direction: parsing under
/// their exact total size gives the messages back, whatever follows.
pub proof fn lemma_messages_round_trip(ms: Seq<MessageV>, rest: Seq<u8>)
    requires
        contents_wf(ms),
    ensures
        parse_messages(contents_enc(ms) + rest, contents_enc(ms).len() as nat) == Some(
            (ms, contents_enc(ms).len() as int),
        ),
    decreases ms.len(),
{
    let s = contents_enc(ms) + rest;
    if ms.len() == 0 {
        assert(ms =~= Seq::<MessageV>::empty());
    } else {
        lemma_message_round_trip(ms[0], contents_enc(ms.skip(1)) + rest);
        assert(s =~= msg_raw_enc(ms[0]) + (contents_enc(ms.skip(1)) + rest));
        let n = msg_raw_enc(ms[0]).len() as int;
        assert(parse_message(s) == Some((ms[0], n)));
        assert(s.skip(n) =~= contents_enc(ms.skip(1)) + rest);
        lemma_messages_round_trip(ms.skip(1), rest);
        assert(seq![ms[0]] + ms.skip(1) =~= ms);
    }
}

/// Frame stability for message lists: whatever decodes consumed exactly
/// the declared size and re-encodes to exactly those bytes.
pub proof fn lemma_messages_canonical(s: Seq<u8>, rem: nat, ms: Seq<MessageV>, c: int)
    requires
        parse_messages(s, rem) == Some((ms, c)),
    ensures
        c == rem,
        c <= s.len(),
        contents_wf(ms),
        contents_enc(ms) == s.subrange(0, c),
    decreases rem,
{
    if rem == 0 {
        assert(contents_enc(ms) =~= s.subrange(0, 0));
    } else {
        let (m, n) = parse_message(s).unwrap();
        lemma_message_canonical(s, m, n);
        let (tail, c2) = parse_messages(s.skip(n), (rem - n) as nat).unwrap();
        lemma_messages_canonical(s.skip(n), (rem - n) as nat, tail, c2);
        assert(ms == seq![m] + tail);
        assert(ms[0] == m);
        assert(ms.skip(1) =~= tail);
        assert(contents_enc(ms) == msg_raw_enc(m) + contents_enc(tail));
        assert(s.skip(n).subrange(0, c2) =~= s.subrange(n, n + c2));
        assert(contents_enc(ms) =~= s.subrange(0, c));
        assert forall|i: int| 0 <= i < ms.len() implies msg_wf(#[trigger] ms[i]) by {
            if i > 0 {
                assert(ms[i] == tail[i - 1]);
            }
        }
    }
}

/// Serialization bijection for blocks, one direction: decoding an encoded
/// consistent block gives the block back.
#[verifier::rlimit(100)]
pub proof fn lemma_block_round_trip(b: BlockV, rest: Seq<u8>)
    requires
        header_wf(b.header),
        contents_wf(b.contents),
        block_consistent(b),
    ensures
        parse_block(block_enc(b) + rest) == Some((b, block_enc(b).len() as int)),
{
    let s = block_enc(b) + rest;
    let he = header_enc(b.header);
    crate::header::lemma_header_enc_len(b.header);
    assert(s.take(2) =~= u16_be(he.len() as u16));
    crate::cbor::lemma_be2_val_of_u16(he.len() as u16);
    assert(s.subrange(2, 2 + he.len() as int) =~= he);
    lemma_header_round_trip(b.header, Seq::empty());
    assert(he + Seq::<u8>::empty() =~= he);
    assert(parse_header(he) == Some((b.header, he.len() as int)));
    assert(s.skip(2 + he.len() as int) =~= contents_enc(b.contents) + rest);
    lemma_messages_round_trip(b.contents, rest);
}

/// Frame stability and decoded consistency for blocks: whatever decodes is
/// well formed, satisfies the consistency invariant, and re-encodes to
/// exactly the bytes consumed.
#[verifier::rlimit(100)]
pub proof fn lemma_block_canonical(s: Seq<u8>, b: BlockV, n: int)
    requires
        parse_block(s) == Some((b, n)),
    ensures
        2 <= n <= s.len(),
        header_wf(b.header),
        contents_wf(b.contents),
        block_consistent(b),
        block_enc(b) == s.subrange(0, n),
{
    let hlen = be2_val(s.take(2));
    let hb = s.subrange(2, 2 + hlen as int);
    lemma_header_canonical(hb, b.header, hlen as int);
    crate::cbor::lemma_u16_be_of_be2(s.take(2));
    assert(header_enc(b.header) =~= hb);
    let (ms, c) = parse_messages(s.skip(2 + hlen as int), b.header.content_size as nat)
        .unwrap();
    lemma_messages_canonical(s.skip(2 + hlen as int), b.header.content_size as nat, ms, c);
    assert(s.skip(2 + hlen as int).subrange(0, c) =~= s.subrange(
        2 + hlen as int,
        2 + hlen + c,
    ));
    assert(u16_be(hlen as u16) =~= s.subrange(0, 2));
    assert(block_enc(b) == s.subrange(0, 2) + s.subrange(2, 2 + hlen as int) + s.subrange(
        2 + hlen as int,
        n,
    ));
    assert(s.subrange(0, 2) + s.subrange(2, 2 + hlen as int) + s.subrange(2 + hlen as int, n)
        =~= s.subrange(0, n));
}

/// An ordered sequence of messages; a block's body.
#[derive(Debug)]
pub struct BlockContents {
    messages: Vec<Message>,
}

impl View for BlockContents {
    type V = Seq<MessageV>;

    closed spec fn view(&self) -> Seq<MessageV> {
        msgs_view(self.messages@)
    }
}

impl Clone for BlockContents {
    fn clone(&self) -> (r: Self)
        ensures
            r@ == self@,
    {
        let mut v: Vec<Message> = Vec::new();
        let mut i: usize = 0;
        while i < self.messages.len()
            invariant
                0 <= i <= self.messages@.len(),
                v@.len() == i,
                forall|j: int| 0 <= j < i ==> (#[trigger] v@[j])@ == self.messages@[j]@,
            decreases self.messages@.len() - i,
        {
            v.push(self.messages[i].clone());
            i = i + 1;
        }
        proof {
            assert(msgs_view(v@) =~= msgs_view(self.messages@));
        }
        BlockContents { messages: v }
    }
}

impl BlockContents {
    /// Take ownership of an ordered message list.
    pub fn new(messages: Vec<Message>) -> (r: Self)
        ensures
            r@ == msgs_view(messages@),
    {
        BlockContents { messages }
    }

    /// The messages, in order.
    pub fn iter(&self) -> (r: &Vec<Message>)
        ensures
            msgs_view(r@) == self@,
    {
        &self.messages
    }

    /// Serialize every message into one buffer and digest it: the content
    /// hash and the exact byte length of the concatenation.
    pub fn compute_hash_size(&self) -> (r: (crate::hash::Hash, usize))
        requires
            contents_wf(self@),
        ensures
            r.0@ == blake2b_256_of(contents_enc(self@)),
            r.1 == contents_enc(self@).len(),
    {
        let mut bytes: Vec<u8> = Vec::new();
        let mut i: usize = 0;
        while i < self.messages.len()
            invariant
                contents_wf(self@),
                self@.len() == self.messages@.len(),
                forall|j: int| 0 <= j < self@.len() ==> self@[j] == (#[trigger] self
                    .messages@[j])@,
                0 <= i <= self.messages@.len(),
                bytes@ == contents_enc(self@.take(i as int)),
            decreases self.messages@.len() - i,
        {
            proof {
                lemma_contents_enc_snoc(self@, i as int);
                assert(msg_wf(self@[i as int]));
            }
            self.messages[i].serialize(&mut bytes);
            i = i + 1;
        }
        proof {
            assert(self@.take(self@.len() as int) =~= self@);
        }
        let size = bytes.len();
        (crate::hash::Hash::hash_bytes(bytes.as_slice()), size)
    }
}

/// A block: a header and the contents it declares.  Its identity is the
/// hash of its serialized header; two blocks are equal exactly when their
/// header hashes match.
#[derive(Debug)]
pub struct Block {
    pub header: Header,
    pub contents: BlockContents,
}

impl View for Block {
    type V = BlockV;

    open spec fn view(&self) -> BlockV {
        BlockV { header: self.header@, contents: self.contents@ }
    }
}

impl Clone for Block {
    fn clone(&self) -> (r: Self)
        ensures
            r@ == self@,
    {
        Block { header: self.header.clone(), contents: self.contents.clone() }
    }
}

impl PartialEq for Block {
    fn eq(&self, other: &Self) -> (r: bool) {
        let h1 = self.header.hash();
        let h2 = other.header.hash();
        bytes_eq(h1.as_bytes(), h2.as_bytes())
    }
}

impl vstd::std_specs::cmp::PartialEqSpecImpl for Block {
    open spec fn obeys_eq_spec() -> bool {
        true
    }

    open spec fn eq_spec(&self, other: &Self) -> bool {
        blake2b_256_of(header_enc(self@.header)) == blake2b_256_of(header_enc(other@.header))
    }
}

impl Eq for Block {}

impl Block {
    /// The block's identifier: the hash of its serialized header.
    pub fn id(&self) -> (r: crate::hash::Hash)
        ensures
            r@ == blake2b_256_of(header_enc(self@.header)),
    {
        self.header.hash()
    }

    /// The parent block's identifier.
    pub fn parent_id(&self) -> (r: crate::hash::Hash)
        ensures
            r@ == self@.header.parent_hash,
    {
        self.header.block_parent_hash().clone()
    }

    /// The block's date.
    pub fn date(&self) -> (r: BlockDate)
        ensures
            r == self@.header.date,
    {
        self.header.block_date()
    }

    /// The block's version.
    pub fn version(&self) -> (r: BlockVersion)
        ensures
            r == self@.header.version,
    {
        self.header.block_version()
    }

    /// The block's position in the chain.
    pub fn chain_length(&self) -> (r: u32)
        ensures
            r == self@.header.chain_length,
    {
        self.header.chain_length()
    }

    /// The block's messages, in order.
    pub fn messages(&self) -> (r: &Vec<Message>)
        ensures
            msgs_view(r@) == self@.contents,
    {
        self.contents.iter()
    }

    /// Whether the header's declared content hash and size agree with the
    /// contents.
    pub fn is_consistent(&self) -> (r: bool)
        requires
            contents_wf(self@.contents),
        ensures
            r == block_consistent(self@),
    {
        let (content_hash, content_size) = self.contents.compute_hash_size();
        let declared = self.header.block_content_hash();
        bytes_eq(content_hash.as_bytes(), declared.as_bytes()) && content_size
            == self.header.common.block_content_size as usize
    }

    /// Append the block's wire bytes: the length-prefixed header, then
    /// every message.
    pub fn serialize(&self, out: &mut Vec<u8>)
        requires
            contents_wf(self@.contents),
        ensures
            final(out)@ == old(out)@ + block_enc(self@),
    {
        let mut hv: Vec<u8> = Vec::new();
        self.header.serialize(&mut hv);
        let header_raw = HeaderRaw::from_vec(hv);
        header_raw.serialize(out);
        let ghost mid = out@;
        let msgs = self.contents.iter();
        let mut i: usize = 0;
        while i < msgs.len()
            invariant
                contents_wf(self@.contents),
                self@.contents.len() == msgs@.len(),
                forall|j: int| 0 <= j < self@.contents.len() ==> self@.contents[j] == (
                #[trigger] msgs@[j])@,
                0 <= i <= msgs@.len(),
                out@ == mid + contents_enc(self@.contents.take(i as int)),
            decreases msgs@.len() - i,
        {
            proof {
                lemma_contents_enc_snoc(self@.contents, i as int);
                assert(msg_wf(self@.contents[i as int]));
            }
            msgs[i].serialize(out);
            i = i + 1;
        }
        proof {
            assert(self@.contents.take(self@.contents.len() as int) =~= self@.contents);
            assert(out@ =~= old(out)@ + block_enc(self@));
        }
    }

    /// Decode one block: read the header frame, consume messages until the
    /// declared content size is exhausted — a message reaching past it is
    /// an overrun — and reject a block whose content hash disagrees with
    /// its assembled messages.
    #[verifier::rlimit(100)]
    pub fn deserialize(rb: &mut ReadBuf) -> (r: Result<Block, ReadError>)
        ensures
            final(rb).all_bytes() == old(rb).all_bytes(),
            final(rb).pos() >= old(rb).pos(),
            match r {
                Ok(b) => parse_block(old(rb).suffix()) == Some(
                    (b@, final(rb).pos() - old(rb).pos()),
                ) && block_consistent(b@),
                Err(_) => parse_block(old(rb).suffix()) is None,
            },
    {
        let _rem0 = rb.remaining();
        let ghost all0 = rb.all_bytes();
        let ghost p0 = rb.pos();
        let ghost s0 = rb.suffix();
        let header_raw = match HeaderRaw::deserialize(rb) {
            Ok(v) => v,
            Err(e) => {
                return Err(e);
            },
        };
        let ghost hlen = header_raw@.len() as int;
        let mut hrb = ReadBuf::new(header_raw.as_bytes().as_slice());
        proof {
            assert(hrb.suffix() =~= header_raw@);
        }
        let header = match Header::read(&mut hrb) {
            Ok(h) => h,
            Err(e) => {
                return Err(e);
            },
        };
        if !hrb.is_end() {
            return Err(ReadError::StructureInvalid(StructureError::FrameUnderrun));
        }
        let ghost content_start = rb.pos();
        let ghost content_size = header@.content_size as nat;
        let ghost hb = header_raw@;
        let mut remaining: u32 = header.common.block_content_size;
        let mut messages: Vec<Message> = Vec::new();
        proof {
            assert(all0.skip(content_start) =~= s0.skip(2 + hlen));
        }
        while remaining > 0
            invariant
                all0 == old(rb).all_bytes(),
                p0 == old(rb).pos(),
                s0 == old(rb).suffix(),
                rb.all_bytes() == all0,
                0 <= p0 <= content_start <= rb.pos() <= all0.len(),
                s0 == all0.skip(p0),
                s0.len() >= 2 + hlen,
                hlen == be2_val(s0.take(2)),
                hb == s0.subrange(2, 2 + hlen),
                parse_header(hb) == Some((header@, hlen)),
                content_start == p0 + 2 + hlen,
                all0.skip(content_start) == s0.skip(2 + hlen),
                content_size == header@.content_size as nat,
                remaining as int == content_size - (rb.pos() - content_start),
                contents_wf(msgs_view(messages@)),
                contents_enc(msgs_view(messages@)) == all0.subrange(content_start, rb.pos()),
                match parse_messages(all0.skip(rb.pos()), remaining as nat) {
                    Some(tc) => parse_messages(all0.skip(content_start), content_size) == Some(
                        (msgs_view(messages@) + tc.0, (rb.pos() - content_start) + tc.1),
                    ),
                    None => parse_messages(all0.skip(content_start), content_size) is None,
                },
            decreases remaining,
        {
            let ghost ph = rb.pos();
            let ghost cur = rb.suffix();
            let raw = match MessageRaw::read(rb) {
                Ok(v) => v,
                Err(e) => {
                    return Err(e);
                },
            };
            let msg_size = raw.size_bytes_plus_size();
            if msg_size > remaining as usize {
                proof {
                    if parse_message(cur) is Some {
                        let mn = parse_message(cur).unwrap();
                        assert(mn.1 == 2 + raw@.len());
                    }
                }
                return Err(ReadError::StructureInvalid(StructureError::Overrun));
            }
            let msg = match Message::from_raw(&raw) {
                Ok(m) => m,
                Err(e) => {
                    proof {
                        assert(cur.subrange(2, 2 + raw@.len() as int) =~= raw@);
                    }
                    return Err(e);
                },
            };
            let ghost n = 2 + raw@.len() as int;
            proof {
                assert(cur.subrange(2, 2 + raw@.len() as int) =~= raw@);
                assert(parse_message(cur) == Some((msg@, n)));
                lemma_message_canonical(cur, msg@, n);
                assert(all0.skip(rb.pos()) =~= cur.skip(n));
            }
            let ghost before = msgs_view(messages@);
            messages.push(msg);
            remaining = remaining - msg_size as u32;
            proof {
                assert(msgs_view(messages@) =~= before.push(msg@));
                assert(before.push(msg@).take(before.len() as int) =~= before);
                lemma_contents_enc_snoc(msgs_view(messages@), before.len() as int);
                assert(msgs_view(messages@).take(before.len() as int + 1) =~= msgs_view(
                    messages@,
                ));
                assert(cur.subrange(0, n) =~= all0.subrange(ph, ph + n));
                assert(contents_enc(msgs_view(messages@)) =~= all0.subrange(
                    content_start,
                    rb.pos(),
                ));
                if parse_messages(all0.skip(rb.pos()), remaining as nat) is Some {
                    let tc = parse_messages(all0.skip(rb.pos()), remaining as nat).unwrap();
                    assert(parse_messages(cur, (remaining + n) as nat) == Some(
                        (seq![msg@] + tc.0, n + tc.1),
                    ));
                    assert(before + (seq![msg@] + tc.0) =~= msgs_view(messages@) + tc.0);
                }
            }
        }
        proof {
            assert(parse_messages(all0.skip(rb.pos()), 0nat) == Some(
                (Seq::<MessageV>::empty(), 0int),
            ));
            assert(msgs_view(messages@) + Seq::<MessageV>::empty() =~= msgs_view(messages@));
        }
        let contents = BlockContents::new(messages);
        let (content_hash, _content_size) = contents.compute_hash_size();
        if !bytes_eq(content_hash.as_bytes(), header.block_content_hash().as_bytes()) {
            return Err(ReadError::StructureInvalid(StructureError::ContentHashMismatch));
        }
        proof {
            assert(s0.subrange(2, 2 + hlen) =~= header_raw@);
        }
        Ok(Block { header, contents })
    }
}

} // verus!

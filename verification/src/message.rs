//! Ledger messages.  The core treats a message opaquely: it round-trips a
//! length-prefixed raw form and parses one tag byte for dispatch.  The one
//! variant it understands is `Initial`, an ordered list of configuration
//! parameters consumed until the end of the message.

use vstd::prelude::*;
use crate::packer::{u16_be, extend_bytes, put_u8, put_u16, ReadBuf, ReadError};
use crate::cbor::{be2_val, lemma_be2_val_of_u16, lemma_u16_be_of_be2};

verus! {

broadcast use vstd::group_vstd_default;

/// Wire tag of an `Initial` message.
pub const MESSAGE_TAG_INITIAL: u8 = 0;

/// The mathematical shape of one configuration parameter.
pub struct ConfigParamV {
    pub tag: u16,
    pub payload: Seq<u8>,
}

/// A parameter whose payload the wire format can carry.
pub open spec fn config_wf(c: ConfigParamV) -> bool {
    c.payload.len() <= 0xffff
}

/// The wire bytes of one parameter: its tag, its payload length, its
/// payload.
pub open spec fn config_enc(c: ConfigParamV) -> Seq<u8> {
    u16_be(c.tag) + u16_be(c.payload.len() as u16) + c.payload
}

/// Parse one parameter: the parameter and the bytes consumed.
pub open spec fn parse_config(s: Seq<u8>) -> Option<(ConfigParamV, int)> {
    if s.len() < 4 {
        None
    } else {
        let tag = be2_val(s.take(2));
        let len = be2_val(s.subrange(2, 4));
        if s.len() >= 4 + len {
            Some(
                ((ConfigParamV { tag: tag as u16, payload: s.subrange(4, 4 + len as int) }), 4
                    + len as int),
            )
        } else {
            None
        }
    }
}

/// Serialization bijection for parameters, one direction.
pub proof fn lemma_config_round_trip(c: ConfigParamV, rest: Seq<u8>)
    requires
        config_wf(c),
    ensures
        parse_config(config_enc(c) + rest) == Some((c, config_enc(c).len() as int)),
{
    let s = config_enc(c) + rest;
    assert(s.take(2) =~= u16_be(c.tag));
    lemma_be2_val_of_u16(c.tag);
    assert(s.subrange(2, 4) =~= u16_be(c.payload.len() as u16));
    lemma_be2_val_of_u16(c.payload.len() as u16);
    assert(s.subrange(4, 4 + c.payload.len() as int) =~= c.payload);
}

/// Frame stability for parameters: whatever decodes re-encodes to exactly
/// the bytes consumed.
pub proof fn lemma_config_canonical(s: Seq<u8>, c: ConfigParamV, n: int)
    requires
        parse_config(s) == Some((c, n)),
    ensures
        4 <= n <= s.len(),
        config_wf(c),
        config_enc(c) == s.subrange(0, n),
{
    lemma_u16_be_of_be2(s.take(2));
    lemma_u16_be_of_be2(s.subrange(2, 4));
    assert(u16_be(c.tag) =~= s.subrange(0, 2));
    assert(u16_be(c.payload.len() as u16) =~= s.subrange(2, 4));
    assert(config_enc(c) =~= s.subrange(0, n));
}

/// A single typed setting carried by an initial message; opaque to this
/// layer except through its own codec.
#[derive(Debug)]
pub struct ConfigParam {
    pub tag: u16,
    pub payload: Vec<u8>,
}

impl View for ConfigParam {
    type V = ConfigParamV;

    open spec fn view(&self) -> ConfigParamV {
        ConfigParamV { tag: self.tag, payload: self.payload@ }
    }
}

impl Clone for ConfigParam {
    fn clone(&self) -> (r: Self)
        ensures
            r@ == self@,
    {
        let mut v: Vec<u8> = Vec::new();
        extend_bytes(&mut v, self.payload.as_slice());
        ConfigParam { tag: self.tag, payload: v }
    }
}

impl ConfigParam {
    /// Append this parameter's wire bytes.
    pub fn serialize(&self, out: &mut Vec<u8>)
        requires
            self.payload@.len() <= 0xffff,
        ensures
            final(out)@ == old(out)@ + config_enc(self@),
    {
        put_u16(out, self.tag);
        put_u16(out, self.payload.len() as u16);
        extend_bytes(out, self.payload.as_slice());
        assert(out@ =~= old(out)@ + config_enc(self@));
    }

    /// Read one parameter.
    pub fn read(rb: &mut ReadBuf) -> (r: Result<Self, ReadError>)
        ensures
            final(rb).all_bytes() == old(rb).all_bytes(),
            final(rb).pos() >= old(rb).pos(),
            0 <= old(rb).pos(),
            final(rb).pos() <= final(rb).all_bytes().len(),
            match r {
                Ok(c) => parse_config(old(rb).suffix()) == Some(
                    (c@, final(rb).pos() - old(rb).pos()),
                ),
                Err(_) => parse_config(old(rb).suffix()) is None,
            },
    {
        let ghost s = rb.suffix();
        let ghost p0 = rb.pos();
        let ghost all0 = rb.all_bytes();
        let tag = match rb.get_u16() {
            Ok(v) => v,
            Err(e) => {
                return Err(e);
            },
        };
        proof {
            assert(s.take(2) =~= all0.subrange(p0, p0 + 2));
            lemma_be2_val_of_u16(tag);
        }
        let len = match rb.get_u16() {
            Ok(v) => v,
            Err(e) => {
                proof {
                    assert(s.len() < 4);
                }
                return Err(e);
            },
        };
        proof {
            assert(s.subrange(2, 4) =~= all0.subrange(p0 + 2, p0 + 4));
            lemma_be2_val_of_u16(len);
        }
        let payload = match crate::keys::read_raw(rb, len as usize) {
            Ok(v) => v,
            Err(e) => {
                return Err(e);
            },
        };
        proof {
            assert(payload@ =~= s.subrange(4, 4 + len as int));
        }
        Ok(ConfigParam { tag, payload })
    }
}

/// The views of a parameter list.
pub open spec fn params_view(v: Seq<ConfigParam>) -> Seq<ConfigParamV> {
    Seq::new(v.len(), |i: int| v[i]@)
}

/// The wire bytes of a parameter list: the parameters in order, nothing
/// between or after them.
pub open spec fn initial_enc(ps: Seq<ConfigParamV>) -> Seq<u8>
    decreases ps.len(),
{
    if ps.len() == 0 {
        Seq::empty()
    } else {
        config_enc(ps[0]) + initial_enc(ps.skip(1))
    }
}

/// Every parameter of the list fits the wire format.
pub open spec fn initial_wf(ps: Seq<ConfigParamV>) -> bool {
    forall|i: int| 0 <= i < ps.len() ==> config_wf(#[trigger] ps[i])
}

/// Parse parameters until the end of the buffer.
pub open spec fn parse_initial(s: Seq<u8>) -> Option<Seq<ConfigParamV>>
    decreases s.len(),
{
    if s.len() == 0 {
        Some(Seq::empty())
    } else {
        match parse_config(s) {
            Some(cn) => if 1 <= cn.1 <= s.len() {
                match parse_initial(s.skip(cn.1)) {
                    Some(tail) => Some(seq![cn.0] + tail),
                    None => None,
                }
            } else {
                None
            },
            None => None,
        }
    }
}

/// Appending a parameter extends the encoding at its end.
pub proof fn lemma_initial_enc_snoc(ps: Seq<ConfigParamV>, i: int)
    requires
        0 <= i < ps.len(),
    ensures
        initial_enc(ps.take(i + 1)) == initial_enc(ps.take(i)) + config_enc(ps[i]),
    decreases i,
{
    if i == 0 {
        assert(ps.take(1) =~= seq![ps[0]]);
        assert(ps.take(1).skip(1) =~= Seq::<ConfigParamV>::empty());
        assert(ps.take(0) =~= Seq::<ConfigParamV>::empty());
        assert(initial_enc(ps.take(1)) =~= initial_enc(ps.take(0)) + config_enc(ps[0]));
    } else {
        lemma_initial_enc_snoc(ps.skip(1), i - 1);
        assert(ps.take(i + 1).skip(1) =~= ps.skip(1).take(i));
        assert(ps.take(i).skip(1) =~= ps.skip(1).take(i - 1));
        assert(ps.take(i + 1)[0] == ps[0]);
        assert(ps.take(i)[0] == ps[0]);
        assert(ps.skip(1)[i - 1] == ps[i]);
        assert(initial_enc(ps.take(i)) + config_enc(ps[i]) =~= config_enc(ps[0]) + (
        initial_enc(ps.skip(1).take(i - 1)) + config_enc(ps.skip(1)[i - 1])));
    }
}

/// Serialization bijection for parameter lists, one direction.
pub proof fn lemma_initial_round_trip(ps: Seq<ConfigParamV>)
    requires
        initial_wf(ps),
    ensures
        parse_initial(initial_enc(ps)) == Some(ps),
    decreases ps.len(),
{
    if ps.len() == 0 {
        assert(ps =~= Seq::<ConfigParamV>::empty());
    } else {
        let s = initial_enc(ps);
        lemma_config_round_trip(ps[0], initial_enc(ps.skip(1)));
        assert(s == config_enc(ps[0]) + initial_enc(ps.skip(1)));
        lemma_initial_round_trip(ps.skip(1));
        assert(s.skip(config_enc(ps[0]).len() as int) =~= initial_enc(ps.skip(1)));
        if s.len() == 0 {
            assert(config_enc(ps[0]).len() >= 4);
            assert(false);
        }
        assert(seq![ps[0]] + ps.skip(1) =~= ps);
    }
}

/// Frame stability for parameter lists: whatever decodes re-encodes to
/// exactly the input.
pub proof fn lemma_initial_canonical(s: Seq<u8>, ps: Seq<ConfigParamV>)
    requires
        parse_initial(s) == Some(ps),
    ensures
        initial_wf(ps),
        initial_enc(ps) == s,
    decreases s.len(),
{
    if s.len() == 0 {
        assert(initial_enc(ps) =~= s);
    } else {
        let (c, n) = parse_config(s).unwrap();
        lemma_config_canonical(s, c, n);
        let tail = parse_initial(s.skip(n)).unwrap();
        lemma_initial_canonical(s.skip(n), tail);
        assert(ps == seq![c] + tail);
        assert(ps[0] == c);
        assert(ps.skip(1) =~= tail);
        assert(initial_enc(ps) == config_enc(c) + initial_enc(tail));
        assert(initial_enc(ps) =~= s);
        assert forall|i: int| 0 <= i < ps.len() implies config_wf(#[trigger] ps[i]) by {
            if i > 0 {
                assert(ps[i] == tail[i - 1]);
            }
        }
    }
}

/// The ordered configuration parameters of an initial message.
#[derive(Debug)]
pub struct InitialEnts {
    params: Vec<ConfigParam>,
}

impl View for InitialEnts {
    type V = Seq<ConfigParamV>;

    closed spec fn view(&self) -> Seq<ConfigParamV> {
        params_view(self.params@)
    }
}

impl Clone for InitialEnts {
    fn clone(&self) -> (r: Self)
        ensures
            r@ == self@,
    {
        let mut v: Vec<ConfigParam> = Vec::new();
        let mut i: usize = 0;
        while i < self.params.len()
            invariant
                0 <= i <= self.params@.len(),
                v@.len() == i,
                forall|j: int| 0 <= j < i ==> (#[trigger] v@[j])@ == self.params@[j]@,
            decreases self.params@.len() - i,
        {
            v.push(self.params[i].clone());
            i = i + 1;
        }
        proof {
            assert(params_view(v@) =~= params_view(self.params@));
        }
        InitialEnts { params: v }
    }
}

impl InitialEnts {
    /// The empty list.
    pub fn new() -> (r: Self)
        ensures
            r@ == Seq::<ConfigParamV>::empty(),
    {
        let r = InitialEnts { params: Vec::new() };
        proof {
            assert(r@ =~= Seq::<ConfigParamV>::empty());
        }
        r
    }

    /// Append one parameter at the end.
    pub fn push(&mut self, config: ConfigParam)
        ensures
            final(self)@ == old(self)@.push(config@),
    {
        self.params.push(config);
        proof {
            assert(self@ =~= old(self)@.push(config@));
        }
    }

    /// The parameters, in order.
    pub fn iter(&self) -> (r: &Vec<ConfigParam>)
        ensures
            params_view(r@) == self@,
    {
        &self.params
    }

    /// Append the wire bytes of every parameter, in order.
    pub fn serialize(&self, out: &mut Vec<u8>)
        requires
            initial_wf(self@),
        ensures
            final(out)@ == old(out)@ + initial_enc(self@),
    {
        let ghost base = out@;
        let mut i: usize = 0;
        while i < self.params.len()
            invariant
                initial_wf(self@),
                self@.len() == self.params@.len(),
                forall|j: int| 0 <= j < self@.len() ==> self@[j] == (#[trigger] self.params@[j])@,
                0 <= i <= self.params@.len(),
                out@ == base + initial_enc(self@.take(i as int)),
            decreases self.params@.len() - i,
        {
            proof {
                lemma_initial_enc_snoc(self@, i as int);
                assert(config_wf(self@[i as int]));
            }
            self.params[i].serialize(out);
            i = i + 1;
        }
        proof {
            assert(self@.take(self@.len() as int) =~= self@);
        }
    }

    /// Read parameters until the end of the buffer.
    pub fn read(rb: &mut ReadBuf) -> (r: Result<Self, ReadError>)
        ensures
            final(rb).all_bytes() == old(rb).all_bytes(),
            final(rb).pos() >= old(rb).pos(),
            match r {
                Ok(e) => parse_initial(old(rb).suffix()) == Some(e@)
                    && final(rb).remaining_spec() == 0,
                Err(_) => parse_initial(old(rb).suffix()) is None,
            },
    {
        let _rem0 = rb.remaining();
        let ghost all0 = rb.all_bytes();
        let ghost p0 = rb.pos();
        let ghost s0 = rb.suffix();
        let mut configs = InitialEnts::new();
        loop
            invariant
                all0 == old(rb).all_bytes(),
                p0 == old(rb).pos(),
                s0 == old(rb).suffix(),
                rb.all_bytes() == all0,
                0 <= p0 <= rb.pos() <= all0.len(),
                s0 == all0.skip(p0),
                match parse_initial(all0.skip(rb.pos())) {
                    Some(tail) => parse_initial(s0) == Some(configs@ + tail),
                    None => parse_initial(s0) is None,
                },
            decreases rb.remaining_spec(),
        {
            let ghost cur = rb.suffix();
            if rb.is_end() {
                proof {
                    assert(parse_initial(cur) == Some(Seq::<ConfigParamV>::empty()));
                    assert(configs@ + Seq::<ConfigParamV>::empty() =~= configs@);
                }
                return Ok(configs);
            }
            let c = match ConfigParam::read(rb) {
                Ok(c) => c,
                Err(e) => {
                    return Err(e);
                },
            };
            let ghost n = rb.pos() - (all0.len() - cur.len());
            proof {
                lemma_config_canonical(cur, c@, n);
                assert(all0.skip(rb.pos()) =~= cur.skip(n));
            }
            let ghost before = configs@;
            configs.push(c);
            proof {
                if parse_initial(cur.skip(n)) is Some {
                    let tail = parse_initial(cur.skip(n)).unwrap();
                    assert(parse_initial(cur) == Some(seq![c@] + tail));
                    assert(before + (seq![c@] + tail) =~= configs@ + tail);
                }
            }
        }
    }
}

/// The mathematical shape of a message: the one understood variant, or an
/// opaque tagged body.
pub enum MessageV {
    Initial(Seq<ConfigParamV>),
    Other(u8, Seq<u8>),
}

/// A message the wire format can carry: a nonzero tag for opaque bodies,
/// and a content that fits the length prefix.
pub open spec fn msg_wf(m: MessageV) -> bool {
    match m {
        MessageV::Initial(ps) => initial_wf(ps) && 1 + initial_enc(ps).len() <= 0xffff,
        MessageV::Other(t, p) => t != MESSAGE_TAG_INITIAL && 1 + p.len() <= 0xffff,
    }
}

/// A message's content bytes: its tag, then its body.
pub open spec fn msg_content_enc(m: MessageV) -> Seq<u8> {
    match m {
        MessageV::Initial(ps) => seq![MESSAGE_TAG_INITIAL] + initial_enc(ps),
        MessageV::Other(t, p) => seq![t] + p,
    }
}

/// A message's raw wire bytes: a two-byte length, then the content.
pub open spec fn msg_raw_enc(m: MessageV) -> Seq<u8> {
    u16_be(msg_content_enc(m).len() as u16) + msg_content_enc(m)
}

/// Parse a message out of its content bytes: tag dispatch, the one
/// understood variant decoded in full.
pub open spec fn parse_msg_content(c: Seq<u8>) -> Option<MessageV> {
    if c.len() < 1 {
        None
    } else if c[0] == MESSAGE_TAG_INITIAL {
        match parse_initial(c.skip(1)) {
            Some(ps) => Some(MessageV::Initial(ps)),
            None => None,
        }
    } else {
        Some(MessageV::Other(c[0], c.skip(1)))
    }
}

/// Parse one length-prefixed message: the message and the bytes consumed.
pub open spec fn parse_message(s: Seq<u8>) -> Option<(MessageV, int)> {
    if s.len() < 2 {
        None
    } else {
        let l = be2_val(s.take(2));
        if s.len() >= 2 + l {
            match parse_msg_content(s.subrange(2, 2 + l as int)) {
                Some(m) => Some((m, 2 + l as int)),
                None => None,
            }
        } else {
            None
        }
    }
}

/// Serialization bijection for messages, one direction.
pub proof fn lemma_message_round_trip(m: MessageV, rest: Seq<u8>)
    requires
        msg_wf(m),
    ensures
        parse_message(msg_raw_enc(m) + rest) == Some((m, msg_raw_enc(m).len() as int)),
{
    let c = msg_content_enc(m);
    let s = msg_raw_enc(m) + rest;
    assert(s.take(2) =~= u16_be(c.len() as u16));
    lemma_be2_val_of_u16(c.len() as u16);
    assert(s.subrange(2, 2 + c.len() as int) =~= c);
    match m {
        MessageV::Initial(ps) => {
            assert(c[0] == MESSAGE_TAG_INITIAL);
            assert(c.skip(1) =~= initial_enc(ps));
            lemma_initial_round_trip(ps);
        },
        MessageV::Other(t, p) => {
            assert(c[0] == t);
            assert(c.skip(1) =~= p);
        },
    }
}

/// Frame stability for messages: whatever decodes re-encodes to exactly
/// the bytes consumed.
pub proof fn lemma_message_canonical(s: Seq<u8>, m: MessageV, n: int)
    requires
        parse_message(s) == Some((m, n)),
    ensures
        3 <= n <= s.len(),
        msg_wf(m),
        msg_raw_enc(m) == s.subrange(0, n),
{
    let l = be2_val(s.take(2));
    let c = s.subrange(2, 2 + l as int);
    lemma_u16_be_of_be2(s.take(2));
    match m {
        MessageV::Initial(ps) => {
            lemma_initial_canonical(c.skip(1), ps);
            assert(msg_content_enc(m) =~= c);
        },
        MessageV::Other(t, p) => {
            assert(msg_content_enc(m) =~= c);
        },
    }
    assert(u16_be(l as u16) =~= s.subrange(0, 2));
    assert(msg_raw_enc(m) =~= s.subrange(0, n));
}

/// The length-prefixed opaque byte form of a message, self-delimiting on
/// the wire.  Holds the content; the prefix is written at serialization.
#[derive(Debug)]
pub struct MessageRaw {
    bytes: Vec<u8>,
}

impl View for MessageRaw {
    type V = Seq<u8>;

    closed spec fn view(&self) -> Seq<u8> {
        self.bytes@
    }
}

impl MessageRaw {
    #[verifier::type_invariant]
    closed spec fn wf(self) -> bool {
        self.bytes@.len() <= 0xffff
    }

    /// Take ownership of content bytes that fit the length prefix.
    pub fn from_vec(bytes: Vec<u8>) -> (r: Self)
        requires
            bytes@.len() <= 0xffff,
        ensures
            r@ == bytes@,
    {
        MessageRaw { bytes }
    }

    pub fn as_bytes(&self) -> (r: &Vec<u8>)
        ensures
            r@ == self@,
            r@.len() <= 0xffff,
    {
        proof {
            use_type_invariant(&*self);
        }
        &self.bytes
    }

    /// The bytes this raw message takes on the wire: its content plus the
    /// two-byte length prefix.
    pub fn size_bytes_plus_size(&self) -> (r: usize)
        ensures
            r == self@.len() + 2,
    {
        proof {
            use_type_invariant(&*self);
        }
        self.bytes.len() + 2
    }

    /// Append the two-byte length, then the content.
    pub fn serialize(&self, out: &mut Vec<u8>)
        ensures
            final(out)@ == old(out)@ + u16_be(self@.len() as u16) + self@,
    {
        proof {
            use_type_invariant(&*self);
        }
        put_u16(out, self.bytes.len() as u16);
        extend_bytes(out, self.bytes.as_slice());
    }

    /// Read one length-prefixed raw message.
    pub fn read(rb: &mut ReadBuf) -> (r: Result<Self, ReadError>)
        ensures
            final(rb).all_bytes() == old(rb).all_bytes(),
            final(rb).pos() >= old(rb).pos(),
            0 <= old(rb).pos(),
            final(rb).pos() <= final(rb).all_bytes().len(),
            match r {
                Ok(raw) => {
                    &&& old(rb).suffix().len() >= 2
                    &&& be2_val(old(rb).suffix().take(2)) == raw@.len()
                    &&& old(rb).suffix().len() >= 2 + raw@.len()
                    &&& raw@ == old(rb).suffix().subrange(2, 2 + raw@.len() as int)
                    &&& final(rb).pos() - old(rb).pos() == 2 + raw@.len()
                },
                Err(_) => old(rb).suffix().len() < 2 || old(rb).suffix().len() < 2 + be2_val(
                    old(rb).suffix().take(2),
                ),
            },
    {
        let ghost s = rb.suffix();
        let ghost p0 = rb.pos();
        let ghost all0 = rb.all_bytes();
        let l = match rb.get_u16() {
            Ok(v) => v,
            Err(e) => {
                return Err(e);
            },
        };
        proof {
            assert(s.take(2) =~= all0.subrange(p0, p0 + 2));
            lemma_be2_val_of_u16(l);
        }
        let bytes = match crate::keys::read_raw(rb, l as usize) {
            Ok(v) => v,
            Err(e) => {
                return Err(e);
            },
        };
        proof {
            assert(bytes@ =~= s.subrange(2, 2 + l as int));
        }
        Ok(MessageRaw { bytes })
    }
}

/// A ledger message: the one variant this layer understands, or an opaque
/// tagged body carried through unchanged.
#[derive(Debug)]
pub enum Message {
    Initial(InitialEnts),
    Other(u8, Vec<u8>),
}

impl View for Message {
    type V = MessageV;

    open spec fn view(&self) -> MessageV {
        match self {
            Message::Initial(ents) => MessageV::Initial(ents@),
            Message::Other(t, p) => MessageV::Other(*t, p@),
        }
    }
}

impl Clone for Message {
    fn clone(&self) -> (r: Self)
        ensures
            r@ == self@,
    {
        match self {
            Message::Initial(ents) => Message::Initial(ents.clone()),
            Message::Other(t, p) => {
                let mut v: Vec<u8> = Vec::new();
                extend_bytes(&mut v, p.as_slice());
                Message::Other(*t, v)
            },
        }
    }
}

impl Message {
    /// The message's content bytes: its tag, then its body.
    pub fn to_raw(&self) -> (r: MessageRaw)
        requires
            msg_wf(self@),
        ensures
            r@ == msg_content_enc(self@),
    {
        let mut content: Vec<u8> = Vec::new();
        match self {
            Message::Initial(ents) => {
                put_u8(&mut content, MESSAGE_TAG_INITIAL);
                ents.serialize(&mut content);
                assert(content@ =~= msg_content_enc(self@));
            },
            Message::Other(t, p) => {
                put_u8(&mut content, *t);
                extend_bytes(&mut content, p.as_slice());
                assert(content@ =~= msg_content_enc(self@));
            },
        }
        MessageRaw::from_vec(content)
    }

    /// Decode a message from its content bytes: dispatch on the tag; an
    /// initial message must consume its body in full.
    pub fn from_raw(raw: &MessageRaw) -> (r: Result<Self, ReadError>)
        ensures
            match r {
                Ok(m) => parse_msg_content(raw@) == Some(m@),
                Err(_) => parse_msg_content(raw@) is None,
            },
    {
        let bytes = raw.as_bytes();
        if bytes.len() < 1 {
            return Err(ReadError::NotEnough { requested: 1, remaining: 0 });
        }
        let tag = bytes[0];
        let body = vstd::slice::slice_subrange(bytes.as_slice(), 1, bytes.len());
        proof {
            assert(body@ =~= raw@.skip(1));
        }
        if tag == MESSAGE_TAG_INITIAL {
            let mut rb = ReadBuf::new(body);
            proof {
                assert(rb.suffix() =~= body@);
            }
            let ents = match InitialEnts::read(&mut rb) {
                Ok(e) => e,
                Err(e) => {
                    return Err(e);
                },
            };
            Ok(Message::Initial(ents))
        } else {
            Ok(Message::Other(tag, vstd::slice::slice_to_vec(body)))
        }
    }

    /// Append the message's raw wire bytes: length prefix, then content.
    pub fn serialize(&self, out: &mut Vec<u8>)
        requires
            msg_wf(self@),
        ensures
            final(out)@ == old(out)@ + msg_raw_enc(self@),
    {
        let raw = self.to_raw();
        raw.serialize(out);
        assert(out@ =~= old(out)@ + msg_raw_enc(self@));
    }
}

} // verus!

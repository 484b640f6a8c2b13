use vstd::prelude::*;

use crate::error::ErrorCode;

verus! {

/// Bytes in a frame header. The layout is: bytes 0..3 the body length
/// (24 bits), byte 3 the flags (bit 0 SYN, bit 1 FIN), byte 4 the frame type,
/// bytes 5..9 the stream ID (32 bits), all big-endian. Fields of 24, 8, 8 and
/// 32 bits make 9 bytes, so a frame takes `9 + length` bytes on the wire.
pub const HEADER_LEN: usize = 9;

/// The largest body a frame can carry: the length field has 24 bits.
pub const MAX_BODY_LEN: usize = 0xFF_FFFF;

/// The largest window increment: the field is read as a non-negative i32.
pub const MAX_WINDOW_INCREMENT: u32 = 0x7FFF_FFFF;

pub const TYPE_DATA: u8 = 0x00;
pub const TYPE_WND_INC: u8 = 0x01;
pub const TYPE_RST: u8 = 0x02;
pub const TYPE_GOAWAY: u8 = 0x07;

pub const FLAG_SYN: u8 = 0x01;
pub const FLAG_FIN: u8 = 0x02;

/// The body of a frame, by frame type.
#[derive(Clone, Debug, PartialEq, Eq)]
pub enum Body {
    /// Stream payload.
    Data(Vec<u8>),
    /// More window granted to the receiver of this frame.
    WndInc(u32),
    /// Abnormal close of a stream, with an error code.
    Rst(u32),
    /// Session termination, with an error code and a message.
    GoAway(u32, Vec<u8>),
}

/// One frame on the wire. For a GOAWAY the stream ID carries the last stream
/// the sender processed.
#[derive(Clone, Debug, PartialEq, Eq)]
pub struct Frame {
    pub stream_id: u32,
    pub syn: bool,
    pub fin: bool,
    pub body: Body,
}

pub enum BodyModel {
    Data(Seq<u8>),
    WndInc(u32),
    Rst(u32),
    GoAway(u32, Seq<u8>),
}

pub struct FrameModel {
    pub stream_id: u32,
    pub syn: bool,
    pub fin: bool,
    pub body: BodyModel,
}

impl View for Body {
    type V = BodyModel;

    open spec fn view(&self) -> BodyModel {
        match self {
            Body::Data(d) => BodyModel::Data(d@),
            Body::WndInc(n) => BodyModel::WndInc(*n),
            Body::Rst(c) => BodyModel::Rst(*c),
            Body::GoAway(c, m) => BodyModel::GoAway(*c, m@),
        }
    }
}

impl View for Frame {
    type V = FrameModel;

    open spec fn view(&self) -> FrameModel {
        FrameModel { stream_id: self.stream_id, syn: self.syn, fin: self.fin, body: self.body@ }
    }
}

/// Big-endian bytes of a 32-bit value.
pub open spec fn u32_be(x: u32) -> Seq<u8> {
    seq![(x >> 24u32) as u8, (x >> 16u32) as u8, (x >> 8u32) as u8, x as u8]
}

/// The 32-bit value of four big-endian bytes.
pub open spec fn be_u32(b: Seq<u8>) -> u32 {
    ((b[0] as u32) << 24u32) | ((b[1] as u32) << 16u32) | ((b[2] as u32) << 8u32) | (b[3] as u32)
}

/// Big-endian bytes of the low 24 bits of a value.
pub open spec fn u24_be(x: u32) -> Seq<u8> {
    seq![(x >> 16u32) as u8, (x >> 8u32) as u8, x as u8]
}

/// The value of three big-endian bytes.
pub open spec fn be_u24(b: Seq<u8>) -> u32 {
    ((b[0] as u32) << 16u32) | ((b[1] as u32) << 8u32) | (b[2] as u32)
}

pub open spec fn type_of(b: BodyModel) -> u8 {
    match b {
        BodyModel::Data(_) => TYPE_DATA,
        BodyModel::WndInc(_) => TYPE_WND_INC,
        BodyModel::Rst(_) => TYPE_RST,
        BodyModel::GoAway(_, _) => TYPE_GOAWAY,
    }
}

pub open spec fn body_bytes(b: BodyModel) -> Seq<u8> {
    match b {
        BodyModel::Data(d) => d,
        BodyModel::WndInc(n) => u32_be(n),
        BodyModel::Rst(c) => u32_be(c),
        BodyModel::GoAway(c, m) => u32_be(c) + m,
    }
}

pub open spec fn flags_of(syn: bool, fin: bool) -> u8 {
    ((if syn { FLAG_SYN } else { 0u8 }) | (if fin { FLAG_FIN } else { 0u8 })) as u8
}

/// A frame the codec can put on the wire: its body fits the length field
/// and a window increment is positive and fits an i32.
pub open spec fn well_formed(f: FrameModel) -> bool {
    &&& body_bytes(f.body).len() <= MAX_BODY_LEN
    &&& match f.body {
        BodyModel::WndInc(n) => 1 <= n <= MAX_WINDOW_INCREMENT,
        _ => true,
    }
}

/// The exact bytes of a frame on the wire.
pub open spec fn encoding(f: FrameModel) -> Seq<u8> {
    let body = body_bytes(f.body);
    u24_be(body.len() as u32) + seq![flags_of(f.syn, f.fin), type_of(f.body)] + u32_be(f.stream_id)
        + body
}

/// What the decoder makes of the bytes at the front of a buffer.
pub enum Parsed {
    /// Fewer bytes than a whole frame.
    Incomplete,
    /// A whole frame that breaks the protocol.
    Malformed,
    /// A frame, and how many bytes it took.
    Frame(FrameModel, nat),
}

/// The body of a frame of the given type, or `None` where the body does not
/// fit the type or the type is unknown.
pub open spec fn parse_body(typ: u8, body: Seq<u8>) -> Option<BodyModel> {
    if typ == TYPE_DATA {
        Some(BodyModel::Data(body))
    } else if typ == TYPE_WND_INC {
        if body.len() == 4 && 1 <= be_u32(body) <= MAX_WINDOW_INCREMENT {
            Some(BodyModel::WndInc(be_u32(body)))
        } else {
            None
        }
    } else if typ == TYPE_RST {
        if body.len() == 4 {
            Some(BodyModel::Rst(be_u32(body)))
        } else {
            None
        }
    } else if typ == TYPE_GOAWAY {
        if body.len() >= 4 {
            Some(BodyModel::GoAway(be_u32(body), body.skip(4)))
        } else {
            None
        }
    } else {
        None
    }
}

/// Decoding: read the header, then `length` bytes of body.
pub open spec fn parse(buf: Seq<u8>) -> Parsed {
    if buf.len() < HEADER_LEN {
        Parsed::Incomplete
    } else {
        let len = be_u24(buf.take(3));
        let flags = buf[3];
        let typ = buf[4];
        let id = be_u32(buf.subrange(5, 9));
        if buf.len() < HEADER_LEN + len {
            Parsed::Incomplete
        } else {
            match parse_body(typ, buf.subrange(HEADER_LEN as int, HEADER_LEN + len)) {
                Some(body) => Parsed::Frame(
                    FrameModel {
                        stream_id: id,
                        syn: flags & FLAG_SYN != 0,
                        fin: flags & FLAG_FIN != 0,
                        body,
                    },
                    (HEADER_LEN + len) as nat,
                ),
                None => Parsed::Malformed,
            }
        }
    }
}

/// Why a buffer did not decode to a frame.
#[derive(Clone, Copy, Debug, PartialEq, Eq, Structural)]
pub enum DecodeError {
    /// More bytes are needed.
    Incomplete,
    /// The frame breaks the protocol: an unknown type or a body that does
    /// not fit its type.
    Malformed,
}

/// Four big-endian bytes read back give the value they were made from.
pub proof fn lemma_u32_round_trip(x: u32)
    ensures
        be_u32(u32_be(x)) == x,
{
    assert(((((x >> 24u32) as u8) as u32) << 24u32) | ((((x >> 16u32) as u8) as u32) << 16u32)
        | ((((x >> 8u32) as u8) as u32) << 8u32) | ((x as u8) as u32) == x) by (bit_vector);
}

proof fn lemma_u24_round_trip(x: u32)
    requires
        x <= 0xFF_FFFF,
    ensures
        be_u24(u24_be(x)) == x,
{
    assert(x <= 0xFF_FFFF ==> ((((x >> 16u32) as u8) as u32) << 16u32) | ((((x >> 8u32) as u8)
        as u32) << 8u32) | ((x as u8) as u32) == x) by (bit_vector);
}

proof fn lemma_flags(syn: bool, fin: bool)
    ensures
        (flags_of(syn, fin) & FLAG_SYN != 0) == syn,
        (flags_of(syn, fin) & FLAG_FIN != 0) == fin,
{
    let s: u8 = if syn { 1 } else { 0 };
    let f: u8 = if fin { 2 } else { 0 };
    assert((s == 0 || s == 1) && (f == 0 || f == 2) ==> (((s | f) & 1u8 != 0) == (s == 1) && ((s
        | f) & 2u8 != 0) == (f == 2))) by (bit_vector);
}

/// Decoding the encoding of a well-formed frame gives the frame back, with
/// the whole encoding consumed, whatever bytes follow it.
pub proof fn lemma_decode_encode(f: FrameModel, rest: Seq<u8>)
    requires
        well_formed(f),
    ensures
        parse(encoding(f) + rest) == Parsed::Frame(f, encoding(f).len()),
{
    let body = body_bytes(f.body);
    let len = body.len() as u32;
    let buf = encoding(f) + rest;
    lemma_u24_round_trip(len);
    lemma_u32_round_trip(f.stream_id);
    lemma_flags(f.syn, f.fin);
    assert(buf.take(3) =~= u24_be(len));
    assert(buf.subrange(5, 9) =~= u32_be(f.stream_id));
    assert(buf.subrange(HEADER_LEN as int, HEADER_LEN + len) =~= body);
    match f.body {
        BodyModel::WndInc(n) => {
            lemma_u32_round_trip(n);
        },
        BodyModel::Rst(c) => {
            lemma_u32_round_trip(c);
        },
        BodyModel::GoAway(c, m) => {
            lemma_u32_round_trip(c);
            assert(body.take(4) =~= u32_be(c));
            assert(body.skip(4) =~= m);
            assert(be_u32(body) == be_u32(body.take(4)));
        },
        BodyModel::Data(_) => {},
    }
}

pub(crate) fn push_u32_be(out: &mut Vec<u8>, x: u32)
    ensures
        final(out)@ == old(out)@ + u32_be(x),
{
    out.push((x >> 24u32) as u8);
    out.push((x >> 16u32) as u8);
    out.push((x >> 8u32) as u8);
    out.push(x as u8);
    assert(final(out)@ =~= old(out)@ + u32_be(x));
}

pub(crate) fn read_u32_be(b: &[u8], at: usize) -> (r: u32)
    requires
        at + 4 <= b@.len(),
    ensures
        r == be_u32(b@.subrange(at as int, at + 4)),
{
    ((b[at] as u32) << 24u32) | ((b[at + 1] as u32) << 16u32) | ((b[at + 2] as u32) << 8u32) | (b[at
        + 3] as u32)
}

fn push_bytes(out: &mut Vec<u8>, b: &[u8])
    ensures
        final(out)@ == old(out)@ + b@,
{
    let mut i: usize = 0;
    while i < b.len()
        invariant
            i <= b@.len(),
            out@ == old(out)@ + b@.take(i as int),
        decreases b@.len() - i,
    {
        out.push(b[i]);
        i = i + 1;
        assert(out@ =~= old(out)@ + b@.take(i as int));
    }
    assert(b@.take(b@.len() as int) =~= b@);
}

pub(crate) fn copy_range(b: &[u8], from: usize, to: usize) -> (r: Vec<u8>)
    requires
        from <= to <= b@.len(),
    ensures
        r@ == b@.subrange(from as int, to as int),
{
    let mut r: Vec<u8> = Vec::with_capacity(to - from);
    let mut i: usize = from;
    while i < to
        invariant
            from <= i <= to <= b@.len(),
            r@ == b@.subrange(from as int, i as int),
        decreases to - i,
    {
        r.push(b[i]);
        i = i + 1;
        assert(r@ =~= b@.subrange(from as int, i as int));
    }
    r
}

/// The frame type byte of a body.
pub fn frame_type(b: &Body) -> (r: u8)
    ensures
        r == type_of(b@),
{
    match b {
        Body::Data(_) => TYPE_DATA,
        Body::WndInc(_) => TYPE_WND_INC,
        Body::Rst(_) => TYPE_RST,
        Body::GoAway(_, _) => TYPE_GOAWAY,
    }
}

fn body_fits(b: &Body) -> (r: bool)
    ensures
        r == (body_bytes(b@).len() <= MAX_BODY_LEN),
{
    match b {
        Body::Data(d) => d.len() <= MAX_BODY_LEN,
        Body::WndInc(_) => true,
        Body::Rst(_) => true,
        Body::GoAway(_, m) => m.len() <= MAX_BODY_LEN - 4,
    }
}

fn body_len(b: &Body) -> (r: usize)
    requires
        body_bytes(b@).len() <= MAX_BODY_LEN,
    ensures
        r == body_bytes(b@).len(),
{
    match b {
        Body::Data(d) => d.len(),
        Body::WndInc(_) => 4,
        Body::Rst(_) => 4,
        Body::GoAway(_, m) => m.len() + 4,
    }
}

/// Encodes a frame. Fails with a protocol error exactly when the frame is
/// not well formed (a body too long for the length field, or a window
/// increment that is zero or negative as an i32).
pub fn encode(f: &Frame) -> (r: Result<Vec<u8>, ErrorCode>)
    ensures
        match r {
            Ok(bytes) => well_formed(f@) && bytes@ == encoding(f@),
            Err(e) => !well_formed(f@) && e == ErrorCode::Protocol,
        },
{
    if !body_fits(&f.body) {
        return Err(ErrorCode::Protocol);
    }
    let len = body_len(&f.body);
    if let Body::WndInc(n) = &f.body {
        if *n < 1 || *n > MAX_WINDOW_INCREMENT {
            return Err(ErrorCode::Protocol);
        }
    }
    let mut out: Vec<u8> = Vec::with_capacity(HEADER_LEN + len);
    let len32 = len as u32;
    out.push((len32 >> 16u32) as u8);
    out.push((len32 >> 8u32) as u8);
    out.push(len32 as u8);
    let flags: u8 = (if f.syn { FLAG_SYN } else { 0u8 }) | (if f.fin { FLAG_FIN } else { 0u8 });
    out.push(flags);
    out.push(frame_type(&f.body));
    assert(out@ =~= u24_be(len32) + seq![flags_of(f.syn, f.fin), type_of(f.body@)]);
    push_u32_be(&mut out, f.stream_id);
    match &f.body {
        Body::Data(d) => push_bytes(&mut out, d.as_slice()),
        Body::WndInc(n) => push_u32_be(&mut out, *n),
        Body::Rst(c) => push_u32_be(&mut out, *c),
        Body::GoAway(c, m) => {
            push_u32_be(&mut out, *c);
            push_bytes(&mut out, m.as_slice());
        },
    }
    assert(out@ =~= encoding(f@));
    Ok(out)
}

/// Decodes the frame at the front of `buf`, returning it with the number of
/// bytes it took.
pub fn decode(buf: &[u8]) -> (r: Result<(Frame, usize), DecodeError>)
    ensures
        match (r, parse(buf@)) {
            (Ok((f, n)), Parsed::Frame(g, m)) => f@ == g && n == m,
            (Err(DecodeError::Incomplete), Parsed::Incomplete) => true,
            (Err(DecodeError::Malformed), Parsed::Malformed) => true,
            _ => false,
        },
{
    if buf.len() < HEADER_LEN {
        return Err(DecodeError::Incomplete);
    }
    let b0 = buf[0];
    let b1 = buf[1];
    let b2 = buf[2];
    let len: u32 = ((b0 as u32) << 16u32) | ((b1 as u32) << 8u32) | (b2 as u32);
    assert(buf@.take(3)[0] == b0 && buf@.take(3)[1] == b1 && buf@.take(3)[2] == b2);
    assert(len <= 0xFF_FFFF) by (bit_vector)
        requires
            len == ((b0 as u32) << 16u32) | ((b1 as u32) << 8u32) | (b2 as u32),
    ;
    let flags = buf[3];
    let typ = buf[4];
    let id = read_u32_be(buf, 5);
    if buf.len() - HEADER_LEN < len as usize {
        return Err(DecodeError::Incomplete);
    }
    let end = HEADER_LEN + len as usize;
    let ghost body_seq = buf@.subrange(HEADER_LEN as int, end as int);
    let body = if typ == TYPE_DATA {
        Body::Data(copy_range(buf, HEADER_LEN, end))
    } else if typ == TYPE_WND_INC {
        if len != 4 {
            return Err(DecodeError::Malformed);
        }
        let n = read_u32_be(buf, HEADER_LEN);
        assert(body_seq =~= buf@.subrange(HEADER_LEN as int, HEADER_LEN + 4));
        if n < 1 || n > MAX_WINDOW_INCREMENT {
            return Err(DecodeError::Malformed);
        }
        Body::WndInc(n)
    } else if typ == TYPE_RST {
        if len != 4 {
            return Err(DecodeError::Malformed);
        }
        let c = read_u32_be(buf, HEADER_LEN);
        assert(body_seq =~= buf@.subrange(HEADER_LEN as int, HEADER_LEN + 4));
        Body::Rst(c)
    } else if typ == TYPE_GOAWAY {
        if len < 4 {
            return Err(DecodeError::Malformed);
        }
        let c = read_u32_be(buf, HEADER_LEN);
        assert(be_u32(body_seq) == be_u32(buf@.subrange(HEADER_LEN as int, HEADER_LEN + 4)));
        let m = copy_range(buf, HEADER_LEN + 4, end);
        assert(body_seq.skip(4) =~= m@);
        Body::GoAway(c, m)
    } else {
        return Err(DecodeError::Malformed);
    };
    let f = Frame { stream_id: id, syn: flags & FLAG_SYN != 0, fin: flags & FLAG_FIN != 0, body };
    Ok((f, end))
}

} // verus!

use vstd::prelude::*;

use std::collections::VecDeque;

use crate::error::ErrorCode;
use crate::frame::{copy_range, Body, BodyModel, Frame, FrameModel, MAX_BODY_LEN, MAX_WINDOW_INCREMENT};

verus! {

/// The abstract state of one stream.
pub struct StreamModel {
    pub id: u32,
    /// The window both sides started with; also the receive capacity.
    pub window: u32,
    /// Bytes the peer has room for.
    pub send_window: u32,
    /// Received bytes not yet read.
    pub buf: Seq<u8>,
    /// Bytes read since the last window grant.
    pub unacked: u32,
    pub local_closed: bool,
    pub remote_closed: bool,
    /// The latched error, once the stream is reset or the session is gone.
    pub error: Option<ErrorCode>,
    /// Every payload byte put on the wire, in order.
    pub sent: Seq<u8>,
    /// Every payload byte taken from the wire, in order.
    pub received: Seq<u8>,
    /// The sum of the window increments received.
    pub granted: nat,
    /// How many received bytes the reader has had.
    pub delivered: nat,
}

pub open spec fn data_frame(id: u32, syn: bool, fin: bool, d: Seq<u8>) -> FrameModel {
    FrameModel { stream_id: id, syn, fin, body: BodyModel::Data(d) }
}

impl StreamModel {
    /// The state's invariant: window accounting and buffer bookkeeping.
    pub open spec fn wf(self) -> bool {
        &&& 1 <= self.window <= MAX_WINDOW_INCREMENT
        &&& self.send_window <= self.window
        &&& self.send_window + self.sent.len() == self.window + self.granted
        &&& self.delivered <= self.received.len()
        &&& self.buf == self.received.skip(self.delivered as int)
        &&& self.buf.len() + self.unacked <= self.window
        &&& self.error.is_some() ==> self.local_closed && self.remote_closed
    }

    /// A gone stream takes no more frames and may leave the registry.
    pub open spec fn gone(self) -> bool {
        self.error.is_some() || (self.local_closed && self.remote_closed)
    }

    /// The read-side threshold: a grant goes out once this many bytes were
    /// read since the last one.
    pub open spec fn grant_threshold(self) -> u32 {
        (self.window / 2) as u32
    }
}

/// A fresh stream. The SYN that opens it is not its business: the side that
/// opens it sends that frame when it allocates the ID.
pub open spec fn fresh(id: u32, window: u32) -> StreamModel {
    StreamModel {
        id,
        window,
        send_window: window,
        buf: Seq::empty(),
        unacked: 0,
        local_closed: false,
        remote_closed: false,
        error: None,
        sent: Seq::empty(),
        received: Seq::empty(),
        granted: 0,
        delivered: 0,
    }
}

pub enum WriteModel {
    Sent(nat, FrameModel),
    Blocked,
    Failed(ErrorCode),
}

pub open spec fn min3(a: nat, b: nat, c: nat) -> nat {
    if a <= b && a <= c {
        a
    } else if b <= c {
        b
    } else {
        c
    }
}

/// Writing: send as much as the peer's window (and one frame) takes.
pub open spec fn write_step(s: StreamModel, data: Seq<u8>) -> (StreamModel, WriteModel) {
    if s.error.is_some() {
        (s, WriteModel::Failed(s.error.unwrap()))
    } else if s.local_closed {
        (s, WriteModel::Failed(ErrorCode::StreamClosed))
    } else if data.len() == 0 {
        (s, WriteModel::Sent(0, data_frame(s.id, false, false, data)))
    } else if s.send_window == 0 {
        (s, WriteModel::Blocked)
    } else {
        let n = min3(data.len(), s.send_window as nat, MAX_BODY_LEN as nat);
        let chunk = data.take(n as int);
        (
            StreamModel {
                send_window: (s.send_window - n) as u32,
                sent: s.sent + chunk,
                ..s
            },
            WriteModel::Sent(n, data_frame(s.id, false, false, chunk)),
        )
    }
}

/// Closing the write half: one (possibly empty) DATA frame with FIN.
pub open spec fn close_write_step(s: StreamModel) -> (StreamModel, Option<FrameModel>) {
    if s.local_closed || s.error.is_some() {
        (s, None)
    } else {
        (
            StreamModel { local_closed: true, ..s },
            Some(data_frame(s.id, false, true, Seq::empty())),
        )
    }
}

/// Resetting: one RST, the code latched, both halves closed.
pub open spec fn reset_step(s: StreamModel, code: ErrorCode) -> (StreamModel, Option<FrameModel>) {
    if s.error.is_some() {
        (s, None)
    } else {
        (
            StreamModel { error: Some(code), local_closed: true, remote_closed: true, ..s },
            Some(
                FrameModel {
                    stream_id: s.id,
                    syn: false,
                    fin: false,
                    body: BodyModel::Rst(crate::error::code_of(code)),
                },
            ),
        )
    }
}

/// Latching an error from the session: no frame goes out.
pub open spec fn latch_step(s: StreamModel, e: ErrorCode) -> StreamModel {
    if s.error.is_some() {
        s
    } else {
        StreamModel { error: Some(e), local_closed: true, remote_closed: true, ..s }
    }
}

pub enum ReadModel {
    /// Bytes, and a window grant to send where one is due.
    Data(Seq<u8>, Option<FrameModel>),
    Eof,
    Blocked,
    Failed(ErrorCode),
}

/// Reading up to `max` bytes.
pub open spec fn read_step(s: StreamModel, max: nat) -> (StreamModel, ReadModel) {
    if s.error.is_some() {
        (s, ReadModel::Failed(s.error.unwrap()))
    } else if max == 0 {
        (s, ReadModel::Data(Seq::empty(), None))
    } else if s.buf.len() == 0 {
        if s.remote_closed {
            (s, ReadModel::Eof)
        } else {
            (s, ReadModel::Blocked)
        }
    } else {
        let n = if max <= s.buf.len() {
            max
        } else {
            s.buf.len()
        };
        let unacked = s.unacked + n;
        let s2 = StreamModel {
            buf: s.buf.skip(n as int),
            delivered: (s.delivered + n) as nat,
            ..s
        };
        if unacked >= s.grant_threshold() {
            (
                StreamModel { unacked: 0, ..s2 },
                ReadModel::Data(
                    s.buf.take(n as int),
                    Some(
                        FrameModel {
                            stream_id: s.id,
                            syn: false,
                            fin: false,
                            body: BodyModel::WndInc(unacked as u32),
                        },
                    ),
                ),
            )
        } else {
            (StreamModel { unacked: unacked as u32, ..s2 }, ReadModel::Data(s.buf.take(n as int), None))
        }
    }
}

/// Taking a DATA, WND_INC or RST frame from the peer. An error means the
/// frame broke the protocol on this stream; the state is then unchanged.
pub open spec fn receive_step(s: StreamModel, f: FrameModel) -> (StreamModel, Result<(), ErrorCode>) {
    if s.gone() {
        (s, Ok(()))
    } else {
        match f.body {
            BodyModel::Rst(c) => (
                StreamModel {
                    error: Some(crate::error::error_of(c)),
                    local_closed: true,
                    remote_closed: true,
                    ..s
                },
                Ok(()),
            ),
            BodyModel::WndInc(n) => if s.send_window + n > s.window {
                (s, Err(ErrorCode::FlowControl))
            } else {
                (
                    StreamModel {
                        send_window: (s.send_window + n) as u32,
                        granted: (s.granted + n) as nat,
                        ..s
                    },
                    Ok(()),
                )
            },
            BodyModel::Data(d) => if s.remote_closed {
                (s, Err(ErrorCode::Protocol))
            } else if s.buf.len() + s.unacked + d.len() > s.window {
                (s, Err(ErrorCode::FlowControl))
            } else {
                (
                    StreamModel {
                        buf: s.buf + d,
                        received: s.received + d,
                        remote_closed: f.fin,
                        ..s
                    },
                    Ok(()),
                )
            },
            BodyModel::GoAway(_, _) => (s, Err(ErrorCode::Protocol)),
        }
    }
}

/// Outcome of a write.
#[derive(Debug)]
pub enum WriteOutcome {
    /// This many bytes went into the frame to send.
    Sent(usize, Frame),
    /// The peer's window is full: wait for a grant.
    Blocked,
}

/// Outcome of a read.
#[derive(Debug)]
pub enum ReadOutcome {
    /// Bytes read, and a window grant to send where one is due.
    Data(Vec<u8>, Option<Frame>),
    /// The peer closed its write half and every byte was read.
    Eof,
    /// Nothing to read yet.
    Blocked,
}

pub open spec fn opt_frame_view(f: Option<Frame>) -> Option<FrameModel> {
    match f {
        Some(g) => Some(g@),
        None => None,
    }
}

pub open spec fn write_view(r: Result<WriteOutcome, ErrorCode>) -> WriteModel {
    match r {
        Ok(WriteOutcome::Sent(n, f)) => WriteModel::Sent(n as nat, f@),
        Ok(WriteOutcome::Blocked) => WriteModel::Blocked,
        Err(e) => WriteModel::Failed(e),
    }
}

pub open spec fn read_view(r: Result<ReadOutcome, ErrorCode>) -> ReadModel {
    match r {
        Ok(ReadOutcome::Data(d, g)) => ReadModel::Data(d@, opt_frame_view(g)),
        Ok(ReadOutcome::Eof) => ReadModel::Eof,
        Ok(ReadOutcome::Blocked) => ReadModel::Blocked,
        Err(e) => ReadModel::Failed(e),
    }
}

/// One stream's state: receive buffer, window accounting, half-close
/// flags and latched error.
pub struct StreamState {
    id: u32,
    window: u32,
    send_window: u32,
    buf: VecDeque<u8>,
    unacked: u32,
    local_closed: bool,
    remote_closed: bool,
    error: Option<ErrorCode>,
    sent: Ghost<Seq<u8>>,
    received: Ghost<Seq<u8>>,
    granted: Ghost<nat>,
    delivered: Ghost<nat>,
}

impl View for StreamState {
    type V = StreamModel;

    closed spec fn view(&self) -> StreamModel {
        StreamModel {
            id: self.id,
            window: self.window,
            send_window: self.send_window,
            buf: self.buf@,
            unacked: self.unacked,
            local_closed: self.local_closed,
            remote_closed: self.remote_closed,
            error: self.error,
            sent: self.sent@,
            received: self.received@,
            granted: self.granted@,
            delivered: self.delivered@,
        }
    }
}

fn take_front(v: &mut VecDeque<u8>, n: usize) -> (r: Vec<u8>)
    requires
        n <= old(v)@.len(),
    ensures
        r@ == old(v)@.take(n as int),
        final(v)@ == old(v)@.skip(n as int),
{
    let mut r: Vec<u8> = Vec::with_capacity(n);
    let mut i: usize = 0;
    while i < n
        invariant
            i <= n <= old(v)@.len(),
            r@ == old(v)@.take(i as int),
            v@ == old(v)@.skip(i as int),
        decreases n - i,
    {
        match v.pop_front() {
            Some(b) => {
                r.push(b);
            },
            None => {},
        }
        i = i + 1;
        assert(r@ =~= old(v)@.take(i as int));
        assert(v@ =~= old(v)@.skip(i as int));
    }
    r
}

fn append(v: &mut VecDeque<u8>, d: &Vec<u8>)
    ensures
        final(v)@ == old(v)@ + d@,
{
    let mut i: usize = 0;
    while i < d.len()
        invariant
            i <= d@.len(),
            v@ == old(v)@ + d@.take(i as int),
        decreases d@.len() - i,
    {
        v.push_back(d[i]);
        i = i + 1;
        assert(v@ =~= old(v)@ + d@.take(i as int));
    }
    assert(d@.take(d@.len() as int) =~= d@);
}

impl StreamState {
    /// A fresh stream with the given ID and window.
    pub fn new(id: u32, window: u32) -> (r: StreamState)
        requires
            1 <= window <= MAX_WINDOW_INCREMENT,
        ensures
            r@ == fresh(id, window),
            r@.wf(),
    {
        let r = StreamState {
            id,
            window,
            send_window: window,
            buf: VecDeque::new(),
            unacked: 0,
            local_closed: false,
            remote_closed: false,
            error: None,
            sent: Ghost(Seq::empty()),
            received: Ghost(Seq::empty()),
            granted: Ghost(0),
            delivered: Ghost(0),
        };
        assert(r@.buf =~= r@.received.skip(0));
        r
    }

    pub fn id(&self) -> (r: u32)
        ensures
            r == self@.id,
    {
        self.id
    }

    /// Bytes the peer has room for.
    pub fn send_window(&self) -> (r: u32)
        ensures
            r == self@.send_window,
    {
        self.send_window
    }

    /// Received bytes waiting to be read.
    pub fn buffered(&self) -> (r: usize)
        ensures
            r == self@.buf.len(),
    {
        self.buf.len()
    }

    pub fn local_closed(&self) -> (r: bool)
        ensures
            r == self@.local_closed,
    {
        self.local_closed
    }

    pub fn remote_closed(&self) -> (r: bool)
        ensures
            r == self@.remote_closed,
    {
        self.remote_closed
    }

    pub fn error(&self) -> (r: Option<ErrorCode>)
        ensures
            r == self@.error,
    {
        self.error
    }

    /// Whether the stream is done: reset, or closed both ways.
    pub fn is_gone(&self) -> (r: bool)
        ensures
            r == self@.gone(),
    {
        self.error.is_some() || (self.local_closed && self.remote_closed)
    }

    /// Writes from `data` as much as the peer's window and one frame take.
    pub fn write(&mut self, data: &[u8]) -> (r: Result<WriteOutcome, ErrorCode>)
        requires
            old(self)@.wf(),
        ensures
            final(self)@ == write_step(old(self)@, data@).0,
            write_view(r) == write_step(old(self)@, data@).1,
            final(self)@.wf(),
    {
        if let Some(e) = self.error {
            return Err(e);
        }
        if self.local_closed {
            return Err(ErrorCode::StreamClosed);
        }
        if data.len() == 0 {
            let f = Frame {
                stream_id: self.id,
                syn: false,
                fin: false,
                body: Body::Data(Vec::new()),
            };
            proof {
                assert(data@ =~= Seq::<u8>::empty());
            }
            return Ok(WriteOutcome::Sent(0, f));
        }
        if self.send_window == 0 {
            return Ok(WriteOutcome::Blocked);
        }
        let mut n = data.len();
        if n > self.send_window as usize {
            n = self.send_window as usize;
        }
        if n > MAX_BODY_LEN {
            n = MAX_BODY_LEN;
        }
        let chunk = copy_range(data, 0, n);
        assert(chunk@ =~= data@.take(n as int));
        let f = Frame { stream_id: self.id, syn: false, fin: false, body: Body::Data(chunk) };
        self.send_window = self.send_window - n as u32;
        self.sent = Ghost(self.sent@ + data@.take(n as int));
        Ok(WriteOutcome::Sent(n, f))
    }

    /// Closes the write half, returning the FIN frame to send. A second call
    /// does nothing.
    pub fn close_write(&mut self) -> (r: Option<Frame>)
        requires
            old(self)@.wf(),
        ensures
            final(self)@ == close_write_step(old(self)@).0,
            opt_frame_view(r) == close_write_step(old(self)@).1,
            final(self)@.wf(),
    {
        if self.local_closed || self.error.is_some() {
            return None;
        }
        let f = Frame { stream_id: self.id, syn: false, fin: true, body: Body::Data(Vec::new()) };
        self.local_closed = true;
        assert(f.body@ == BodyModel::Data(Seq::<u8>::empty()));
        Some(f)
    }

    /// Resets the stream with `code`, returning the RST frame to send. A
    /// second call does nothing.
    pub fn reset(&mut self, code: ErrorCode) -> (r: Option<Frame>)
        requires
            old(self)@.wf(),
        ensures
            final(self)@ == reset_step(old(self)@, code).0,
            opt_frame_view(r) == reset_step(old(self)@, code).1,
            final(self)@.wf(),
    {
        if self.error.is_some() {
            return None;
        }
        self.error = Some(code);
        self.local_closed = true;
        self.remote_closed = true;
        Some(Frame { stream_id: self.id, syn: false, fin: false, body: Body::Rst(code.code()) })
    }

    /// Latches an error that the session imposes; no frame goes out.
    pub fn latch(&mut self, e: ErrorCode)
        requires
            old(self)@.wf(),
        ensures
            final(self)@ == latch_step(old(self)@, e),
            final(self)@.wf(),
    {
        if self.error.is_none() {
            self.error = Some(e);
            self.local_closed = true;
            self.remote_closed = true;
        }
    }

    /// Reads up to `max` buffered bytes. Where enough was read since the last
    /// grant, the window increment to send comes with the bytes.
    pub fn read(&mut self, max: usize) -> (r: Result<ReadOutcome, ErrorCode>)
        requires
            old(self)@.wf(),
        ensures
            final(self)@ == read_step(old(self)@, max as nat).0,
            read_view(r) == read_step(old(self)@, max as nat).1,
            final(self)@.wf(),
    {
        if let Some(e) = self.error {
            return Err(e);
        }
        if max == 0 {
            return Ok(ReadOutcome::Data(Vec::new(), None));
        }
        if self.buf.len() == 0 {
            if self.remote_closed {
                return Ok(ReadOutcome::Eof);
            } else {
                return Ok(ReadOutcome::Blocked);
            }
        }
        let n = if max <= self.buf.len() {
            max
        } else {
            self.buf.len()
        };
        let out = take_front(&mut self.buf, n);
        self.delivered = Ghost((self.delivered@ + n) as nat);
        proof {
            assert(self.buf@ =~= self.received@.skip(self.delivered@ as int));
        }
        let unacked = self.unacked + n as u32;
        if unacked >= self.window / 2 {
            self.unacked = 0;
            Ok(ReadOutcome::Data(out, Some(Frame { stream_id: self.id, syn: false, fin: false, body: Body::WndInc(unacked) })))
        } else {
            self.unacked = unacked;
            Ok(ReadOutcome::Data(out, None))
        }
    }

    /// Takes a DATA, WND_INC or RST frame from the peer. An error means the
    /// frame broke the protocol on this stream, which is left unchanged.
    pub fn receive(&mut self, f: &Frame) -> (r: Result<(), ErrorCode>)
        requires
            old(self)@.wf(),
        ensures
            final(self)@ == receive_step(old(self)@, f@).0,
            r == receive_step(old(self)@, f@).1,
            final(self)@.wf(),
    {
        if self.error.is_some() || (self.local_closed && self.remote_closed) {
            return Ok(());
        }
        match &f.body {
            Body::Rst(c) => {
                self.error = Some(ErrorCode::from_code(*c));
                self.local_closed = true;
                self.remote_closed = true;
                Ok(())
            },
            Body::WndInc(n) => {
                if *n > self.window - self.send_window {
                    return Err(ErrorCode::FlowControl);
                }
                self.send_window = self.send_window + *n;
                self.granted = Ghost(self.granted@ + *n as nat);
                Ok(())
            },
            Body::Data(d) => {
                if self.remote_closed {
                    return Err(ErrorCode::Protocol);
                }
                if d.len() > (self.window as usize) - self.buf.len() - (self.unacked as usize) {
                    return Err(ErrorCode::FlowControl);
                }
                        append(&mut self.buf, d);
                self.received = Ghost(self.received@ + d@);
                self.remote_closed = f.fin;
                proof {
                    assert(self.buf@ =~= self.received@.skip(self.delivered@ as int));
                }
                Ok(())
            },
            Body::GoAway(_, _) => Err(ErrorCode::Protocol),
        }
    }
}

/// The peer's advertised window is never exceeded: the payload bytes sent
/// on a stream never exceed the initial window plus every increment granted.
pub proof fn lemma_window_respected(s: StreamModel)
    requires
        s.wf(),
    ensures
        s.sent.len() <= s.window + s.granted,
{
}

/// Each step of the stream keeps its invariant.
pub proof fn lemma_steps_keep_wf(s: StreamModel, data: Seq<u8>, max: nat, f: FrameModel, e: ErrorCode)
    requires
        s.wf(),
    ensures
        write_step(s, data).0.wf(),
        close_write_step(s).0.wf(),
        reset_step(s, e).0.wf(),
        latch_step(s, e).wf(),
        read_step(s, max).0.wf(),
        receive_step(s, f).0.wf(),
{
    let (r, _) = read_step(s, max);
    if s.error.is_none() && max > 0 && s.buf.len() > 0 {
        assert(r.buf =~= r.received.skip(r.delivered as int));
    }
    let (t, _) = receive_step(s, f);
    if let BodyModel::Data(d) = f.body {
        assert(t.buf =~= t.received.skip(t.delivered as int));
    }
}

/// Closing the write half twice is closing it once: the second call sends
/// nothing and changes nothing.
pub proof fn lemma_close_write_idempotent(s: StreamModel)
    ensures
        close_write_step(close_write_step(s).0).0 == close_write_step(s).0,
        close_write_step(close_write_step(s).0).1.is_none(),
{
}

/// Resetting twice is resetting once: the second call sends nothing and
/// changes nothing, whatever its code.
pub proof fn lemma_reset_idempotent(s: StreamModel, first: ErrorCode, second: ErrorCode)
    ensures
        reset_step(reset_step(s, first).0, second).0 == reset_step(s, first).0,
        reset_step(reset_step(s, first).0, second).1.is_none(),
{
}

/// What one side sends is what the other receives, in order: where the
/// receiver has taken every byte the sender sent, a write whose frame the
/// receiver accepts keeps them equal. Reads hand out the received bytes in
/// order, each read going on where the last stopped.
pub proof fn lemma_bytes_in_order(a: StreamModel, b: StreamModel, data: Seq<u8>, max: nat)
    requires
        a.wf(),
        b.wf(),
        b.received == a.sent,
        !b.gone(),
    ensures
        match write_step(a, data) {
            (a1, WriteModel::Sent(_, f)) => match receive_step(b, f) {
                (b1, Ok(())) => b1.received == a1.sent,
                _ => true,
            },
            _ => true,
        },
        match read_step(b, max) {
            (b1, ReadModel::Data(d, _)) => b1.received == b.received && b1.received.take(
                b1.delivered as int,
            ) == b.received.take(b.delivered as int) + d,
            _ => true,
        },
{
    match read_step(b, max) {
        (b1, ReadModel::Data(d, _)) => {
            if max > 0 {
                assert(b1.received.take(b1.delivered as int) =~= b.received.take(b.delivered as int)
                    + d);
            } else {
                assert(d =~= Seq::<u8>::empty());
                assert(b.received.take(b.delivered as int) + d =~= b.received.take(b.delivered as int));
            }
        },
        _ => {},
    }
}

/// A zero-length DATA frame with FIN closes the peer's half without touching
/// the buffered bytes; once those are read, a read gives end of stream.
pub proof fn lemma_empty_fin(s: StreamModel, max: nat)
    requires
        s.wf(),
        !s.gone(),
        !s.remote_closed,
        max > 0,
    ensures
        receive_step(s, data_frame(s.id, false, true, Seq::empty())).1 == Ok::<(), ErrorCode>(()),
        receive_step(s, data_frame(s.id, false, true, Seq::empty())).0.buf == s.buf,
        receive_step(s, data_frame(s.id, false, true, Seq::empty())).0.received == s.received,
        receive_step(s, data_frame(s.id, false, true, Seq::empty())).0.remote_closed,
        s.buf.len() == 0 ==> read_step(
            receive_step(s, data_frame(s.id, false, true, Seq::empty())).0,
            max,
        ).1 == ReadModel::Eof,
{
    assert(s.buf + Seq::<u8>::empty() =~= s.buf);
    assert(s.received + Seq::<u8>::empty() =~= s.received);
}

/// Writing exactly one window's worth on a fresh stream: it goes out in one
/// frame when a frame can hold it, else in the largest frame; either way
/// the receiver's buffer holds exactly the bytes sent, and draining a whole
/// window from a fresh receiver hands out those bytes with a grant of the
/// whole window.
pub proof fn lemma_full_window_write(id: u32, w: u32, data: Seq<u8>)
    requires
        1 <= w <= MAX_WINDOW_INCREMENT,
        data.len() == w,
    ensures
        match write_step(fresh(id, w), data) {
            (a1, WriteModel::Sent(n, f)) => {
                &&& n == (if w <= MAX_BODY_LEN { w as nat } else { MAX_BODY_LEN as nat })
                &&& a1.sent == data.take(n as int)
                &&& receive_step(fresh(id, w), f).1 == Ok::<(), ErrorCode>(())
                &&& receive_step(fresh(id, w), f).0.buf == a1.sent
            },
            _ => false,
        },
        ({
            let b = StreamModel { buf: data, received: data, ..fresh(id, w) };
            read_step(b, w as nat) == (
                StreamModel { buf: Seq::empty(), delivered: w as nat, ..b },
                ReadModel::Data(
                    data,
                    Some(FrameModel { stream_id: id, syn: false, fin: false, body: BodyModel::WndInc(w) }),
                ),
            )
        }),
{
    let a = fresh(id, w);
    let (a1, r) = write_step(a, data);
    assert(Seq::<u8>::empty() + data.take(min3(data.len(), w as nat, MAX_BODY_LEN as nat) as int)
        =~= data.take(min3(data.len(), w as nat, MAX_BODY_LEN as nat) as int));
    let b = StreamModel { buf: data, received: data, ..fresh(id, w) };
    assert(data.take(w as int) =~= data);
    assert(data.skip(w as int) =~= Seq::<u8>::empty());
}

/// Closing a stream at once, before any write: the one frame the stream
/// sends is an empty FIN; the other side reads end of stream with nothing
/// before it; once it closes too, both ends are gone.
pub proof fn lemma_open_close_eof(id: u32, w: u32, max: nat)
    requires
        1 <= w <= MAX_WINDOW_INCREMENT,
        max > 0,
    ensures
        ({
            let (a1, f) = close_write_step(fresh(id, w));
            &&& f == Some(data_frame(id, false, true, Seq::empty()))
            &&& receive_step(fresh(id, w), f.unwrap()).1 == Ok::<(), ErrorCode>(())
            &&& ({
                let b1 = receive_step(fresh(id, w), f.unwrap()).0;
                &&& b1.received.len() == 0
                &&& read_step(b1, max).1 == ReadModel::Eof
                &&& ({
                    let (b2, g) = close_write_step(b1);
                    &&& b2.gone()
                    &&& g == Some(data_frame(id, false, true, Seq::empty()))
                    &&& receive_step(a1, g.unwrap()).1 == Ok::<(), ErrorCode>(())
                    &&& receive_step(a1, g.unwrap()).0.gone()
                })
            })
        }),
{
    assert(Seq::<u8>::empty() + Seq::<u8>::empty() =~= Seq::<u8>::empty());
}

/// Once an RST was sent or received (or the session latched its error),
/// the stream emits nothing more: writes and reads fail with the latched
/// error, and closing or resetting again sends no frame.
pub proof fn lemma_silent_after_reset(s: StreamModel, data: Seq<u8>, max: nat, code: ErrorCode)
    requires
        s.error.is_some(),
    ensures
        write_step(s, data) == (s, WriteModel::Failed(s.error.unwrap())),
        read_step(s, max) == (s, ReadModel::Failed(s.error.unwrap())),
        close_write_step(s) == (s, None::<FrameModel>),
        reset_step(s, code) == (s, None::<FrameModel>),
{
}

/// Taking frames from the peer one after another, stopping at the first
/// that breaks the protocol.
pub open spec fn receive_seq(s: StreamModel, fs: Seq<FrameModel>) -> (StreamModel, Result<(), ErrorCode>)
    decreases fs.len(),
{
    if fs.len() == 0 {
        (s, Ok(()))
    } else {
        let (t, r) = receive_seq(s, fs.drop_last());
        if r is Err {
            (t, r)
        } else {
            receive_step(t, fs.last())
        }
    }
}

/// The payload of a run of DATA frames, in order.
pub open spec fn payload(fs: Seq<FrameModel>) -> Seq<u8>
    decreases fs.len(),
{
    if fs.len() == 0 {
        Seq::empty()
    } else {
        payload(fs.drop_last()) + match fs.last().body {
            BodyModel::Data(d) => d,
            _ => Seq::empty(),
        }
    }
}

/// A run of DATA frames where only the last may carry FIN.
pub open spec fn data_run(fs: Seq<FrameModel>) -> bool {
    &&& forall|i: int| 0 <= i < fs.len() ==> (#[trigger] fs[i]).body is Data
    &&& forall|i: int| 0 <= i < fs.len() - 1 ==> !(#[trigger] fs[i]).fin
}

/// Bytes arrive in order, whatever the framing: taking a run of DATA frames
/// (split any way, only the last with FIN) on an open stream appends
/// exactly their payload, in order, to what was received and to the
/// buffer, and closes the peer's half exactly when the last frame carries
/// FIN. Where the payload fits what is left of the window, every frame is
/// taken.
pub proof fn lemma_receive_run(s: StreamModel, fs: Seq<FrameModel>)
    requires
        s.wf(),
        !s.gone(),
        !s.remote_closed,
        data_run(fs),
    ensures
        receive_seq(s, fs).0.wf(),
        receive_seq(s, fs).1 is Ok ==> {
            &&& receive_seq(s, fs).0.received == s.received + payload(fs)
            &&& receive_seq(s, fs).0.buf == s.buf + payload(fs)
            &&& receive_seq(s, fs).0.delivered == s.delivered
            &&& receive_seq(s, fs).0.unacked == s.unacked
            &&& receive_seq(s, fs).0.window == s.window
            &&& receive_seq(s, fs).0.id == s.id
            &&& receive_seq(s, fs).0.error == s.error
            &&& receive_seq(s, fs).0.remote_closed == (fs.len() > 0 && fs.last().fin)
        },
        s.buf.len() + s.unacked + payload(fs).len() <= s.window ==> receive_seq(s, fs).1 is Ok,
    decreases fs.len(),
{
    if fs.len() > 0 {
        let pre = fs.drop_last();
        assert(data_run(pre)) by {
            assert forall|i: int| 0 <= i < pre.len() implies (#[trigger] pre[i]).body is Data by {
                assert(pre[i] == fs[i]);
            }
            assert forall|i: int| 0 <= i < pre.len() - 1 implies !(#[trigger] pre[i]).fin by {
                assert(pre[i] == fs[i]);
            }
        }
        lemma_receive_run(s, pre);
        let (t, r) = receive_seq(s, pre);
        let f = fs.last();
        assert(f == fs[fs.len() - 1]);
        assert(f.body is Data);
        if r is Ok {
            if pre.len() > 0 {
                assert(pre.last() == fs[fs.len() - 2]);
            }
            assert(!t.remote_closed);
            assert(!t.gone());
            lemma_steps_keep_wf(t, Seq::empty(), 0, f, ErrorCode::NoError);
            if let BodyModel::Data(d) = f.body {
                assert(payload(fs).len() == payload(pre).len() + d.len());
                assert(t.buf + d == s.buf + payload(fs)) by {
                    assert(s.buf + payload(pre) + d =~= s.buf + (payload(pre) + d));
                }
                assert(t.received + d == s.received + payload(fs)) by {
                    assert(s.received + payload(pre) + d =~= s.received + (payload(pre) + d));
                }
            }
        }
    }
}

/// A whole window's worth sent in any number of DATA frames to a fresh
/// stream is all taken; the buffer holds exactly the bytes sent; draining
/// them hands them out in order with a grant of the whole window.
pub proof fn lemma_full_window_split(id: u32, w: u32, fs: Seq<FrameModel>)
    requires
        1 <= w <= MAX_WINDOW_INCREMENT,
        data_run(fs),
        payload(fs).len() == w,
    ensures
        receive_seq(fresh(id, w), fs).1 is Ok,
        receive_seq(fresh(id, w), fs).0.buf == payload(fs),
        read_step(receive_seq(fresh(id, w), fs).0, w as nat).1 == ReadModel::Data(
            payload(fs),
            Some(FrameModel { stream_id: id, syn: false, fin: false, body: BodyModel::WndInc(w) }),
        ),
{
    let s = fresh(id, w);
    assert(s.buf =~= s.received.skip(0));
    lemma_receive_run(s, fs);
    let t = receive_seq(s, fs).0;
    assert(Seq::<u8>::empty() + payload(fs) =~= payload(fs));
    assert(t.buf.take(w as int) =~= t.buf);
}

/// Draining a stream: a read that takes the whole buffer hands out the
/// buffered bytes, in order; the next read gives end of stream exactly when
/// the peer closed its half, and otherwise waits.
pub proof fn lemma_drain(s: StreamModel, max: nat, next: nat)
    requires
        s.wf(),
        s.error.is_none(),
        s.buf.len() > 0,
        max >= s.buf.len(),
        next > 0,
    ensures
        read_step(s, max).1 is Data && read_step(s, max).1->Data_0 == s.buf,
        read_step(read_step(s, max).0, next).1 == (if s.remote_closed {
            ReadModel::Eof
        } else {
            ReadModel::Blocked
        }),
{
    assert(s.buf.take(s.buf.len() as int) =~= s.buf);
    assert(s.buf.skip(s.buf.len() as int) =~= Seq::<u8>::empty());
}

} // verus!

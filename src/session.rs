use vstd::prelude::*;

use crate::error::{code_of, error_of, ErrorCode};
use crate::frame::{Body, BodyModel, Frame, FrameModel, MAX_WINDOW_INCREMENT};
use crate::manager::{
    create_remote_spec, deliver_spec, rst_frame, Delivery, DeliveryModel, ManagerModel,
    StreamManager,
};
use crate::stream::{fresh, latch_step};

verus! {

/// The default stream window: 256 KiB.
pub const DEFAULT_WINDOW: usize = 0x40000;

/// The default depth of the accept queue.
pub const DEFAULT_ACCEPT: usize = 64;

/// The default stream limit.
pub const DEFAULT_STREAMS: usize = 512;

/// Options of a session, set before it starts.
#[derive(Clone, Copy, Debug, PartialEq, Eq, Structural)]
pub struct SessionBuilder {
    pub window: usize,
    pub accept_queue_size: usize,
    pub stream_limit: usize,
    pub client: bool,
}

impl SessionBuilder {
    /// The defaults: a 256 KiB window, an accept queue of 64, a limit of 512
    /// streams, the client role.
    pub fn new() -> (r: SessionBuilder)
        ensures
            r == (SessionBuilder {
                window: DEFAULT_WINDOW,
                accept_queue_size: DEFAULT_ACCEPT,
                stream_limit: DEFAULT_STREAMS,
                client: true,
            }),
    {
        SessionBuilder {
            window: DEFAULT_WINDOW,
            accept_queue_size: DEFAULT_ACCEPT,
            stream_limit: DEFAULT_STREAMS,
            client: true,
        }
    }

    /// Sets the stream window size.
    pub fn window_size(self, size: usize) -> (r: SessionBuilder)
        ensures
            r == (SessionBuilder { window: size, ..self }),
    {
        SessionBuilder { window: size, ..self }
    }

    /// Sets the depth of the queue of streams the peer opened and nobody
    /// accepted yet.
    pub fn accept_queue_size(self, size: usize) -> (r: SessionBuilder)
        ensures
            r == (SessionBuilder { accept_queue_size: size, ..self }),
    {
        SessionBuilder { accept_queue_size: size, ..self }
    }

    /// Sets the most streams alive at once.
    pub fn stream_limit(self, count: usize) -> (r: SessionBuilder)
        ensures
            r == (SessionBuilder { stream_limit: count, ..self }),
    {
        SessionBuilder { stream_limit: count, ..self }
    }

    /// This side allocates odd stream IDs.
    pub fn client(self) -> (r: SessionBuilder)
        ensures
            r == (SessionBuilder { client: true, ..self }),
    {
        SessionBuilder { client: true, ..self }
    }

    /// This side allocates even stream IDs.
    pub fn server(self) -> (r: SessionBuilder)
        ensures
            r == (SessionBuilder { client: false, ..self }),
    {
        SessionBuilder { client: false, ..self }
    }

    /// The session state these options start with, or `None` where the
    /// window is zero or larger than a window increment can express.
    pub fn initial_state(&self) -> (r: Option<SessionCore>)
        ensures
            match r {
                Some(c) => {
                    &&& 1 <= self.window <= MAX_WINDOW_INCREMENT
                    &&& c.wf()
                    &&& c.manager@.streams.len() == 0
                    &&& c.manager@.window == self.window
                    &&& c.manager@.limit == self.stream_limit
                    &&& c.manager@.client == self.client
                    &&& c.manager@.session_error.is_none()
                    &&& c.manager@.next_local == (if self.client { 1nat } else { 2nat })
                    &&& c.manager@.last_remote == 0
                    &&& c.manager@.opened.len() == 0
                    &&& c.last_processed == 0
                },
                None => !(1 <= self.window <= MAX_WINDOW_INCREMENT),
            },
    {
        if self.window < 1 || self.window > MAX_WINDOW_INCREMENT as usize {
            return None;
        }
        Some(SessionCore::new(self.window as u32, self.stream_limit, self.client))
    }
}

/// The message of a GOAWAY this side sends for a frame it cannot take.
pub open spec fn invalid_frame_message() -> Seq<u8> {
    seq![105u8, 110, 118, 97, 108, 105, 100, 32, 102, 114, 97, 109, 101]
}

/// The bytes of "invalid frame".
pub fn invalid_frame_bytes() -> (r: Vec<u8>)
    ensures
        r@ == invalid_frame_message(),
{
    let r: Vec<u8> = vec![105u8, 110, 118, 97, 108, 105, 100, 32, 102, 114, 97, 109, 101];
    assert(r@ =~= invalid_frame_message());
    r
}

/// The frame that opens a stream: empty DATA with SYN.
pub open spec fn syn_frame(id: u32) -> FrameModel {
    FrameModel { stream_id: id, syn: true, fin: false, body: BodyModel::Data(Seq::empty()) }
}

pub open spec fn goaway_frame(last: u32, e: ErrorCode, msg: Seq<u8>) -> FrameModel {
    FrameModel { stream_id: last, syn: false, fin: false, body: BodyModel::GoAway(code_of(e), msg) }
}

/// What the reader does with one frame from the peer.
#[derive(Debug)]
pub struct ReaderStep {
    /// Frames for the writer to send ahead of stream data.
    pub send: Vec<Frame>,
    /// A stream the peer opened, for the accept queue.
    pub accepted: Option<u32>,
    /// The reader stops: the session is going away.
    pub done: bool,
}

pub open spec fn frames_view(v: Seq<Frame>) -> Seq<FrameModel> {
    v.map_values(|f: Frame| f@)
}

/// The frames to send back after routing a frame.
pub open spec fn answer(d: DeliveryModel) -> Seq<FrameModel> {
    match d {
        DeliveryModel::Rejected(r) => seq![r],
        _ => Seq::empty(),
    }
}

/// The registry after the session went away with `e`.
pub open spec fn gone_away(m: ManagerModel, e: ErrorCode, m2: ManagerModel) -> bool {
    &&& m2.wf()
    &&& m2.session_error == (if m.session_error.is_some() {
        m.session_error
    } else {
        Some(e)
    })
    &&& m2.streams.len() == m.streams.len()
    &&& forall|i: int|
        0 <= i < m.streams.len() ==> #[trigger] m2.streams[i] == latch_step(
            m.streams[i],
            ErrorCode::SessionClosed,
        )
    &&& m2.live() == 0
}

/// The state behind a session's reader and writer: the stream registry and
/// the last stream a frame was delivered to.
pub struct SessionCore {
    pub manager: StreamManager,
    pub last_processed: u32,
}

impl SessionCore {
    pub open spec fn wf(&self) -> bool {
        self.manager@.wf()
    }

    /// Whether the session went away.
    pub open spec fn closed(&self) -> bool {
        self.manager@.session_error.is_some()
    }

    pub fn new(window: u32, limit: usize, client: bool) -> (r: SessionCore)
        requires
            1 <= window <= MAX_WINDOW_INCREMENT,
        ensures
            r.wf(),
            r.manager@.streams.len() == 0,
            r.manager@.window == window,
            r.manager@.limit == limit,
            r.manager@.client == client,
            r.manager@.session_error.is_none(),
            r.manager@.next_local == (if client { 1nat } else { 2nat }),
            r.manager@.last_remote == 0,
            r.manager@.opened.len() == 0,
            r.last_processed == 0,
    {
        SessionCore { manager: StreamManager::new(window, limit, client), last_processed: 0 }
    }

    /// Whether the session went away.
    pub fn is_closed(&self) -> (r: bool)
        ensures
            r == self.closed(),
    {
        self.manager.session_error().is_some()
    }

    fn route(&mut self, f: &Frame, send: &mut Vec<Frame>)
        requires
            old(self).wf(),
        ensures
            final(self).wf(),
            final(self).manager@ == deliver_spec(old(self).manager@, f@).0,
            frames_view(final(send)@) == frames_view(old(send)@) + answer(
                deliver_spec(old(self).manager@, f@).1,
            ),
            final(self).last_processed == (if deliver_spec(old(self).manager@, f@).1 is Delivered {
                f.stream_id
            } else {
                old(self).last_processed
            }),
    {
        let ghost before = send@;
        match self.manager.deliver(f) {
            Delivery::Delivered => {
                self.last_processed = f.stream_id;
                assert(frames_view(send@) =~= frames_view(before) + answer(DeliveryModel::Delivered));
            },
            Delivery::Rejected(r) => {
                let ghost rv = r@;
                send.push(r);
                assert(frames_view(send@) =~= frames_view(before) + answer(DeliveryModel::Rejected(rv)));
            },
        }
    }

    /// Takes one frame from the peer.
    ///
    /// A SYN opens a stream (refused with an RST at the stream limit; an ID
    /// out of order or of this side's class tears the session down); DATA,
    /// WND_INC and RST go to their stream, and a frame for a stream that is
    /// missing or gone is answered with an RST and creates nothing; a GOAWAY
    /// ends the session. Once the session went away nothing changes.
    pub fn handle_frame(&mut self, f: &Frame) -> (r: ReaderStep)
        requires
            old(self).wf(),
        ensures
            final(self).wf(),
            old(self).closed() ==> final(self).manager@ == old(self).manager@ && r.send@.len() == 0
                && r.accepted.is_none() && r.done && final(self).last_processed == old(self).last_processed,
            !old(self).closed() && f.body is GoAway ==> gone_away(
                old(self).manager@,
                error_of(f.body->GoAway_0),
                final(self).manager@,
            ) && r.send@.len() == 0 && r.accepted.is_none() && r.done && final(self).last_processed
                == old(self).last_processed,
            !old(self).closed() && !(f.body is GoAway) && f.syn ==> {
                let (m1, c) = create_remote_spec(old(self).manager@, f.stream_id);
                match c {
                    Ok(()) => {
                        &&& r.accepted == Some(f.stream_id)
                        &&& !r.done
                        &&& final(self).manager@ == deliver_spec(m1, f@).0
                        &&& frames_view(r.send@) == answer(deliver_spec(m1, f@).1)
                        &&& final(self).last_processed == (if deliver_spec(m1, f@).1 is Delivered {
                            f.stream_id
                        } else {
                            old(self).last_processed
                        })
                    },
                    Err(ErrorCode::StreamRefused) => {
                        &&& final(self).manager@ == m1
                        &&& frames_view(r.send@) == seq![rst_frame(f.stream_id, ErrorCode::StreamRefused)]
                        &&& final(self).last_processed == old(self).last_processed
                        &&& r.accepted.is_none()
                        &&& !r.done
                    },
                    Err(_) => {
                        &&& gone_away(old(self).manager@, ErrorCode::Protocol, final(self).manager@)
                        &&& frames_view(r.send@) == seq![
                            goaway_frame(old(self).last_processed, ErrorCode::Protocol, invalid_frame_message()),
                        ]
                        &&& final(self).last_processed == old(self).last_processed
                        &&& r.accepted.is_none()
                        &&& r.done
                    },
                }
            },
            !old(self).closed() && !(f.body is GoAway) && !f.syn ==> {
                &&& final(self).manager@ == deliver_spec(old(self).manager@, f@).0
                &&& frames_view(r.send@) == answer(deliver_spec(old(self).manager@, f@).1)
                &&& final(self).last_processed == (if deliver_spec(old(self).manager@, f@).1 is Delivered {
                    f.stream_id
                } else {
                    old(self).last_processed
                })
                &&& r.accepted.is_none()
                &&& !r.done
            },
    {
        let mut send: Vec<Frame> = Vec::new();
        if self.is_closed() {
            return ReaderStep { send, accepted: None, done: true };
        }
        if let Body::GoAway(c, _) = &f.body {
            self.manager.go_away(ErrorCode::from_code(*c));
            return ReaderStep { send, accepted: None, done: true };
        }
        let mut accepted: Option<u32> = None;
        if f.syn {
            match self.manager.create_remote(f.stream_id) {
                Ok(()) => {
                    accepted = Some(f.stream_id);
                },
                Err(ErrorCode::StreamRefused) => {
                    send.push(
                        Frame {
                            stream_id: f.stream_id,
                            syn: false,
                            fin: false,
                            body: Body::Rst(ErrorCode::StreamRefused.code()),
                        },
                    );
                    assert(frames_view(send@) =~= seq![rst_frame(f.stream_id, ErrorCode::StreamRefused)]);
                    return ReaderStep { send, accepted: None, done: false };
                },
                Err(_) => {
                    let g = self.go_away(ErrorCode::Protocol, invalid_frame_bytes());
                    send.push(g);
                    assert(frames_view(send@) =~= seq![
                        goaway_frame(self.last_processed, ErrorCode::Protocol, invalid_frame_message()),
                    ]);
                    return ReaderStep { send, accepted: None, done: true };
                },
            }
        }
        assert(frames_view(send@) =~= Seq::<FrameModel>::empty());
        self.route(f, &mut send);
        assert(frames_view(send@) =~= Seq::<FrameModel>::empty() + frames_view(send@));
        ReaderStep { send, accepted, done: false }
    }

    /// The bytes from the peer do not decode to a frame: this side sends
    /// GOAWAY(PROTOCOL_ERROR, "invalid frame") naming the last stream it
    /// processed and the session goes away.
    pub fn handle_malformed(&mut self) -> (r: ReaderStep)
        requires
            old(self).wf(),
        ensures
            final(self).wf(),
            gone_away(old(self).manager@, ErrorCode::Protocol, final(self).manager@),
            final(self).last_processed == old(self).last_processed,
            old(self).closed() ==> r.send@.len() == 0,
            !old(self).closed() ==> frames_view(r.send@) == seq![
                goaway_frame(old(self).last_processed, ErrorCode::Protocol, invalid_frame_message()),
            ],
            r.accepted.is_none(),
            r.done,
    {
        let mut send: Vec<Frame> = Vec::new();
        if !self.is_closed() {
            let g = self.go_away(ErrorCode::Protocol, invalid_frame_bytes());
            send.push(g);
            assert(frames_view(send@) =~= seq![
                goaway_frame(self.last_processed, ErrorCode::Protocol, invalid_frame_message()),
            ]);
        } else {
            self.manager.go_away(ErrorCode::Protocol);
        }
        ReaderStep { send, accepted: None, done: true }
    }

    /// The transport ended or failed: the session goes away with
    /// SESSION_CLOSED.
    pub fn handle_eof(&mut self)
        requires
            old(self).wf(),
        ensures
            final(self).wf(),
            gone_away(old(self).manager@, ErrorCode::SessionClosed, final(self).manager@),
            final(self).last_processed == old(self).last_processed,
    {
        self.manager.go_away(ErrorCode::SessionClosed);
    }

    /// This side ends the session with `e` and a message: the GOAWAY frame
    /// to send names the last stream processed, and every stream is latched.
    pub fn go_away(&mut self, e: ErrorCode, msg: Vec<u8>) -> (r: Frame)
        requires
            old(self).wf(),
        ensures
            final(self).wf(),
            gone_away(old(self).manager@, e, final(self).manager@),
            final(self).last_processed == old(self).last_processed,
            r@ == goaway_frame(old(self).last_processed, e, msg@),
    {
        self.manager.go_away(e);
        Frame { stream_id: self.last_processed, syn: false, fin: false, body: Body::GoAway(e.code(), msg) }
    }

    /// Opens a stream from this side (the writer's part of `open`): the ID
    /// with the empty SYN frame to send at once, so that SYNs go out in the
    /// order the IDs were allocated; or SESSION_CLOSED once the session went
    /// away, or STREAMS_EXHAUSTED at the limit.
    pub fn open(&mut self) -> (r: Result<(u32, Frame), ErrorCode>)
        requires
            old(self).wf(),
        ensures
            final(self).wf(),
            final(self).last_processed == old(self).last_processed,
            old(self).closed() ==> r is Err && r->Err_0 == ErrorCode::SessionClosed,
            !old(self).closed() && old(self).manager@.live() >= old(self).manager@.limit ==> r is Err
                && r->Err_0 == ErrorCode::StreamsExhausted,
            !old(self).closed() && old(self).manager@.next_local > u32::MAX ==> r is Err && r->Err_0
                == ErrorCode::StreamsExhausted,
            !old(self).closed() && old(self).manager@.live() < old(self).manager@.limit
                && old(self).manager@.next_local <= u32::MAX ==> r is Ok,
            r is Ok ==> r->Ok_0.0 == old(self).manager@.next_local && r->Ok_0.1@ == syn_frame(r->Ok_0.0)
                && final(self).manager@ == (ManagerModel {
                streams: old(self).manager@.streams.push(fresh(r->Ok_0.0, old(self).manager@.window)),
                next_local: old(self).manager@.next_local + 2,
                opened: old(self).manager@.opened.push(r->Ok_0.0),
                ..old(self).manager@
            }),
            r is Err ==> final(self).manager@ == old(self).manager@,
    {
        let id = self.manager.create_local()?;
        let f = Frame { stream_id: id, syn: true, fin: false, body: Body::Data(Vec::new()) };
        assert(f@.body == BodyModel::Data(Seq::<u8>::empty()));
        Ok((id, f))
    }
}

} // verus!

use vstd::prelude::*;

use crate::error::ErrorCode;
use crate::frame::{Body, BodyModel, Frame, FrameModel, MAX_WINDOW_INCREMENT};
use crate::stream::{
    data_run, lemma_receive_run, payload, receive_seq, ReadModel, close_write_step, fresh, read_step, read_view, receive_step, reset_step, write_step, write_view,
    opt_frame_view, latch_step, ReadOutcome, StreamModel, StreamState, WriteOutcome,
};

verus! {

/// Whether an ID belongs to the class that this endpoint allocates from:
/// odd for a client, even for a server.
pub open spec fn own_parity(client: bool, id: nat) -> bool {
    if client {
        id % 2 == 1
    } else {
        id % 2 == 0
    }
}

/// Streams that are not gone.
pub open spec fn count_live(s: Seq<StreamModel>) -> nat
    decreases s.len(),
{
    if s.len() == 0 {
        0
    } else {
        count_live(s.drop_last()) + if s.last().gone() {
            0nat
        } else {
            1nat
        }
    }
}

pub open spec fn live_bit(s: StreamModel) -> nat {
    if s.gone() {
        0
    } else {
        1
    }
}

/// The position of the stream with the given ID, if the table holds one.
pub open spec fn index_of(s: Seq<StreamModel>, id: u32) -> Option<int> {
    if exists|i: int| 0 <= i < s.len() && s[i].id == id {
        Some(choose|i: int| 0 <= i < s.len() && s[i].id == id)
    } else {
        None
    }
}

/// The abstract state of the stream registry.
pub struct ManagerModel {
    pub streams: Seq<StreamModel>,
    pub limit: nat,
    pub client: bool,
    pub window: u32,
    /// The next ID this side allocates.
    pub next_local: nat,
    /// The highest ID the peer has opened (0 before the first).
    pub last_remote: nat,
    /// Latched once the session is going away.
    pub session_error: Option<ErrorCode>,
    /// Every ID this side allocated, in order.
    pub opened: Seq<u32>,
}

impl ManagerModel {
    pub open spec fn wf(self) -> bool {
        &&& 1 <= self.window <= MAX_WINDOW_INCREMENT
        &&& count_live(self.streams) <= self.limit
        &&& forall|i: int| 0 <= i < self.streams.len() ==> (#[trigger] self.streams[i]).wf()
        &&& forall|i: int, j: int|
            0 <= i < self.streams.len() && 0 <= j < self.streams.len() && i != j
                ==> (#[trigger] self.streams[i]).id != (#[trigger] self.streams[j]).id
        &&& forall|i: int|
            0 <= i < self.streams.len() ==> {
                let id = (#[trigger] self.streams[i]).id as nat;
                if own_parity(self.client, id) {
                    id < self.next_local
                } else {
                    id <= self.last_remote
                }
            }
        &&& own_parity(self.client, self.next_local)
        &&& 1 <= self.next_local <= u32::MAX as nat + 2
        &&& !own_parity(self.client, self.last_remote) || self.last_remote == 0
        &&& self.last_remote <= u32::MAX
        &&& forall|i: int|
            0 <= i < self.opened.len() ==> own_parity(self.client, #[trigger] self.opened[i] as nat)
                && self.opened[i] < self.next_local
        &&& forall|i: int, j: int|
            0 <= i < j < self.opened.len() ==> #[trigger] self.opened[i] < #[trigger] self.opened[j]
        &&& self.session_error.is_some() ==> count_live(self.streams) == 0
    }

    pub open spec fn live(self) -> nat {
        count_live(self.streams)
    }
}

proof fn lemma_count_push(s: Seq<StreamModel>, x: StreamModel)
    ensures
        count_live(s.push(x)) == count_live(s) + live_bit(x),
{
    assert(s.push(x).drop_last() =~= s);
}

proof fn lemma_count_update(s: Seq<StreamModel>, i: int, x: StreamModel)
    requires
        0 <= i < s.len(),
    ensures
        count_live(s.update(i, x)) + live_bit(s[i]) == count_live(s) + live_bit(x),
    decreases s.len(),
{
    if i == s.len() - 1 {
        assert(s.update(i, x).drop_last() =~= s.drop_last());
    } else {
        lemma_count_update(s.drop_last(), i, x);
        assert(s.update(i, x).drop_last() =~= s.drop_last().update(i, x));
    }
}

proof fn lemma_count_remove(s: Seq<StreamModel>, i: int)
    requires
        0 <= i < s.len(),
    ensures
        count_live(s.remove(i)) + live_bit(s[i]) == count_live(s),
    decreases s.len(),
{
    if i == s.len() - 1 {
        assert(s.remove(i) =~= s.drop_last());
    } else {
        lemma_count_remove(s.drop_last(), i);
        assert(s.remove(i).drop_last() =~= s.drop_last().remove(i));
    }
}

proof fn lemma_count_all_gone(s: Seq<StreamModel>)
    requires
        forall|i: int| 0 <= i < s.len() ==> (#[trigger] s[i]).gone(),
    ensures
        count_live(s) == 0,
    decreases s.len(),
{
    if s.len() > 0 {
        lemma_count_all_gone(s.drop_last());
    }
}

proof fn lemma_count_le_len(s: Seq<StreamModel>)
    ensures
        count_live(s) <= s.len(),
    decreases s.len(),
{
    if s.len() > 0 {
        lemma_count_le_len(s.drop_last());
    }
}

proof fn lemma_index_of(s: Seq<StreamModel>, i: int)
    requires
        0 <= i < s.len(),
        forall|a: int, b: int|
            0 <= a < s.len() && 0 <= b < s.len() && a != b ==> (#[trigger] s[a]).id != (#[trigger] s[b]).id,
    ensures
        index_of(s, s[i].id) == Some(i),
{
    assert(exists|j: int| 0 <= j < s.len() && s[j].id == s[i].id);
}

/// How the registry took a frame from the peer.
#[derive(Debug)]
pub enum Delivery {
    /// The stream took the frame.
    Delivered,
    /// The frame could not be taken: send this RST back.
    Rejected(Frame),
}

pub enum DeliveryModel {
    Delivered,
    Rejected(FrameModel),
}

pub open spec fn delivery_view(d: Delivery) -> DeliveryModel {
    match d {
        Delivery::Delivered => DeliveryModel::Delivered,
        Delivery::Rejected(f) => DeliveryModel::Rejected(f@),
    }
}

pub open spec fn rst_frame(id: u32, e: ErrorCode) -> FrameModel {
    FrameModel { stream_id: id, syn: false, fin: false, body: BodyModel::Rst(crate::error::code_of(e)) }
}

/// The answer to a frame for a stream that is missing or gone: an RST with
/// STREAM_CLOSED, whatever the frame was (an RST included).
pub open spec fn refusal(f: FrameModel) -> DeliveryModel {
    DeliveryModel::Rejected(rst_frame(f.stream_id, ErrorCode::StreamClosed))
}

/// The error a stream operation gets for an ID the table does not hold.
pub open spec fn missing_error(m: ManagerModel) -> ErrorCode {
    if m.session_error.is_some() {
        ErrorCode::SessionClosed
    } else {
        ErrorCode::StreamClosed
    }
}

/// Routing a frame from the peer: the new registry and the answer.
pub open spec fn deliver_spec(m: ManagerModel, f: FrameModel) -> (ManagerModel, DeliveryModel) {
    match index_of(m.streams, f.stream_id) {
        None => (m, refusal(f)),
        Some(i) => if m.streams[i].gone() {
            (m, refusal(f))
        } else {
            match receive_step(m.streams[i], f) {
                (s1, Ok(())) => (with_stream(m, i, s1), DeliveryModel::Delivered),
                (_, Err(e)) => (
                    with_stream(m, i, reset_step(m.streams[i], e).0),
                    DeliveryModel::Rejected(rst_frame(f.stream_id, e)),
                ),
            }
        },
    }
}

/// Registering a stream the peer opened.
pub open spec fn create_remote_spec(m: ManagerModel, id: u32) -> (ManagerModel, Result<(), ErrorCode>) {
    if m.session_error.is_some() {
        (m, Err(ErrorCode::SessionClosed))
    } else if own_parity(m.client, id as nat) || id <= m.last_remote {
        (m, Err(ErrorCode::Protocol))
    } else if m.live() >= m.limit {
        (ManagerModel { last_remote: id as nat, ..m }, Err(ErrorCode::StreamRefused))
    } else {
        (
            ManagerModel {
                streams: m.streams.push(fresh(id, m.window)),
                last_remote: id as nat,
                ..m
            },
            Ok(()),
        )
    }
}

/// The registry of a session's streams: ID allocation, the stream limit,
/// routing of the peer's frames and the session error.
pub struct StreamManager {
    streams: Vec<StreamState>,
    limit: usize,
    client: bool,
    window: u32,
    next_local: u64,
    last_remote: u32,
    session_error: Option<ErrorCode>,
    opened: Ghost<Seq<u32>>,
}

impl View for StreamManager {
    type V = ManagerModel;

    closed spec fn view(&self) -> ManagerModel {
        ManagerModel {
            streams: self.streams@.map_values(|s: StreamState| s@),
            limit: self.limit as nat,
            client: self.client,
            window: self.window,
            next_local: self.next_local as nat,
            last_remote: self.last_remote as nat,
            session_error: self.session_error,
            opened: self.opened@,
        }
    }
}

/// A stream step keeps the stream's invariant, ID and window, and never
/// brings a gone stream back.
pub open spec fn evolves(s: StreamModel, x: StreamModel) -> bool {
    &&& x.wf()
    &&& x.id == s.id
    &&& x.window == s.window
    &&& s.gone() ==> x.gone()
}

proof fn lemma_steps_evolve(s: StreamModel, data: Seq<u8>, max: nat, f: FrameModel, e: ErrorCode)
    requires
        s.wf(),
    ensures
        evolves(s, write_step(s, data).0),
        evolves(s, close_write_step(s).0),
        evolves(s, reset_step(s, e).0),
        evolves(s, latch_step(s, e)),
        evolves(s, read_step(s, max).0),
        evolves(s, receive_step(s, f).0),
{
    crate::stream::lemma_steps_keep_wf(s, data, max, f, e);
}

/// The registry with the stream at `i` replaced.
pub open spec fn with_stream(m: ManagerModel, i: int, x: StreamModel) -> ManagerModel {
    ManagerModel { streams: m.streams.update(i, x), ..m }
}

proof fn lemma_with_stream_wf(m: ManagerModel, i: int, x: StreamModel)
    requires
        m.wf(),
        0 <= i < m.streams.len(),
        evolves(m.streams[i], x),
    ensures
        with_stream(m, i, x).wf(),
        with_stream(m, i, x).live() <= m.live(),
{
    lemma_count_update(m.streams, i, x);
    let n = with_stream(m, i, x);
    assert forall|a: int| 0 <= a < n.streams.len() implies (#[trigger] n.streams[a]).id == m.streams[a].id by {}
}

impl StreamManager {
    /// An empty registry. A client allocates odd IDs from 1, a server even
    /// IDs from 2.
    pub fn new(window: u32, limit: usize, client: bool) -> (r: StreamManager)
        requires
            1 <= window <= MAX_WINDOW_INCREMENT,
        ensures
            r@.wf(),
            r@.streams.len() == 0,
            r@.limit == limit,
            r@.client == client,
            r@.window == window,
            r@.next_local == (if client { 1nat } else { 2nat }),
            r@.last_remote == 0,
            r@.session_error.is_none(),
            r@.opened.len() == 0,
    {
        let r = StreamManager {
            streams: Vec::new(),
            limit,
            client,
            window,
            next_local: if client { 1 } else { 2 },
            last_remote: 0,
            session_error: None,
            opened: Ghost(Seq::empty()),
        };
        assert(r@.streams =~= Seq::<StreamModel>::empty());
        r
    }

    /// How many streams are not gone.
    pub fn live_count(&self) -> (r: usize)
        requires
            self@.wf(),
        ensures
            r == self@.live(),
    {
        let ghost all = self@.streams;
        let mut c: usize = 0;
        let mut i: usize = 0;
        proof {
            lemma_count_le_len(all);
        }
        while i < self.streams.len()
            invariant
                all == self@.streams,
                i <= all.len(),
                all.len() == self.streams@.len(),
                c == count_live(all.take(i as int)),
                c <= i,
            decreases all.len() - i,
        {
            proof {
                assert(all.take(i + 1).drop_last() =~= all.take(i as int));
                lemma_count_le_len(all.take(i + 1));
            }
            if !self.streams[i].is_gone() {
                c = c + 1;
            }
            i = i + 1;
        }
        assert(all.take(i as int) =~= all);
        c
    }

    /// The error latched when the session went away, if it did.
    pub fn session_error(&self) -> (r: Option<ErrorCode>)
        ensures
            r == self@.session_error,
    {
        self.session_error
    }

    fn find(&self, id: u32) -> (r: Option<usize>)
        requires
            self@.wf(),
        ensures
            match r {
                Some(i) => i < self@.streams.len() && index_of(self@.streams, id) == Some(i as int),
                None => index_of(self@.streams, id).is_none(),
            },
    {
        let mut i: usize = 0;
        while i < self.streams.len()
            invariant
                self@.wf(),
                i <= self@.streams.len(),
                self.streams@.len() == self@.streams.len(),
                forall|j: int| 0 <= j < i ==> self@.streams[j].id != id,
            decreases self.streams@.len() - i,
        {
            if self.streams[i].id() == id {
                proof {
                    lemma_index_of(self@.streams, i as int);
                }
                return Some(i);
            }
            i = i + 1;
        }
        None
    }

    /// Opens a stream from this side, returning its ID. Fails with
    /// SESSION_CLOSED once the session went away, and with STREAMS_EXHAUSTED
    /// at the stream limit or when the ID space is used up.
    pub fn create_local(&mut self) -> (r: Result<u32, ErrorCode>)
        requires
            old(self)@.wf(),
        ensures
            final(self)@.wf(),
            old(self)@.session_error.is_some() ==> r == Err::<u32, ErrorCode>(ErrorCode::SessionClosed),
            old(self)@.session_error.is_none() && old(self)@.live() >= old(self)@.limit ==> r == Err::<
                u32,
                ErrorCode,
            >(ErrorCode::StreamsExhausted),
            old(self)@.session_error.is_none() && old(self)@.next_local > u32::MAX ==> r == Err::<
                u32,
                ErrorCode,
            >(ErrorCode::StreamsExhausted),
            old(self)@.session_error.is_none() && old(self)@.live() < old(self)@.limit
                && old(self)@.next_local <= u32::MAX ==> r is Ok,
            match r {
                Ok(id) => {
                    &&& old(self)@.session_error.is_none()
                    &&& old(self)@.live() < old(self)@.limit
                    &&& id == old(self)@.next_local
                    &&& final(self)@ == ManagerModel {
                        streams: old(self)@.streams.push(fresh(id, old(self)@.window)),
                        next_local: old(self)@.next_local + 2,
                        opened: old(self)@.opened.push(id),
                        ..old(self)@
                    }
                },
                Err(_) => final(self)@ == old(self)@,
            },
    {
        if self.session_error.is_some() {
            return Err(ErrorCode::SessionClosed);
        }
        if self.live_count() >= self.limit || self.next_local > u32::MAX as u64 {
            return Err(ErrorCode::StreamsExhausted);
        }
        let id = self.next_local as u32;
        let st = StreamState::new(id, self.window);
        let ghost old_m = self@;
        self.streams.push(st);
        self.next_local = self.next_local + 2;
        self.opened = Ghost(self.opened@.push(id));
        proof {
            lemma_count_push(old_m.streams, fresh(id, old_m.window));
            assert(self@.streams =~= old_m.streams.push(fresh(id, old_m.window)));
        }
        Ok(id)
    }

    /// Registers a stream the peer opened with a SYN. An ID of this side's
    /// class, or not above every ID the peer opened before, breaks the
    /// protocol; at the stream limit the stream is refused (the ID still
    /// counts as seen).
    pub fn create_remote(&mut self, id: u32) -> (r: Result<(), ErrorCode>)
        requires
            old(self)@.wf(),
        ensures
            final(self)@.wf(),
            (final(self)@, r) == create_remote_spec(old(self)@, id),
    {
        if self.session_error.is_some() {
            return Err(ErrorCode::SessionClosed);
        }
        let own = if self.client {
            id % 2 == 1
        } else {
            id % 2 == 0
        };
        if own || id <= self.last_remote {
            return Err(ErrorCode::Protocol);
        }
        let ghost old_m = self@;
        self.last_remote = id;
        if self.live_count() >= self.limit {
            return Err(ErrorCode::StreamRefused);
        }
        let st = StreamState::new(id, self.window);
        self.streams.push(st);
        proof {
            lemma_count_push(old_m.streams, fresh(id, old_m.window));
            assert(self@.streams =~= old_m.streams.push(fresh(id, old_m.window)));
        }
        Ok(())
    }

    /// Writes on the stream `id` (see `StreamState::write`). An ID the table
    /// does not hold fails with STREAM_CLOSED, or SESSION_CLOSED once the
    /// session went away.
    pub fn write(&mut self, id: u32, data: &[u8]) -> (r: Result<WriteOutcome, ErrorCode>)
        requires
            old(self)@.wf(),
        ensures
            final(self)@.wf(),
            match index_of(old(self)@.streams, id) {
                None => final(self)@ == old(self)@ && write_view(r) == crate::stream::WriteModel::Failed(
                    missing_error(old(self)@),
                ),
                Some(i) => final(self)@ == with_stream(
                    old(self)@,
                    i,
                    write_step(old(self)@.streams[i], data@).0,
                ) && write_view(r) == write_step(old(self)@.streams[i], data@).1,
            },
    {
        match self.find(id) {
            None => {
                if self.session_error.is_some() {
                    Err(ErrorCode::SessionClosed)
                } else {
                    Err(ErrorCode::StreamClosed)
                }
            },
            Some(i) => {
                let ghost old_m = self@;
                proof {
                    lemma_steps_evolve(old_m.streams[i as int], data@, 0, rst_frame(0, ErrorCode::NoError), ErrorCode::NoError);
                    lemma_with_stream_wf(old_m, i as int, write_step(old_m.streams[i as int], data@).0);
                }
                let r = self.streams[i].write(data);
                assert(self@.streams =~= old_m.streams.update(i as int, write_step(old_m.streams[i as int], data@).0));
                r
            },
        }
    }

    /// Reads from the stream `id` (see `StreamState::read`). An ID the table
    /// does not hold fails as for `write`.
    pub fn read(&mut self, id: u32, max: usize) -> (r: Result<ReadOutcome, ErrorCode>)
        requires
            old(self)@.wf(),
        ensures
            final(self)@.wf(),
            match index_of(old(self)@.streams, id) {
                None => final(self)@ == old(self)@ && read_view(r) == crate::stream::ReadModel::Failed(
                    missing_error(old(self)@),
                ),
                Some(i) => final(self)@ == with_stream(
                    old(self)@,
                    i,
                    read_step(old(self)@.streams[i], max as nat).0,
                ) && read_view(r) == read_step(old(self)@.streams[i], max as nat).1,
            },
    {
        match self.find(id) {
            None => {
                if self.session_error.is_some() {
                    Err(ErrorCode::SessionClosed)
                } else {
                    Err(ErrorCode::StreamClosed)
                }
            },
            Some(i) => {
                let ghost old_m = self@;
                proof {
                    lemma_steps_evolve(old_m.streams[i as int], Seq::empty(), max as nat, rst_frame(0, ErrorCode::NoError), ErrorCode::NoError);
                    lemma_with_stream_wf(old_m, i as int, read_step(old_m.streams[i as int], max as nat).0);
                }
                let r = self.streams[i].read(max);
                assert(self@.streams =~= old_m.streams.update(i as int, read_step(old_m.streams[i as int], max as nat).0));
                r
            },
        }
    }

    /// Closes the write half of the stream `id`, returning the FIN frame to
    /// send, if one is due.
    pub fn close_write(&mut self, id: u32) -> (r: Result<Option<Frame>, ErrorCode>)
        requires
            old(self)@.wf(),
        ensures
            final(self)@.wf(),
            match index_of(old(self)@.streams, id) {
                None => final(self)@ == old(self)@ && r is Err && r->Err_0 == missing_error(old(self)@),
                Some(i) => final(self)@ == with_stream(old(self)@, i, close_write_step(old(self)@.streams[i]).0)
                    && r is Ok && opt_frame_view(r->Ok_0) == close_write_step(old(self)@.streams[i]).1,
            },
    {
        match self.find(id) {
            None => {
                if self.session_error.is_some() {
                    Err(ErrorCode::SessionClosed)
                } else {
                    Err(ErrorCode::StreamClosed)
                }
            },
            Some(i) => {
                let ghost old_m = self@;
                proof {
                    lemma_steps_evolve(old_m.streams[i as int], Seq::empty(), 0, rst_frame(0, ErrorCode::NoError), ErrorCode::NoError);
                    lemma_with_stream_wf(old_m, i as int, close_write_step(old_m.streams[i as int]).0);
                }
                let r = self.streams[i].close_write();
                assert(self@.streams =~= old_m.streams.update(i as int, close_write_step(old_m.streams[i as int]).0));
                Ok(r)
            },
        }
    }

    /// Resets the stream `id` with `code`, returning the RST frame to send,
    /// if one is due.
    pub fn reset(&mut self, id: u32, code: ErrorCode) -> (r: Result<Option<Frame>, ErrorCode>)
        requires
            old(self)@.wf(),
        ensures
            final(self)@.wf(),
            match index_of(old(self)@.streams, id) {
                None => final(self)@ == old(self)@ && r is Err && r->Err_0 == missing_error(old(self)@),
                Some(i) => final(self)@ == with_stream(old(self)@, i, reset_step(old(self)@.streams[i], code).0)
                    && r is Ok && opt_frame_view(r->Ok_0) == reset_step(old(self)@.streams[i], code).1,
            },
    {
        match self.find(id) {
            None => {
                if self.session_error.is_some() {
                    Err(ErrorCode::SessionClosed)
                } else {
                    Err(ErrorCode::StreamClosed)
                }
            },
            Some(i) => {
                let ghost old_m = self@;
                proof {
                    lemma_steps_evolve(old_m.streams[i as int], Seq::empty(), 0, rst_frame(0, ErrorCode::NoError), code);
                    lemma_with_stream_wf(old_m, i as int, reset_step(old_m.streams[i as int], code).0);
                }
                let r = self.streams[i].reset(code);
                assert(self@.streams =~= old_m.streams.update(i as int, reset_step(old_m.streams[i as int], code).0));
                Ok(r)
            },
        }
    }

    /// Routes a DATA, WND_INC or RST frame from the peer to its stream. A
    /// frame for a stream that is missing or gone is answered with an RST
    /// (STREAM_CLOSED); a frame that breaks the
    /// protocol on its stream resets that stream with the error.
    pub fn deliver(&mut self, f: &Frame) -> (r: Delivery)
        requires
            old(self)@.wf(),
        ensures
            final(self)@.wf(),
            (final(self)@, delivery_view(r)) == deliver_spec(old(self)@, f@),
    {
        let idx = self.find(f.stream_id);
        let i = match idx {
            Some(i) => i,
            None => {
                return self.refuse(f);
            },
        };
        if self.streams[i].is_gone() {
            return self.refuse(f);
        }
        let ghost old_m = self@;
        let ghost s = old_m.streams[i as int];
        proof {
            lemma_steps_evolve(s, Seq::empty(), 0, f@, ErrorCode::NoError);
        }
        match self.streams[i].receive(f) {
            Ok(()) => {
                proof {
                    lemma_with_stream_wf(old_m, i as int, receive_step(s, f@).0);
                }
                assert(self@.streams =~= old_m.streams.update(i as int, receive_step(s, f@).0));
                Delivery::Delivered
            },
            Err(e) => {
                proof {
                    lemma_steps_evolve(s, Seq::empty(), 0, f@, e);
                    lemma_with_stream_wf(old_m, i as int, reset_step(s, e).0);
                }
                let rst = self.streams[i].reset(e);
                assert(self@.streams =~= old_m.streams.update(i as int, reset_step(s, e).0));
                match rst {
                    Some(g) => Delivery::Rejected(g),
                    None => Delivery::Rejected(
                        Frame { stream_id: f.stream_id, syn: false, fin: false, body: Body::Rst(e.code()) },
                    ),
                }
            },
        }
    }

    fn refuse(&self, f: &Frame) -> (r: Delivery)
        ensures
            delivery_view(r) == refusal(f@),
    {
        Delivery::Rejected(
            Frame {
                stream_id: f.stream_id,
                syn: false,
                fin: false,
                body: Body::Rst(ErrorCode::StreamClosed.code()),
            },
        )
    }

    /// The session is going away: the first error is latched for the
    /// session and every stream is latched with SESSION_CLOSED.
    pub fn go_away(&mut self, e: ErrorCode)
        requires
            old(self)@.wf(),
        ensures
            final(self)@.wf(),
            final(self)@.session_error == (if old(self)@.session_error.is_some() {
                old(self)@.session_error
            } else {
                Some(e)
            }),
            final(self)@.streams.len() == old(self)@.streams.len(),
            forall|i: int|
                0 <= i < old(self)@.streams.len() ==> #[trigger] final(self)@.streams[i] == latch_step(
                    old(self)@.streams[i],
                    ErrorCode::SessionClosed,
                ),
            final(self)@ == (ManagerModel {
                streams: final(self)@.streams,
                session_error: final(self)@.session_error,
                ..old(self)@
            }),
            final(self)@.live() == 0,
    {
        let ghost old_m = self@;
        let mut i: usize = 0;
        while i < self.streams.len()
            invariant
                0 <= i <= self@.streams.len(),
                self@.streams.len() == old_m.streams.len(),
                self.streams@.len() == old_m.streams.len(),
                self@ == (ManagerModel { streams: self@.streams, ..old_m }),
                forall|j: int| 0 <= j < i ==> #[trigger] self@.streams[j] == latch_step(old_m.streams[j], ErrorCode::SessionClosed),
                forall|j: int| i <= j < self@.streams.len() ==> #[trigger] self@.streams[j] == old_m.streams[j],
                forall|j: int| 0 <= j < self@.streams.len() ==> (#[trigger] self@.streams[j]).wf(),
                old_m.wf(),
            decreases old_m.streams.len() - i,
        {
            let ghost before = self@.streams;
            assert(before[i as int] == self.streams@[i as int]@);
            assert(before[i as int] == old_m.streams[i as int]);
            self.streams[i].latch(ErrorCode::SessionClosed);
            assert(self@.streams =~= before.update(i as int, latch_step(old_m.streams[i as int], ErrorCode::SessionClosed)));
            i = i + 1;
        }
        if self.session_error.is_none() {
            self.session_error = Some(e);
        }
        proof {
            lemma_count_all_gone(self@.streams);
            let m = self@;
            assert forall|a: int| 0 <= a < m.streams.len() implies (#[trigger] m.streams[a]).id == old_m.streams[a].id by {}
        }
    }

    /// Drops the stream `id` from the table, as its owner lets go of it. A
    /// write half still open is closed first: the FIN frame to send comes
    /// back.
    pub fn release(&mut self, id: u32) -> (r: Option<Frame>)
        requires
            old(self)@.wf(),
        ensures
            final(self)@.wf(),
            match index_of(old(self)@.streams, id) {
                None => final(self)@ == old(self)@ && r.is_none(),
                Some(i) => final(self)@ == ManagerModel {
                    streams: old(self)@.streams.remove(i),
                    ..old(self)@
                } && opt_frame_view(r) == close_write_step(old(self)@.streams[i]).1,
            },
    {
        match self.find(id) {
            None => None,
            Some(i) => {
                let ghost old_m = self@;
                let mut st = self.streams.remove(i);
                let fin = st.close_write();
                proof {
                    lemma_count_remove(old_m.streams, i as int);
                    assert(self@.streams =~= old_m.streams.remove(i as int));
                    let m = self@;
                    assert forall|a: int| 0 <= a < m.streams.len() implies (#[trigger] m.streams[a]).id
                        == old_m.streams[if a < i { a } else { a + 1 }].id by {}
                    assert forall|a: int| 0 <= a < m.streams.len() implies (#[trigger] m.streams[a]).wf() by {
                        assert(m.streams[a] == old_m.streams[if a < i { a } else { a + 1 }]);
                    }
                }
                fin
            },
        }
    }
}

/// The count of live streams never exceeds the stream limit.
pub proof fn lemma_live_within_limit(m: ManagerModel)
    requires
        m.wf(),
    ensures
        m.live() <= m.limit,
{
}

/// IDs this side puts on the wire are strictly increasing and all of its
/// own parity; the next one is above all before it. The peer's accepted IDs
/// are of the other parity and above every ID it opened before.
pub proof fn lemma_ids_monotonic(m: ManagerModel, id: u32)
    requires
        m.wf(),
    ensures
        forall|i: int, j: int| 0 <= i < j < m.opened.len() ==> m.opened[i] < m.opened[j],
        forall|i: int| 0 <= i < m.opened.len() ==> own_parity(m.client, m.opened[i] as nat),
        forall|i: int| 0 <= i < m.opened.len() ==> m.opened[i] < m.next_local,
        own_parity(m.client, m.next_local),
        create_remote_spec(m, id).1 is Ok ==> !own_parity(m.client, id as nat) && id > m.last_remote
            && create_remote_spec(m, id).0.last_remote == id,
{
}

/// A frame for an ID the registry does not hold creates no state: the
/// registry is unchanged, and the answer is one RST with STREAM_CLOSED.
pub proof fn lemma_unknown_id_creates_nothing(m: ManagerModel, f: FrameModel)
    requires
        index_of(m.streams, f.stream_id).is_none(),
    ensures
        deliver_spec(m, f).0 == m,
        deliver_spec(m, f).1 == DeliveryModel::Rejected(
            rst_frame(f.stream_id, ErrorCode::StreamClosed),
        ),
{
}

/// At the stream limit a SYN with a valid new ID is refused: the table is
/// unchanged and only the ID counts as seen; a local open fails with
/// STREAMS_EXHAUSTED.
pub proof fn lemma_refused_at_limit(m: ManagerModel, id: u32)
    requires
        m.wf(),
        m.session_error.is_none(),
        m.live() >= m.limit,
        !own_parity(m.client, id as nat),
        id > m.last_remote,
    ensures
        create_remote_spec(m, id) == (
            ManagerModel { last_remote: id as nat, ..m },
            Err::<(), ErrorCode>(ErrorCode::StreamRefused),
        ),
        create_remote_spec(m, id).0.streams == m.streams,
{
}

/// Routing frames from the peer one after another: the registry after them
/// and the answer to each.
pub open spec fn deliver_seq(m: ManagerModel, fs: Seq<FrameModel>) -> (ManagerModel, Seq<DeliveryModel>)
    decreases fs.len(),
{
    if fs.len() == 0 {
        (m, Seq::empty())
    } else {
        let (m1, ds) = deliver_seq(m, fs.drop_last());
        let (m2, d) = deliver_spec(m1, fs.last());
        (m2, ds.push(d))
    }
}

proof fn lemma_data_run_prefix(fs: Seq<FrameModel>)
    requires
        fs.len() > 0,
        data_run(fs),
    ensures
        data_run(fs.drop_last()),
        fs.last().body is Data,
        fs.drop_last().len() > 0 ==> !fs.drop_last().last().fin,
        payload(fs).len() == payload(fs.drop_last()).len() + (match fs.last().body {
            BodyModel::Data(d) => d.len(),
            _ => 0,
        }),
{
    let pre = fs.drop_last();
    assert forall|i: int| 0 <= i < pre.len() implies (#[trigger] pre[i]).body is Data by {
        assert(pre[i] == fs[i]);
    }
    assert forall|i: int| 0 <= i < pre.len() - 1 implies !(#[trigger] pre[i]).fin by {
        assert(pre[i] == fs[i]);
    }
    assert(fs.last() == fs[fs.len() - 1]);
    if pre.len() > 0 {
        assert(pre.last() == fs[fs.len() - 2]);
    }
}

/// The registry takes a run of DATA frames for one of its open streams
/// (split any way, only the last with FIN, fitting what is left of the
/// window) frame by frame: every frame is delivered, none is answered, and
/// the stream ends as taking the whole run at once leaves it.
pub proof fn lemma_deliver_run(m: ManagerModel, i: int, fs: Seq<FrameModel>)
    requires
        m.wf(),
        0 <= i < m.streams.len(),
        !m.streams[i].gone(),
        !m.streams[i].remote_closed,
        data_run(fs),
        forall|k: int| 0 <= k < fs.len() ==> (#[trigger] fs[k]).stream_id == m.streams[i].id,
        m.streams[i].buf.len() + m.streams[i].unacked + payload(fs).len() <= m.streams[i].window,
    ensures
        receive_seq(m.streams[i], fs).1 is Ok,
        deliver_seq(m, fs).0 == with_stream(m, i, receive_seq(m.streams[i], fs).0),
        deliver_seq(m, fs).0.wf(),
        deliver_seq(m, fs).1.len() == fs.len(),
        forall|k: int| 0 <= k < fs.len() ==> (#[trigger] deliver_seq(m, fs).1[k]) == DeliveryModel::Delivered,
    decreases fs.len(),
{
    let s = m.streams[i];
    lemma_receive_run(s, fs);
    if fs.len() == 0 {
        assert(with_stream(m, i, s).streams =~= m.streams);
    } else {
        let pre = fs.drop_last();
        let f = fs.last();
        lemma_data_run_prefix(fs);
        assert forall|k: int| 0 <= k < pre.len() implies (#[trigger] pre[k]).stream_id == s.id by {
            assert(pre[k] == fs[k]);
        }
        assert(f == fs[fs.len() - 1]);
        lemma_deliver_run(m, i, pre);
        lemma_receive_run(s, pre);
        let t = receive_seq(s, pre).0;
        let m1 = with_stream(m, i, t);
        assert(evolves(s, t));
        lemma_with_stream_wf(m, i, t);
        lemma_index_of(m1.streams, i);
        assert(m1.streams[i] == t);
        assert(!t.gone());
        let t2 = receive_step(t, f).0;
        assert(receive_seq(s, fs) == receive_step(t, f));
        assert(with_stream(m1, i, t2).streams =~= with_stream(m, i, t2).streams);
        lemma_receive_run(s, fs);
        assert(evolves(s, t2));
        lemma_with_stream_wf(m, i, t2);
        let ds = deliver_seq(m, fs).1;
        assert forall|k: int| 0 <= k < fs.len() implies (#[trigger] ds[k]) == DeliveryModel::Delivered by {
            if k < pre.len() {
                assert(ds[k] == deliver_seq(m, pre).1[k]);
            }
        }
    }
}

/// A whole window sent to a fresh stream in any number of DATA frames is
/// delivered frame by frame with no answer; the stream then buffers exactly
/// the bytes sent, and draining them grants the whole window back.
pub proof fn lemma_full_window_delivered(m: ManagerModel, i: int, fs: Seq<FrameModel>)
    requires
        m.wf(),
        0 <= i < m.streams.len(),
        m.streams[i] == fresh(m.streams[i].id, m.window),
        data_run(fs),
        forall|k: int| 0 <= k < fs.len() ==> (#[trigger] fs[k]).stream_id == m.streams[i].id,
        payload(fs).len() == m.window,
    ensures
        forall|k: int| 0 <= k < fs.len() ==> (#[trigger] deliver_seq(m, fs).1[k]) == DeliveryModel::Delivered,
        deliver_seq(m, fs).0.streams[i].buf == payload(fs),
        read_step(deliver_seq(m, fs).0.streams[i], m.window as nat).1 == ReadModel::Data(
            payload(fs),
            Some(
                FrameModel {
                    stream_id: m.streams[i].id,
                    syn: false,
                    fin: false,
                    body: BodyModel::WndInc(m.window),
                },
            ),
        ),
{
    lemma_deliver_run(m, i, fs);
    crate::stream::lemma_full_window_split(m.streams[i].id, m.window, fs);
}

} // verus!
